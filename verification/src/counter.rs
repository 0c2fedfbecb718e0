//! The usage collector's state: two flat counters over identifier
//! spellings, one for declaration sites and one for reference sites.
//!
//! Each counter is kept as the log of recorded spellings; the count of a
//! spelling is its multiplicity in the log, and the aggregate count of a
//! base name is the number of recorded spellings that share it.  The
//! collector also tracks the lexical block nesting depth as the traversal
//! descends, but the decision step never consults it: every count is
//! aggregated at file scope.

use vstd::prelude::*;

use crate::names::base_of;

verus! {

/// The multiplicity of the spelling `n` in a log of spellings.
pub open spec fn count_in(names: Seq<String>, n: Seq<char>) -> nat
    decreases names.len(),
{
    if names.len() == 0 {
        0
    } else {
        (if names[0]@ == n {
            1nat
        } else {
            0nat
        }) + count_in(names.drop_first(), n)
    }
}

/// The aggregate count of the base name `b`: how many spellings in the log
/// strip to `b`.
pub open spec fn base_count_in(names: Seq<String>, b: Seq<char>) -> nat
    decreases names.len(),
{
    if names.len() == 0 {
        0
    } else {
        (if base_of(names[0]@) == b {
            1nat
        } else {
            0nat
        }) + base_count_in(names.drop_first(), b)
    }
}

pub proof fn lemma_count_in_push(names: Seq<String>, s: String, n: Seq<char>)
    ensures
        count_in(names.push(s), n) == count_in(names, n) + (if s@ == n {
            1nat
        } else {
            0nat
        }),
    decreases names.len(),
{
    if names.len() == 0 {
        assert(names.push(s).drop_first() =~= names);
    } else {
        assert(names.push(s).drop_first() =~= names.drop_first().push(s));
        lemma_count_in_push(names.drop_first(), s, n);
    }
}

pub proof fn lemma_base_count_in_push(names: Seq<String>, s: String, b: Seq<char>)
    ensures
        base_count_in(names.push(s), b) == base_count_in(names, b) + (if base_of(s@) == b {
            1nat
        } else {
            0nat
        }),
    decreases names.len(),
{
    if names.len() == 0 {
        assert(names.push(s).drop_first() =~= names);
    } else {
        assert(names.push(s).drop_first() =~= names.drop_first().push(s));
        lemma_base_count_in_push(names.drop_first(), s, b);
    }
}

/// A base name has a positive aggregate count exactly when some spelling in
/// the log strips to it.
pub proof fn lemma_base_count_positive(names: Seq<String>, b: Seq<char>)
    ensures
        base_count_in(names, b) > 0 <==> exists|i: int|
            0 <= i < names.len() && base_of(names[i]@) == b,
    decreases names.len(),
{
    if names.len() > 0 {
        lemma_base_count_positive(names.drop_first(), b);
        if base_count_in(names, b) > 0 {
            if base_of(names[0]@) == b {
                assert(base_of(names[0]@) == b);
            } else {
                let i = choose|i: int|
                    0 <= i < names.drop_first().len() && base_of(names.drop_first()[i]@) == b;
                assert(base_of(names[i + 1]@) == b);
            }
        }
        if exists|i: int| 0 <= i < names.len() && base_of(names[i]@) == b {
            let i = choose|i: int| 0 <= i < names.len() && base_of(names[i]@) == b;
            if i > 0 {
                assert(base_of(names.drop_first()[i - 1]@) == b);
            }
        }
    }
}

/// The usage collector.  One read-only traversal of the parsed tree feeds
/// it every simple-identifier binding and every bare single-segment
/// reference; it accumulates the two flat counters the family decision is
/// computed from.
pub struct BlockVarCounter {
    /// Current lexical block nesting depth of the traversal.  Tracked on
    /// the way down, never consulted by `analyze`: the decision rule works
    /// on whole-file aggregates.
    pub depth: usize,
    /// Log of declaration-site spellings, one entry per recorded site.
    pub decls: Vec<String>,
    /// Log of reference-site spellings, one entry per recorded site.
    pub uses: Vec<String>,
}

impl BlockVarCounter {
    /// A fresh collector: no blocks entered, both counters empty.
    pub fn new() -> (c: Self)
        ensures
            c.depth == 0,
            c.decls@ == Seq::<String>::empty(),
            c.uses@ == Seq::<String>::empty(),
    {
        BlockVarCounter { depth: 0, decls: Vec::new(), uses: Vec::new() }
    }

    /// Enter a lexical block: the nesting depth grows by one (it saturates
    /// at the machine limit).  The counters are untouched.
    pub fn push_block(&mut self)
        ensures
            final(self).depth == (if old(self).depth < usize::MAX {
                old(self).depth + 1
            } else {
                old(self).depth as int
            }),
            final(self).decls@ == old(self).decls@,
            final(self).uses@ == old(self).uses@,
    {
        if self.depth < usize::MAX {
            self.depth = self.depth + 1;
        }
    }

    /// Leave a lexical block: the nesting depth shrinks by one (it stops at
    /// zero).  The counters are untouched.
    pub fn pop_block(&mut self)
        ensures
            final(self).depth == (if old(self).depth > 0 {
                old(self).depth - 1
            } else {
                0int
            }),
            final(self).decls@ == old(self).decls@,
            final(self).uses@ == old(self).uses@,
    {
        if self.depth > 0 {
            self.depth = self.depth - 1;
        }
    }

    /// Record one declaration site with the given spelling: its declaration
    /// count grows by one, every other count is unchanged, and the
    /// aggregate count of its base name grows by one.
    pub fn record_decl(&mut self, name: &String)
        ensures
            final(self).decls@ == old(self).decls@.push(*name),
            count_in(final(self).decls@, name@) == count_in(old(self).decls@, name@) + 1,
            forall|n: Seq<char>|
                n != name@ ==> count_in(final(self).decls@, n) == count_in(old(self).decls@, n),
            forall|b: Seq<char>|
                base_count_in(final(self).decls@, b) == base_count_in(old(self).decls@, b) + (
                if base_of(name@) == b {
                    1nat
                } else {
                    0nat
                }),
            final(self).uses@ == old(self).uses@,
            final(self).depth == old(self).depth,
    {
        let stored = name.clone();
        proof {
            assert forall|n: Seq<char>| true implies count_in(
                old(self).decls@.push(stored),
                n,
            ) == count_in(old(self).decls@, n) + (if stored@ == n {
                1nat
            } else {
                0nat
            }) by {
                lemma_count_in_push(old(self).decls@, stored, n);
            }
            assert forall|b: Seq<char>| true implies base_count_in(
                old(self).decls@.push(stored),
                b,
            ) == base_count_in(old(self).decls@, b) + (if base_of(stored@) == b {
                1nat
            } else {
                0nat
            }) by {
                lemma_base_count_in_push(old(self).decls@, stored, b);
            }
        }
        self.decls.push(stored);
    }

    /// Record one reference site with the given spelling: its reference
    /// count grows by one, every other count is unchanged, and the
    /// aggregate count of its base name grows by one.
    pub fn record_use(&mut self, name: &String)
        ensures
            final(self).uses@ == old(self).uses@.push(*name),
            count_in(final(self).uses@, name@) == count_in(old(self).uses@, name@) + 1,
            forall|n: Seq<char>|
                n != name@ ==> count_in(final(self).uses@, n) == count_in(old(self).uses@, n),
            forall|b: Seq<char>|
                base_count_in(final(self).uses@, b) == base_count_in(old(self).uses@, b) + (
                if base_of(name@) == b {
                    1nat
                } else {
                    0nat
                }),
            final(self).decls@ == old(self).decls@,
            final(self).depth == old(self).depth,
    {
        let stored = name.clone();
        proof {
            assert forall|n: Seq<char>| true implies count_in(
                old(self).uses@.push(stored),
                n,
            ) == count_in(old(self).uses@, n) + (if stored@ == n {
                1nat
            } else {
                0nat
            }) by {
                lemma_count_in_push(old(self).uses@, stored, n);
            }
            assert forall|b: Seq<char>| true implies base_count_in(
                old(self).uses@.push(stored),
                b,
            ) == base_count_in(old(self).uses@, b) + (if base_of(stored@) == b {
                1nat
            } else {
                0nat
            }) by {
                lemma_base_count_in_push(old(self).uses@, stored, b);
            }
        }
        self.uses.push(stored);
    }
}

} // verus!
