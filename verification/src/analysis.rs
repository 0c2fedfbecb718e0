//! The family decision and its application to one spelling.
//!
//! For every base name with at least one declaration, the whole family of
//! spellings sharing that base name is collapsed to a single form: the
//! marked form when no reference to the family exists anywhere in the
//! file, the bare base name when at least one reference exists.

use vstd::prelude::*;

use crate::counter::{base_count_in, lemma_base_count_positive, BlockVarCounter};
use crate::names::{base_of, marked_of, mark_spelling, strip_markers};

verus! {

/// Whether the log holds an entry spelled exactly `b`.
pub open spec fn in_log(v: Seq<String>, b: Seq<char>) -> bool {
    exists|i: int| 0 <= i < v.len() && v[i]@ == b
}

proof fn lemma_in_log_push(v: Seq<String>, s: String, b: Seq<char>)
    ensures
        in_log(v.push(s), b) <==> (in_log(v, b) || s@ == b),
{
    if in_log(v.push(s), b) {
        let i = choose|i: int| 0 <= i < v.push(s).len() && v.push(s)[i]@ == b;
        if i < v.len() {
            assert(v[i]@ == b);
        }
    }
    if in_log(v, b) {
        let i = choose|i: int| 0 <= i < v.len() && v[i]@ == b;
        assert(v.push(s)[i]@ == b);
    }
    if s@ == b {
        assert(v.push(s)[v.len() as int]@ == b);
    }
}

/// Whether some declaration among the first `i` strips to the base name
/// `b`.
pub open spec fn prefix_declares(decls: Seq<String>, i: int, b: Seq<char>) -> bool {
    exists|k: int| 0 <= k < i && base_of(decls[k]@) == b
}

proof fn lemma_prefix_declares_step(decls: Seq<String>, i: int, b: Seq<char>)
    requires
        0 <= i < decls.len(),
    ensures
        prefix_declares(decls, i + 1, b) <==> (prefix_declares(decls, i, b) || base_of(decls[i]@)
            == b),
{
    if prefix_declares(decls, i + 1, b) {
        let k = choose|k: int| 0 <= k < i + 1 && base_of(decls[k]@) == b;
        if k < i {
            assert(prefix_declares(decls, i, b));
        }
    }
    if prefix_declares(decls, i, b) {
        let k = choose|k: int| 0 <= k < i && base_of(decls[k]@) == b;
        assert(0 <= k < i + 1 && base_of(decls[k]@) == b);
    }
}

/// The two disjoint decision sets: base names whose family must collapse
/// to the marked spelling, and base names whose family must collapse to
/// the bare base name.  Base names in neither set are left as they are.
pub struct SinglesAnalysis {
    /// Base names that are declared somewhere and referenced nowhere.
    pub to_single: Vec<String>,
    /// Base names that are declared somewhere and referenced somewhere.
    pub to_plain: Vec<String>,
}

impl SinglesAnalysis {
    /// The base name `b` is decided to the marked form.
    pub open spec fn marks(&self, b: Seq<char>) -> bool {
        in_log(self.to_single@, b)
    }

    /// The base name `b` is decided to the bare form.
    pub open spec fn unmarks(&self, b: Seq<char>) -> bool {
        in_log(self.to_plain@, b)
    }

    /// What one spelling becomes under this decision: the marked form of
    /// its base name if the family must be marked, the bare base name if
    /// the family must be unmarked, the spelling itself otherwise.
    pub open spec fn decided_spelling(&self, n: Seq<char>) -> Seq<char> {
        let b = base_of(n);
        if self.marks(b) && !self.unmarks(b) {
            marked_of(b)
        } else if !self.marks(b) && self.unmarks(b) {
            b
        } else {
            n
        }
    }

    /// Applies the decision to one spelling.  The same rule serves
    /// declaration sites and reference sites, so every occurrence of a
    /// family is rewritten identically.
    pub fn rename_spelling(&self, name: &String) -> (r: String)
        ensures
            r@ == self.decided_spelling(name@),
    {
        let base = strip_markers(name.as_str());
        let in_single = contains_spelling(&self.to_single, &base);
        let in_plain = contains_spelling(&self.to_plain, &base);
        if in_single && !in_plain {
            mark_spelling(base.as_str())
        } else if !in_single && in_plain {
            base
        } else {
            name.clone()
        }
    }
}

/// Whether the log holds an entry spelled exactly `s`.
fn contains_spelling(v: &Vec<String>, s: &String) -> (r: bool)
    ensures
        r <==> in_log(v@, s@),
{
    let mut i: usize = 0;
    while i < v.len()
        invariant
            0 <= i <= v@.len(),
            forall|j: int| 0 <= j < i ==> v@[j]@ != s@,
        decreases v@.len() - i,
    {
        if v[i] == *s {
            return true;
        }
        i = i + 1;
    }
    false
}

/// Whether any spelling in the log strips to the base name `b`; by
/// `lemma_base_count_positive` this is exactly a positive aggregate count.
fn base_occurs(names: &Vec<String>, b: &String) -> (r: bool)
    ensures
        r <==> base_count_in(names@, b@) > 0,
{
    proof {
        lemma_base_count_positive(names@, b@);
    }
    let mut i: usize = 0;
    while i < names.len()
        invariant
            0 <= i <= names@.len(),
            forall|j: int| 0 <= j < i ==> base_of(names@[j]@) != b@,
        decreases names@.len() - i,
    {
        let base = strip_markers(names[i].as_str());
        if base == *b {
            proof {
                lemma_base_count_positive(names@, b@);
                assert(base_of(names@[i as int]@) == b@);
            }
            return true;
        }
        i = i + 1;
    }
    false
}

impl BlockVarCounter {
    /// The family decision over the collected counters.  A base name is
    /// sent to the marked set exactly when its aggregate declaration count
    /// is positive and its aggregate reference count is zero, and to the
    /// bare set exactly when both aggregate counts are positive.
    pub fn analyze(&self) -> (r: SinglesAnalysis)
        ensures
            forall|b: Seq<char>|
                #[trigger] r.marks(b) <==> base_count_in(self.decls@, b) > 0 && base_count_in(
                    self.uses@,
                    b,
                ) == 0,
            forall|b: Seq<char>|
                #[trigger] r.unmarks(b) <==> base_count_in(self.decls@, b) > 0 && base_count_in(
                    self.uses@,
                    b,
                ) > 0,
    {
        let mut to_single: Vec<String> = Vec::new();
        let mut to_plain: Vec<String> = Vec::new();
        let mut i: usize = 0;
        while i < self.decls.len()
            invariant
                0 <= i <= self.decls@.len(),
                forall|b: Seq<char>|
                    #[trigger] in_log(to_single@, b) <==> (prefix_declares(self.decls@, i as int, b)
                        && base_count_in(self.uses@, b) == 0),
                forall|b: Seq<char>|
                    #[trigger] in_log(to_plain@, b) <==> (prefix_declares(self.decls@, i as int, b)
                        && base_count_in(self.uses@, b) > 0),
            decreases self.decls@.len() - i,
        {
            let ghost pre_single = to_single@;
            let ghost pre_plain = to_plain@;
            let base = strip_markers(self.decls[i].as_str());
            if !contains_spelling(&to_single, &base) && !contains_spelling(&to_plain, &base) {
                if base_occurs(&self.uses, &base) {
                    to_plain.push(base);
                    proof {
                        assert forall|b: Seq<char>| #[trigger]
                            in_log(to_plain@, b) <==> (in_log(pre_plain, b) || base_of(
                                self.decls@[i as int]@,
                            ) == b) by {
                            lemma_in_log_push(pre_plain, to_plain@.last(), b);
                        }
                    }
                } else {
                    to_single.push(base);
                    proof {
                        assert forall|b: Seq<char>| #[trigger]
                            in_log(to_single@, b) <==> (in_log(pre_single, b) || base_of(
                                self.decls@[i as int]@,
                            ) == b) by {
                            lemma_in_log_push(pre_single, to_single@.last(), b);
                        }
                    }
                }
            }
            proof {
                assert forall|b: Seq<char>|
                    prefix_declares(self.decls@, i + 1, b) <==> (prefix_declares(
                        self.decls@,
                        i as int,
                        b,
                    ) || base_of(self.decls@[i as int]@) == b) by {
                    lemma_prefix_declares_step(self.decls@, i as int, b);
                }
            }
            i = i + 1;
        }
        proof {
            assert forall|b: Seq<char>|
                prefix_declares(self.decls@, self.decls@.len() as int, b) <==> base_count_in(
                    self.decls@,
                    b,
                ) > 0 by {
                lemma_base_count_positive(self.decls@, b);
            }
        }
        SinglesAnalysis { to_single, to_plain }
    }
}

} // verus!
