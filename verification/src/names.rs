//! Spellings and base names.
//!
//! A spelling is the literal character sequence of an identifier occurrence.
//! Its base name is the spelling with every leading marker character (the
//! underscore) stripped; base names are the grouping key for every renaming
//! decision.  The marked form of a base name carries exactly one leading
//! marker.

use vstd::prelude::*;

verus! {

/// The marker character that flags a binding as deliberately unused.
pub open spec fn is_marker(c: char) -> bool {
    c == '_'
}

/// The base name of a spelling: the spelling with all leading markers
/// removed.
pub open spec fn base_of(s: Seq<char>) -> Seq<char>
    decreases s.len(),
{
    if s.len() > 0 && is_marker(s[0]) {
        base_of(s.drop_first())
    } else {
        s
    }
}

/// The marked form of a base name: exactly one leading marker before it.
pub open spec fn marked_of(b: Seq<char>) -> Seq<char> {
    seq!['_'] + b
}

/// How many leading markers a spelling carries.
pub open spec fn leading_markers(s: Seq<char>) -> nat
    decreases s.len(),
{
    if s.len() > 0 && is_marker(s[0]) {
        1 + leading_markers(s.drop_first())
    } else {
        0
    }
}

/// A base name carries no leading marker.
pub proof fn lemma_base_of_unmarked(s: Seq<char>)
    ensures
        leading_markers(base_of(s)) == 0,
    decreases s.len(),
{
    if s.len() > 0 && is_marker(s[0]) {
        lemma_base_of_unmarked(s.drop_first());
    }
}

/// Stripping markers twice is the same as stripping them once.
pub proof fn lemma_base_of_idempotent(s: Seq<char>)
    ensures
        base_of(base_of(s)) == base_of(s),
    decreases s.len(),
{
    if s.len() > 0 && is_marker(s[0]) {
        lemma_base_of_idempotent(s.drop_first());
    }
}

/// Marking a base name adds one marker in front of it.
pub proof fn lemma_leading_markers_of_marked(b: Seq<char>)
    requires
        leading_markers(b) == 0,
    ensures
        leading_markers(marked_of(b)) == 1,
{
    assert(marked_of(b).drop_first() =~= b);
}

/// The marked form of any spelling keeps its base name.
pub proof fn lemma_base_of_marked(b: Seq<char>)
    ensures
        base_of(marked_of(b)) == base_of(b),
{
    assert(marked_of(b).drop_first() =~= b);
}

/// Helper for `strip_markers`: once every character before `i` is a marker
/// and the character at `i` (if any) is not, the base name is the suffix
/// starting at `i`.
proof fn lemma_base_at_first_non_marker(s: Seq<char>, i: int)
    requires
        0 <= i <= s.len(),
        forall|j: int| 0 <= j < i ==> is_marker(s[j]),
        i < s.len() ==> !is_marker(s[i]),
    ensures
        base_of(s) == s.skip(i),
    decreases i,
{
    if i == 0 {
        assert(s.skip(0) =~= s);
    } else {
        lemma_base_at_first_non_marker(s.drop_first(), i - 1);
        assert(s.drop_first().skip(i - 1) =~= s.skip(i));
    }
}

/// Strips every leading marker from a spelling, yielding its base name.
pub fn strip_markers(name: &str) -> (r: String)
    ensures
        r@ == base_of(name@),
{
    let len = name.unicode_len();
    let mut i: usize = 0;
    while i < len && name.get_char(i) == '_'
        invariant
            len == name@.len(),
            0 <= i <= len,
            forall|j: int| 0 <= j < i ==> is_marker(name@[j]),
        decreases len - i,
    {
        i = i + 1;
    }
    proof {
        lemma_base_at_first_non_marker(name@, i as int);
    }
    let base = name.substring_char(i, len);
    assert(base@ =~= name@.skip(i as int));
    base.to_owned()
}

/// Prefixes a base name with exactly one marker.
pub fn mark_spelling(base: &str) -> (r: String)
    ensures
        r@ == marked_of(base@),
{
    proof {
        reveal_strlit("_");
    }
    let mut r = String::from_str("_");
    r.append(base);
    assert(r@ =~= marked_of(base@));
    r
}

} // verus!
