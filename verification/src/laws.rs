//! File-wide guarantees of the rewrite, proved over the site model.

use vstd::prelude::*;

use crate::names::{
    base_of, leading_markers, lemma_base_of_idempotent, lemma_base_of_marked,
    lemma_base_of_unmarked, lemma_leading_markers_of_marked, marked_of,
};
use crate::sites::{
    declares, must_mark, must_unmark, references, renamed_spelling, rewritten, rewritten_site,
    spelling_of, SiteView,
};

verus! {

/// The rewrite never changes the base name of a spelling.
proof fn lemma_rewrite_preserves_base(sites: Seq<SiteView>, n: Seq<char>)
    ensures
        base_of(renamed_spelling(sites, n)) == base_of(n),
{
    let b = base_of(n);
    lemma_base_of_idempotent(n);
    if must_mark(sites, b) {
        lemma_base_of_marked(b);
    }
}

/// The rewrite changes no site's kind and no spelling's base name, so the
/// rewritten file declares and references exactly the base names the
/// original file does.
proof fn lemma_rewrite_preserves_families(sites: Seq<SiteView>)
    ensures
        forall|b: Seq<char>| #[trigger] declares(rewritten(sites), b) <==> declares(sites, b),
        forall|b: Seq<char>| #[trigger] references(rewritten(sites), b) <==> references(sites, b),
{
    let out = rewritten(sites);
    assert forall|b: Seq<char>| #[trigger] declares(out, b) <==> declares(sites, b) by {
        if declares(out, b) {
            let i = choose|i: int|
                0 <= i < out.len() && out[i] is Binding && base_of(spelling_of(out[i])) == b;
            lemma_rewrite_preserves_base(sites, spelling_of(sites[i]));
            assert(sites[i] is Binding && base_of(spelling_of(sites[i])) == b);
        }
        if declares(sites, b) {
            let i = choose|i: int|
                0 <= i < sites.len() && sites[i] is Binding && base_of(spelling_of(sites[i])) == b;
            lemma_rewrite_preserves_base(sites, spelling_of(sites[i]));
            assert(out[i] is Binding && base_of(spelling_of(out[i])) == b);
        }
    }
    assert forall|b: Seq<char>| #[trigger] references(out, b) <==> references(sites, b) by {
        if references(out, b) {
            let i = choose|i: int|
                0 <= i < out.len() && out[i] is Reference && base_of(spelling_of(out[i])) == b;
            lemma_rewrite_preserves_base(sites, spelling_of(sites[i]));
            assert(sites[i] is Reference && base_of(spelling_of(sites[i])) == b);
        }
        if references(sites, b) {
            let i = choose|i: int|
                0 <= i < sites.len() && sites[i] is Reference && base_of(spelling_of(sites[i]))
                    == b;
            lemma_rewrite_preserves_base(sites, spelling_of(sites[i]));
            assert(out[i] is Reference && base_of(spelling_of(out[i])) == b);
        }
    }
}

/// Idempotence: rewriting a file that was already rewritten is a no-op.
/// Every spelling the rewrite produces is a fixed point of the rule it was
/// produced by, and the rewrite leaves every family's aggregates as they
/// were, so the second pass decides every family the same way and finds
/// every spelling already in its decided form.
pub proof fn lemma_rewrite_idempotent(sites: Seq<SiteView>)
    ensures
        rewritten(rewritten(sites)) == rewritten(sites),
{
    let once = rewritten(sites);
    lemma_rewrite_preserves_families(sites);
    assert forall|i: int| 0 <= i < once.len() implies #[trigger] rewritten_site(once, once[i])
        == once[i] by {
        match sites[i] {
            SiteView::Binding(n) => {
                lemma_rewrite_fixed_point(sites, n);
            },
            SiteView::Reference(n) => {
                lemma_rewrite_fixed_point(sites, n);
            },
            SiteView::Opaque => {},
        }
    }
    assert(rewritten(once) =~= once);
}

/// One spelling's fixed-point argument: renaming a renamed spelling under
/// the rewritten file's (identical) decision returns it unchanged.
proof fn lemma_rewrite_fixed_point(sites: Seq<SiteView>, n: Seq<char>)
    requires
        forall|b: Seq<char>| #[trigger] declares(rewritten(sites), b) <==> declares(sites, b),
        forall|b: Seq<char>| #[trigger] references(rewritten(sites), b) <==> references(sites, b),
    ensures
        renamed_spelling(rewritten(sites), renamed_spelling(sites, n)) == renamed_spelling(
            sites,
            n,
        ),
{
    let b = base_of(n);
    let r = renamed_spelling(sites, n);
    lemma_rewrite_preserves_base(sites, n);
    lemma_base_of_idempotent(n);
    if must_mark(sites, b) {
        assert(must_mark(rewritten(sites), b));
    } else if must_unmark(sites, b) {
        assert(must_unmark(rewritten(sites), b));
    }
}

/// Unused-family guarantee: when a base name is declared somewhere in the
/// file and referenced nowhere, every tracked spelling of its family comes
/// out of the rewrite as the marked form, which carries exactly one
/// leading marker.
pub proof fn lemma_unused_family(sites: Seq<SiteView>, b: Seq<char>)
    requires
        must_mark(sites, b),
    ensures
        forall|i: int|
            0 <= i < sites.len() && !(sites[i] is Opaque) && base_of(spelling_of(sites[i])) == b
                ==> spelling_of(#[trigger] rewritten(sites)[i]) == marked_of(b),
        leading_markers(marked_of(b)) == 1,
{
    let w = choose|i: int|
        0 <= i < sites.len() && sites[i] is Binding && base_of(spelling_of(sites[i])) == b;
    lemma_base_of_unmarked(spelling_of(sites[w]));
    lemma_leading_markers_of_marked(b);
}

/// Used-family guarantee: when a base name is declared somewhere in the
/// file and referenced somewhere, every tracked spelling of its family
/// comes out of the rewrite as the bare base name, which carries no
/// leading marker, whatever each occurrence looked like before.
pub proof fn lemma_used_family(sites: Seq<SiteView>, b: Seq<char>)
    requires
        must_unmark(sites, b),
    ensures
        forall|i: int|
            0 <= i < sites.len() && !(sites[i] is Opaque) && base_of(spelling_of(sites[i])) == b
                ==> spelling_of(#[trigger] rewritten(sites)[i]) == b,
        leading_markers(b) == 0,
{
    let w = choose|i: int|
        0 <= i < sites.len() && sites[i] is Binding && base_of(spelling_of(sites[i])) == b;
    lemma_base_of_unmarked(spelling_of(sites[w]));
}

/// Untracked sites are invariant: a site the passes do not track comes out
/// of the rewrite exactly as it went in, whatever the family decisions
/// were.
pub proof fn lemma_untracked_sites_unchanged(sites: Seq<SiteView>)
    ensures
        forall|i: int|
            0 <= i < sites.len() && sites[i] is Opaque ==> #[trigger] rewritten(sites)[i]
                == sites[i],
{
}

} // verus!
