//! The file as the renaming passes see it: a sequence of identifier
//! occurrence sites.
//!
//! A site is either a declaration (a simple-identifier binding pattern), a
//! reference (a bare, single-segment identifier in value position), or an
//! opaque node that neither pass tracks (compound patterns, qualified
//! paths, everything else).  The collector counts the first two kinds; the
//! renamer rewrites their spellings and leaves opaque sites alone.

use vstd::prelude::*;

use crate::analysis::SinglesAnalysis;
use crate::counter::{base_count_in, BlockVarCounter};
use crate::names::{base_of, marked_of};

verus! {

/// One identifier occurrence site of the file.
#[derive(Debug, Clone, PartialEq, Eq)]
pub enum Site {
    /// A declaration site: a simple identifier binding, with its spelling.
    Binding(String),
    /// A reference site: a bare single-segment identifier, with its
    /// spelling.
    Reference(String),
    /// Any position the passes do not track.
    Opaque,
}

/// The mathematical shape of a site: the same three kinds, over character
/// sequences.
pub enum SiteView {
    Binding(Seq<char>),
    Reference(Seq<char>),
    Opaque,
}

impl View for Site {
    type V = SiteView;

    open spec fn view(&self) -> SiteView {
        match self {
            Site::Binding(n) => SiteView::Binding(n@),
            Site::Reference(n) => SiteView::Reference(n@),
            Site::Opaque => SiteView::Opaque,
        }
    }
}

/// The views of a sequence of sites.
pub open spec fn views_of(sites: Seq<Site>) -> Seq<SiteView> {
    sites.map_values(|s: Site| s@)
}

/// The spelling carried by a tracked site (the empty sequence for an
/// opaque one).
pub open spec fn spelling_of(s: SiteView) -> Seq<char> {
    match s {
        SiteView::Binding(n) => n,
        SiteView::Reference(n) => n,
        SiteView::Opaque => Seq::empty(),
    }
}

/// Some declaration site of the file strips to the base name `b`.
pub open spec fn declares(sites: Seq<SiteView>, b: Seq<char>) -> bool {
    exists|i: int| 0 <= i < sites.len() && sites[i] is Binding && base_of(spelling_of(sites[i])) == b
}

/// Some reference site of the file strips to the base name `b`.
pub open spec fn references(sites: Seq<SiteView>, b: Seq<char>) -> bool {
    exists|i: int|
        0 <= i < sites.len() && sites[i] is Reference && base_of(spelling_of(sites[i])) == b
}

/// The family of base name `b` must collapse to the marked spelling:
/// declared somewhere, referenced nowhere.
pub open spec fn must_mark(sites: Seq<SiteView>, b: Seq<char>) -> bool {
    declares(sites, b) && !references(sites, b)
}

/// The family of base name `b` must collapse to the bare base name:
/// declared somewhere, referenced somewhere.
pub open spec fn must_unmark(sites: Seq<SiteView>, b: Seq<char>) -> bool {
    declares(sites, b) && references(sites, b)
}

/// What the spelling `n` becomes in the file whose sites are `sites`.
pub open spec fn renamed_spelling(sites: Seq<SiteView>, n: Seq<char>) -> Seq<char> {
    let b = base_of(n);
    if must_mark(sites, b) {
        marked_of(b)
    } else if must_unmark(sites, b) {
        b
    } else {
        n
    }
}

/// One site after the rewrite: a tracked site carries its renamed
/// spelling, an opaque site is untouched.
pub open spec fn rewritten_site(sites: Seq<SiteView>, s: SiteView) -> SiteView {
    match s {
        SiteView::Binding(n) => SiteView::Binding(renamed_spelling(sites, n)),
        SiteView::Reference(n) => SiteView::Reference(renamed_spelling(sites, n)),
        SiteView::Opaque => SiteView::Opaque,
    }
}

/// The whole file after the rewrite: every site rewritten under the
/// decision computed from the whole file's aggregates.
pub open spec fn rewritten(sites: Seq<SiteView>) -> Seq<SiteView> {
    Seq::new(sites.len(), |i: int| rewritten_site(sites, sites[i]))
}

/// The spellings of a log, in order.
pub open spec fn spellings_of_log(log: Seq<String>) -> Seq<Seq<char>> {
    log.map_values(|s: String| s@)
}

/// The spellings of the file's declaration sites, in order.
pub open spec fn binding_spellings(sites: Seq<SiteView>) -> Seq<Seq<char>>
    decreases sites.len(),
{
    if sites.len() == 0 {
        Seq::empty()
    } else {
        match sites.last() {
            SiteView::Binding(n) => binding_spellings(sites.drop_last()).push(n),
            _ => binding_spellings(sites.drop_last()),
        }
    }
}

/// The spellings of the file's reference sites, in order.
pub open spec fn reference_spellings(sites: Seq<SiteView>) -> Seq<Seq<char>>
    decreases sites.len(),
{
    if sites.len() == 0 {
        Seq::empty()
    } else {
        match sites.last() {
            SiteView::Reference(n) => reference_spellings(sites.drop_last()).push(n),
            _ => reference_spellings(sites.drop_last()),
        }
    }
}

/// Feeds every tracked site to a fresh collector, in order.  The
/// collector's logs come out as exactly the file's declaration and
/// reference spellings, and the aggregate count of each base name is
/// positive exactly when the file declares (respectively references) that
/// base name.
pub fn collect_sites(sites: &Vec<Site>) -> (c: BlockVarCounter)
    ensures
        spellings_of_log(c.decls@) == binding_spellings(views_of(sites@)),
        spellings_of_log(c.uses@) == reference_spellings(views_of(sites@)),
        forall|b: Seq<char>|
            base_count_in(c.decls@, b) > 0 <==> declares(views_of(sites@), b),
        forall|b: Seq<char>|
            base_count_in(c.uses@, b) > 0 <==> references(views_of(sites@), b),
{
    let mut c = BlockVarCounter::new();
    let mut i: usize = 0;
    proof {
        assert(spellings_of_log(c.decls@) =~= binding_spellings(views_of(sites@).take(0)));
        assert(spellings_of_log(c.uses@) =~= reference_spellings(views_of(sites@).take(0)));
    }
    while i < sites.len()
        invariant
            0 <= i <= sites@.len(),
            spellings_of_log(c.decls@) == binding_spellings(views_of(sites@).take(i as int)),
            spellings_of_log(c.uses@) == reference_spellings(views_of(sites@).take(i as int)),
            forall|b: Seq<char>|
                base_count_in(c.decls@, b) > 0 <==> declares(views_of(sites@).take(i as int), b),
            forall|b: Seq<char>|
                base_count_in(c.uses@, b) > 0 <==> references(views_of(sites@).take(i as int), b),
        decreases sites@.len() - i,
    {
        let ghost pre = views_of(sites@).take(i as int);
        let ghost post = views_of(sites@).take(i + 1);
        let ghost pre_decls = c.decls@;
        let ghost pre_uses = c.uses@;
        proof {
            assert(post.drop_last() =~= pre);
            assert(post.last() == sites@[i as int]@);
            assert forall|b: Seq<char>| declares(post, b) <==> (declares(pre, b) || (post.last()
                is Binding && base_of(spelling_of(post.last())) == b)) by {
            lemma_tracked_last(post, b);
            }
            assert forall|b: Seq<char>| references(post, b) <==> (references(pre, b) || (post.last()
                is Reference && base_of(spelling_of(post.last())) == b)) by {
            lemma_tracked_last(post, b);
            }
        }
        match &sites[i] {
            Site::Binding(n) => {
                c.record_decl(n);
                proof {
                    assert(spellings_of_log(c.decls@) =~= spellings_of_log(pre_decls).push(n@));
                }
            },
            Site::Reference(n) => {
                c.record_use(n);
                proof {
                    assert(spellings_of_log(c.uses@) =~= spellings_of_log(pre_uses).push(n@));
                }
            },
            Site::Opaque => (),
        }
        i = i + 1;
    }
    proof {
        assert(views_of(sites@).take(sites@.len() as int) =~= views_of(sites@));
    }
    c
}

/// Splitting a nonempty sequence of sites at its last element splits
/// `declares` and `references` accordingly.
proof fn lemma_tracked_last(sites: Seq<SiteView>, b: Seq<char>)
    requires
        sites.len() > 0,
    ensures
        declares(sites, b) <==> (declares(sites.drop_last(), b) || (sites.last() is Binding
            && base_of(spelling_of(sites.last())) == b)),
        references(sites, b) <==> (references(sites.drop_last(), b) || (sites.last() is Reference
            && base_of(spelling_of(sites.last())) == b)),
{
    let n = sites.len() - 1;
    if declares(sites, b) {
        let i = choose|i: int|
            0 <= i < sites.len() && sites[i] is Binding && base_of(spelling_of(sites[i])) == b;
        if i < n {
            assert(sites.drop_last()[i] == sites[i]);
            assert(declares(sites.drop_last(), b));
        }
    }
    if declares(sites.drop_last(), b) {
        let i = choose|i: int|
            0 <= i < sites.drop_last().len() && sites.drop_last()[i] is Binding && base_of(
                spelling_of(sites.drop_last()[i]),
            ) == b;
        assert(sites[i] == sites.drop_last()[i]);
        assert(declares(sites, b));
    }
    if sites.last() is Binding && base_of(spelling_of(sites.last())) == b {
        assert(sites[n] is Binding && base_of(spelling_of(sites[n])) == b);
    }
    if references(sites, b) {
        let i = choose|i: int|
            0 <= i < sites.len() && sites[i] is Reference && base_of(spelling_of(sites[i])) == b;
        if i < n {
            assert(sites.drop_last()[i] == sites[i]);
            assert(references(sites.drop_last(), b));
        }
    }
    if references(sites.drop_last(), b) {
        let i = choose|i: int|
            0 <= i < sites.drop_last().len() && sites.drop_last()[i] is Reference && base_of(
                spelling_of(sites.drop_last()[i]),
            ) == b;
        assert(sites[i] == sites.drop_last()[i]);
        assert(references(sites, b));
    }
    if sites.last() is Reference && base_of(spelling_of(sites.last())) == b {
        assert(sites[n] is Reference && base_of(spelling_of(sites[n])) == b);
    }
}

/// Collects the file's sites and computes the family decision from the
/// aggregates: the decision marks exactly the base names the file declares
/// and never references, and unmarks exactly those it declares and
/// references.
pub fn analyze_sites(sites: &Vec<Site>) -> (r: SinglesAnalysis)
    ensures
        forall|b: Seq<char>| #[trigger] r.marks(b) <==> must_mark(views_of(sites@), b),
        forall|b: Seq<char>| #[trigger] r.unmarks(b) <==> must_unmark(views_of(sites@), b),
{
    let c = collect_sites(sites);
    c.analyze()
}

/// Rewrites every site of the file under the decision computed from the
/// file itself: one full pass, applying the family rule uniformly to
/// every tracked spelling and leaving opaque sites untouched.
pub fn rewrite_sites(sites: &Vec<Site>) -> (out: Vec<Site>)
    ensures
        views_of(out@) == rewritten(views_of(sites@)),
{
    let analysis = analyze_sites(sites);
    let ghost file = views_of(sites@);
    let mut out: Vec<Site> = Vec::new();
    let mut i: usize = 0;
    while i < sites.len()
        invariant
            0 <= i <= sites@.len(),
            out@.len() == i,
            forall|b: Seq<char>| #[trigger] analysis.marks(b) <==> must_mark(file, b),
            forall|b: Seq<char>| #[trigger] analysis.unmarks(b) <==> must_unmark(file, b),
            file == views_of(sites@),
            forall|k: int| 0 <= k < i ==> out@[k]@ == rewritten_site(file, sites@[k]@),
        decreases sites@.len() - i,
    {
        match &sites[i] {
            Site::Binding(n) => {
                let r = analysis.rename_spelling(n);
                proof {
                    lemma_decision_matches_file(analysis, file, n@);
                }
                out.push(Site::Binding(r));
            },
            Site::Reference(n) => {
                let r = analysis.rename_spelling(n);
                proof {
                    lemma_decision_matches_file(analysis, file, n@);
                }
                out.push(Site::Reference(r));
            },
            Site::Opaque => {
                out.push(Site::Opaque);
            },
        }
        i = i + 1;
    }
    proof {
        assert(views_of(out@) =~= rewritten(views_of(sites@)));
    }
    out
}

/// A decision whose sets agree with the file's aggregates sends every
/// spelling where the file's rewrite sends it.  In particular the two
/// sets are disjoint: no base name is both never and somewhere
/// referenced.
pub proof fn lemma_decision_matches_file(a: SinglesAnalysis, file: Seq<SiteView>, n: Seq<char>)
    requires
        forall|b: Seq<char>| #[trigger] a.marks(b) <==> must_mark(file, b),
        forall|b: Seq<char>| #[trigger] a.unmarks(b) <==> must_unmark(file, b),
    ensures
        a.decided_spelling(n) == renamed_spelling(file, n),
{
    let b = base_of(n);
    assert(a.marks(b) <==> must_mark(file, b));
    assert(a.unmarks(b) <==> must_unmark(file, b));
}

} // verus!
