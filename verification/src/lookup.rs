//! Selection of the most relevant prior entry for a dependency key
//! across every dependency table of the manifest.

use vstd::prelude::*;

use crate::dep::{DepSource, DepView, Dependency, SourceView};
use crate::manifest::{DepSection, Manifest, ManifestView, SectionView};
use crate::text::string_eq;

verus! {

/// How strongly an entry found in section `s` binds when the edit
/// targets section `target`: an exact match outranks everything, then
/// the plain runtime table, then any per-target table, then build, then
/// dev. Users adding a crate to a new section most likely want the
/// version some other section already pins, and an exact-section match
/// must never be overridden.
pub open spec fn section_rank(s: SectionView, target: SectionView) -> int {
    if s == target {
        4
    } else {
        match s {
            SectionView::Runtime => 3,
            SectionView::Target(_) => 2,
            SectionView::Build => 1,
            SectionView::Dev => 0,
        }
    }
}

/// Entry `j` of table `i` of `m` is keyed `k`.
pub open spec fn matches_at(m: ManifestView, k: Seq<char>, i: int, j: int) -> bool {
    0 <= i < m.sections.len() && 0 <= j < m.sections[i].entries.len() && m.sections[i].entries[j].0
        == k
}

/// Some table of `m` holds key `k`.
pub open spec fn has_match(m: ManifestView, k: Seq<char>) -> bool {
    exists|i: int, j: int| matches_at(m, k, i, j)
}

/// Position `(p, q)` comes no later than `(i, j)` in document order.
pub open spec fn pos_le(p: int, q: int, i: int, j: int) -> bool {
    p < i || (p == i && q <= j)
}

/// The chosen match: keyed `k`, of maximal rank, and the last such in
/// document order.
pub open spec fn is_chosen(m: ManifestView, k: Seq<char>, target: SectionView, i: int, j: int) -> bool {
    &&& matches_at(m, k, i, j)
    &&& forall|p: int, q: int|
        #[trigger] matches_at(m, k, p, q) ==> section_rank(m.sections[p].section, target)
            <= section_rank(m.sections[i].section, target)
    &&& forall|p: int, q: int|
        #[trigger] matches_at(m, k, p, q) && section_rank(m.sections[p].section, target)
            == section_rank(m.sections[i].section, target) ==> pos_le(p, q, i, j)
}

/// The record handed back for a chosen entry: when the edit targets the
/// dev table, the entry carries a path source, and it did not come from
/// the dev table itself, its version requirement is dropped — a dev
/// dependency with a path needs no version, but one the user wrote into
/// the dev table itself is preserved.
pub open spec fn adjusted_dep(d: DepView, exact: bool, target: SectionView) -> DepView {
    if (d.source matches SourceView::Path { .. }) && target == SectionView::Dev && !exact {
        DepView { version_req: None, ..d }
    } else {
        d
    }
}

/// Two chosen positions coincide.
pub proof fn lemma_chosen_unique(
    m: ManifestView,
    k: Seq<char>,
    target: SectionView,
    i1: int,
    j1: int,
    i2: int,
    j2: int,
)
    requires
        is_chosen(m, k, target, i1, j1),
        is_chosen(m, k, target, i2, j2),
    ensures
        i1 == i2 && j1 == j2,
{
    assert(matches_at(m, k, i1, j1));
    assert(matches_at(m, k, i2, j2));
    assert(section_rank(m.sections[i1].section, target) == section_rank(
        m.sections[i2].section,
        target,
    ));
    assert(pos_le(i1, j1, i2, j2));
    assert(pos_le(i2, j2, i1, j1));
}

/// The entry the lookup settles on, as a function of the document.
pub open spec fn spec_existing(m: ManifestView, k: Seq<char>, target: SectionView) -> Option<
    DepView,
> {
    if has_match(m, k) {
        let (i, j) = choose|i: int, j: int| is_chosen(m, k, target, i, j);
        Some(adjusted_dep(m.sections[i].entries[j].1, m.sections[i].section == target, target))
    } else {
        None
    }
}

/// The rank of `s` against `target`, as run.
fn rank_of(s: &DepSection, target: &DepSection) -> (r: u8)
    ensures
        r as int == section_rank(s@, target@),
{
    if s.same_section(target) {
        4
    } else {
        match s {
            DepSection::Runtime => 3,
            DepSection::Target(_) => 2,
            DepSection::Build => 1,
            DepSection::Dev => 0,
        }
    }
}

/// Every pair scanned so far lies before `(i, j)`.
spec fn scanned(p: int, q: int, i: int, j: int) -> bool {
    p < i || (p == i && q < j)
}

/// The running best over the scanned prefix.
spec fn best_ok(
    m: ManifestView,
    k: Seq<char>,
    target: SectionView,
    best: Option<(usize, usize)>,
    i: int,
    j: int,
) -> bool {
    match best {
        None => forall|p: int, q: int|
            scanned(p, q, i, j) ==> !#[trigger] matches_at(m, k, p, q),
        Some(b) => {
            let bi = b.0 as int;
            let bj = b.1 as int;
            &&& matches_at(m, k, bi, bj)
            &&& scanned(bi, bj, i, j)
            &&& forall|p: int, q: int|
                scanned(p, q, i, j) && #[trigger] matches_at(m, k, p, q) ==> section_rank(
                    m.sections[p].section,
                    target,
                ) <= section_rank(m.sections[bi].section, target)
            &&& forall|p: int, q: int|
                scanned(p, q, i, j) && #[trigger] matches_at(m, k, p, q) && section_rank(
                    m.sections[p].section,
                    target,
                ) == section_rank(m.sections[bi].section, target) ==> pos_le(p, q, bi, bj)
        },
    }
}

/// Find the prior entry most relevant to `key` when editing `target`.
///
/// Scans every dependency table, classifies each hit by
/// [`section_rank`], and hands back the highest-ranked one (the latest
/// in document order among equals), with its version requirement
/// cleared as [`adjusted_dep`] says.
pub fn find_existing_dependency(
    manifest: &Manifest,
    key: &String,
    target: &DepSection,
) -> (r: Option<Dependency>)
    ensures
        r is Some <==> has_match(manifest@, key@),
        r matches Some(d) ==> exists|i: int, j: int|
            #[trigger] is_chosen(manifest@, key@, target@, i, j) && d@ == adjusted_dep(
                manifest@.sections[i].entries[j].1,
                manifest@.sections[i].section == target@,
                target@,
            ),
        r matches Some(d) ==> Some(d@) == spec_existing(manifest@, key@, target@),
        r is None ==> spec_existing(manifest@, key@, target@) is None,
{
    let ghost m = manifest@;
    let mut best: Option<(usize, usize)> = None;
    let mut best_rank: u8 = 0;
    let mut i: usize = 0;
    while i < manifest.sections.len()
        invariant
            i <= manifest.sections.len(),
            m == manifest@,
            m.sections.len() == manifest.sections.len(),
            best_ok(m, key@, target@, best, i as int, 0),
            best matches Some(b) ==> best_rank as int == section_rank(
                m.sections[b.0 as int].section,
                target@,
            ),
        decreases manifest.sections.len() - i,
    {
        let tbl = &manifest.sections[i];
        let mut j: usize = 0;
        while j < tbl.entries.len()
            invariant
                j <= tbl.entries.len(),
                i < manifest.sections.len(),
                m == manifest@,
                m.sections.len() == manifest.sections.len(),
                tbl@ == m.sections[i as int],
                tbl@.entries.len() == tbl.entries.len(),
                best_ok(m, key@, target@, best, i as int, j as int),
                best matches Some(b) ==> best_rank as int == section_rank(
                    m.sections[b.0 as int].section,
                    target@,
                ),
            decreases tbl.entries.len() - j,
        {
            assert(tbl@.entries[j as int] == tbl.entries[j as int]@);
            if string_eq(&tbl.entries[j].key, key) {
                assert(matches_at(m, key@, i as int, j as int));
                let r = rank_of(&tbl.section, target);
                let take = match best {
                    None => true,
                    Some(_) => r >= best_rank,
                };
                if take {
                    best = Some((i, j));
                    best_rank = r;
                }
            }
            assert(best_ok(m, key@, target@, best, i as int, j as int + 1));
            j = j + 1;
        }
        assert(best_ok(m, key@, target@, best, i as int + 1, 0));
        i = i + 1;
    }
    match best {
        None => {
            assert(!has_match(m, key@)) by {
                if has_match(m, key@) {
                    let (p, q) = choose|p: int, q: int| matches_at(m, key@, p, q);
                    assert(scanned(p, q, m.sections.len() as int, 0));
                }
            }
            None
        },
        Some(b) => {
            let (bi, bj) = b;
            assert(matches_at(m, key@, bi as int, bj as int));
            proof {
                assert forall|p: int, q: int| #[trigger] matches_at(m, key@, p, q) implies scanned(
                    p,
                    q,
                    m.sections.len() as int,
                    0,
                ) by {}
                assert(is_chosen(m, key@, target@, bi as int, bj as int));
            }
            let tbl = &manifest.sections[bi];
            assert(tbl@ == m.sections[bi as int]);
            assert(tbl@.entries[bj as int] == tbl.entries[bj as int]@);
            let exact = tbl.section.same_section(target);
            let mut d = tbl.entries[bj].dep.clone();
            let is_path = match &d.source {
                DepSource::Path { .. } => true,
                _ => false,
            };
            let is_dev_target = match target {
                DepSection::Dev => true,
                _ => false,
            };
            if is_path && is_dev_target && !exact {
                d.version_req = None;
            }
            assert(d@ == adjusted_dep(
                m.sections[bi as int].entries[bj as int].1,
                m.sections[bi as int].section == target@,
                target@,
            ));
            proof {
                let (ci, cj) = choose|ci: int, cj: int| is_chosen(m, key@, target@, ci, cj);
                lemma_chosen_unique(m, key@, target@, ci, cj, bi as int, bj as int);
            }
            Some(d)
        },
    }
}

} // verus!
