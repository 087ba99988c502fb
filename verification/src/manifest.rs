//! In-memory model of the manifest regions this crate edits: the
//! dependency tables of each section and the `[features]` table.
//!
//! A caller reads the real document into this model, lets the mutation
//! engine work on it, and writes only the touched entries back, so the
//! layout of everything untouched survives unmodified.

use vstd::prelude::*;

use crate::dep::{dep_key, Dependency, DepView};
use crate::errors::EditError;
use crate::text::{
    chars_le, is_feature_qualifier, is_sorted, lemma_chars_le_refl, lemma_chars_le_total,
    lemma_chars_le_trans, qualifier_for, str_le, string_eq, strings_sorted,
};

verus! {

/// Which dependency table of the manifest an entry lives in.
#[derive(Debug)]
pub enum DepSection {
    /// `[dependencies]`
    Runtime,
    /// `[dev-dependencies]`
    Dev,
    /// `[build-dependencies]`
    Build,
    /// `[target.<triple>.dependencies]`
    Target(String),
}

/// Spec-level image of a [`DepSection`].
pub ghost enum SectionView {
    Runtime,
    Dev,
    Build,
    Target(Seq<char>),
}

impl View for DepSection {
    type V = SectionView;

    open spec fn view(&self) -> SectionView {
        match self {
            DepSection::Runtime => SectionView::Runtime,
            DepSection::Dev => SectionView::Dev,
            DepSection::Build => SectionView::Build,
            DepSection::Target(t) => SectionView::Target(t@),
        }
    }
}

impl Clone for DepSection {
    fn clone(&self) -> (r: Self)
        ensures
            r@ == self@,
    {
        match self {
            DepSection::Runtime => DepSection::Runtime,
            DepSection::Dev => DepSection::Dev,
            DepSection::Build => DepSection::Build,
            DepSection::Target(t) => DepSection::Target(t.clone()),
        }
    }
}

impl DepSection {
    /// Whether two values name the same table.
    pub fn same_section(&self, other: &DepSection) -> (r: bool)
        ensures
            r == (self@ == other@),
    {
        match (self, other) {
            (DepSection::Runtime, DepSection::Runtime) => true,
            (DepSection::Dev, DepSection::Dev) => true,
            (DepSection::Build, DepSection::Build) => true,
            (DepSection::Target(a), DepSection::Target(b)) => string_eq(a, b),
            _ => false,
        }
    }
}

/// One keyed dependency record of a table.
#[derive(Debug)]
pub struct TableEntry {
    pub key: String,
    pub dep: Dependency,
}

impl View for TableEntry {
    type V = (Seq<char>, DepView);

    open spec fn view(&self) -> Self::V {
        (self.key@, self.dep@)
    }
}

/// One dependency table of the manifest, entries in document order.
#[derive(Debug)]
pub struct DepTable {
    pub section: DepSection,
    pub entries: Vec<TableEntry>,
}

/// Spec-level image of a [`DepTable`].
pub ghost struct TableView {
    pub section: SectionView,
    pub entries: Seq<(Seq<char>, DepView)>,
}

impl View for DepTable {
    type V = TableView;

    open spec fn view(&self) -> TableView {
        TableView { section: self.section@, entries: self.entries@.map_values(|e: TableEntry| e@) }
    }
}

impl TableView {
    /// Keys of a table may not repeat.
    pub open spec fn wf(self) -> bool {
        forall|i: int, j: int|
            0 <= i < j < self.entries.len() ==> (#[trigger] self.entries[i]).0 != (
            #[trigger] self.entries[j]).0
    }

    /// The table's keys, in document order.
    pub open spec fn keys(self) -> Seq<Seq<char>> {
        self.entries.map_values(|e: (Seq<char>, DepView)| e.0)
    }

    pub open spec fn has_key(self, k: Seq<char>) -> bool {
        exists|i: int| 0 <= i < self.entries.len() && (#[trigger] self.entries[i]).0 == k
    }

    /// The index of key `k`; meaningful only under [`Self::wf`].
    pub open spec fn key_index(self, k: Seq<char>) -> int {
        choose|i: int| 0 <= i < self.entries.len() && (#[trigger] self.entries[i]).0 == k
    }

    /// The record stored under key `k`.
    pub open spec fn dep_at(self, k: Seq<char>) -> DepView {
        self.entries[self.key_index(k)].1
    }
}

/// One row of the `[features]` table: a feature of the edited package and
/// the list it activates.
#[derive(Debug)]
pub struct FeatureEntry {
    pub name: String,
    pub activations: Vec<String>,
}

impl View for FeatureEntry {
    type V = (Seq<char>, Seq<Seq<char>>);

    open spec fn view(&self) -> Self::V {
        (self.name@, self.activations.deep_view())
    }
}

/// The model of the manifest regions under edit.
#[derive(Debug)]
pub struct Manifest {
    pub sections: Vec<DepTable>,
    pub features: Vec<FeatureEntry>,
}

/// Spec-level image of a [`Manifest`].
pub ghost struct ManifestView {
    pub sections: Seq<TableView>,
    pub features: Seq<(Seq<char>, Seq<Seq<char>>)>,
}

impl View for Manifest {
    type V = ManifestView;

    open spec fn view(&self) -> ManifestView {
        ManifestView {
            sections: self.sections@.map_values(|t: DepTable| t@),
            features: self.features@.map_values(|f: FeatureEntry| f@),
        }
    }
}

impl ManifestView {
    /// Sections and feature names may not repeat, and each table is
    /// well formed.
    pub open spec fn wf(self) -> bool {
        &&& forall|i: int, j: int|
            0 <= i < j < self.sections.len() ==> (#[trigger] self.sections[i]).section != (
            #[trigger] self.sections[j]).section
        &&& forall|i: int| 0 <= i < self.sections.len() ==> (#[trigger] self.sections[i]).wf()
        &&& forall|i: int, j: int|
            0 <= i < j < self.features.len() ==> (#[trigger] self.features[i]).0 != (
            #[trigger] self.features[j]).0
    }

    pub open spec fn has_section(self, s: SectionView) -> bool {
        exists|i: int| 0 <= i < self.sections.len() && (#[trigger] self.sections[i]).section == s
    }

    /// The index of section `s`; meaningful only under [`Self::wf`].
    pub open spec fn section_index(self, s: SectionView) -> int {
        choose|i: int| 0 <= i < self.sections.len() && (#[trigger] self.sections[i]).section == s
    }

    /// The table of section `s`.
    pub open spec fn section_table(self, s: SectionView) -> TableView {
        self.sections[self.section_index(s)]
    }
}

/// `m` holds `name` somewhere as an optional dependency.
pub open spec fn is_optional_dep(m: ManifestView, name: Seq<char>) -> bool {
    exists|i: int, j: int|
        0 <= i < m.sections.len() && 0 <= j < (#[trigger] m.sections[i]).entries.len() && (
        #[trigger] m.sections[i].entries[j]).0 == name && m.sections[i].entries[j].1.optional
            == Some(true)
}

/// The table `t` after `d` is written under key `k`: an entry with that
/// key is replaced in place, otherwise the record is appended.
pub open spec fn spec_table_insert(t: TableView, k: Seq<char>, d: DepView) -> TableView {
    if t.has_key(k) {
        TableView { section: t.section, entries: t.entries.update(t.key_index(k), (k, d)) }
    } else {
        TableView { section: t.section, entries: t.entries.push((k, d)) }
    }
}

/// The manifest after `d` is written into section `s` under its own key:
/// a missing table is appended, every other region is untouched.
pub open spec fn spec_insert(m: ManifestView, s: SectionView, d: DepView) -> ManifestView {
    if m.has_section(s) {
        ManifestView {
            sections: m.sections.update(
                m.section_index(s),
                spec_table_insert(m.section_table(s), dep_key(d), d),
            ),
            features: m.features,
        }
    } else {
        ManifestView {
            sections: m.sections.push(
                TableView { section: s, entries: seq![(dep_key(d), d)] },
            ),
            features: m.features,
        }
    }
}

/// The manifest after key `k` leaves section `s`; meaningful only when
/// the key is there.
pub open spec fn spec_remove(m: ManifestView, s: SectionView, k: Seq<char>) -> ManifestView {
    let i = m.section_index(s);
    let t = m.sections[i];
    ManifestView {
        sections: m.sections.update(
            i,
            TableView { section: t.section, entries: t.entries.remove(t.key_index(k)) },
        ),
        features: m.features,
    }
}

/// Every feature list of `fs` with the qualifiers of dependency `name`
/// taken out.
pub open spec fn gc_features(
    fs: Seq<(Seq<char>, Seq<Seq<char>>)>,
    name: Seq<char>,
) -> Seq<(Seq<char>, Seq<Seq<char>>)> {
    fs.map_values(
        |f: (Seq<char>, Seq<Seq<char>>)|
            (f.0, f.1.filter(|a: Seq<char>| !is_feature_qualifier(a, name))),
    )
}

/// Under [`ManifestView::wf`] the index of a section is the one a
/// witness shows.
pub proof fn lemma_section_index_unique(m: ManifestView, s: SectionView, i: int)
    requires
        m.wf(),
        0 <= i < m.sections.len(),
        m.sections[i].section == s,
    ensures
        m.section_index(s) == i,
{
    assert(m.has_section(s));
    let c = m.section_index(s);
    if c != i {
        if c < i {
            assert(m.sections[c].section != m.sections[i].section);
        } else {
            assert(m.sections[i].section != m.sections[c].section);
        }
    }
}

proof fn lemma_key_index_unique(t: TableView, k: Seq<char>, j: int)
    requires
        t.wf(),
        0 <= j < t.entries.len(),
        t.entries[j].0 == k,
    ensures
        t.key_index(k) == j,
{
    assert(t.has_key(k));
    let c = t.key_index(k);
    if c != j {
        if c < j {
            assert(t.entries[c].0 != t.entries[j].0);
        } else {
            assert(t.entries[j].0 != t.entries[c].0);
        }
    }
}

impl Manifest {
    /// An empty document model.
    pub fn new() -> (m: Manifest)
        ensures
            m@.sections.len() == 0,
            m@.features.len() == 0,
            m@.wf(),
    {
        Manifest { sections: Vec::new(), features: Vec::new() }
    }

    /// The position of the table of `section`, if the document has one.
    fn find_section_idx(&self, section: &DepSection) -> (r: Option<usize>)
        ensures
            r matches Some(i) ==> i < self@.sections.len() && self@.sections[i as int].section
                == section@,
            r is None ==> !self@.has_section(section@),
    {
        let mut i: usize = 0;
        while i < self.sections.len()
            invariant
                i <= self.sections.len(),
                self@.sections.len() == self.sections.len(),
                forall|j: int| 0 <= j < i ==> (#[trigger] self@.sections[j]).section != section@,
            decreases self.sections.len() - i,
        {
            assert(self@.sections[i as int] == self.sections[i as int]@);
            if self.sections[i].section.same_section(section) {
                return Some(i);
            }
            i = i + 1;
        }
        None
    }

    /// The position of `key` in `tbl`, if the table holds it.
    fn find_entry_idx(tbl: &DepTable, key: &String) -> (r: Option<usize>)
        ensures
            r matches Some(j) ==> j < tbl@.entries.len() && tbl@.entries[j as int].0 == key@,
            r is None ==> !tbl@.has_key(key@),
    {
        let mut j: usize = 0;
        while j < tbl.entries.len()
            invariant
                j <= tbl.entries.len(),
                tbl@.entries.len() == tbl.entries.len(),
                forall|q: int| 0 <= q < j ==> (#[trigger] tbl@.entries[q]).0 != key@,
            decreases tbl.entries.len() - j,
        {
            assert(tbl@.entries[j as int] == tbl.entries[j as int]@);
            if string_eq(&tbl.entries[j].key, key) {
                return Some(j);
            }
            j = j + 1;
        }
        None
    }

    /// Write `dep` into the table of `section` under its manifest key.
    ///
    /// A prior entry under the same key is replaced where it stands;
    /// otherwise the record is appended, so the relative order of the
    /// keys already present never changes. A missing table is created.
    pub fn insert_into_table(&mut self, section: &DepSection, dep: Dependency)
        requires
            old(self)@.wf(),
        ensures
            final(self)@ == spec_insert(old(self)@, section@, dep@),
            final(self)@.wf(),
    {
        let key: String = dep.toml_key().clone();
        let entry = TableEntry { key, dep };
        match self.find_section_idx(section) {
            Some(i) => {
                proof {
                    lemma_section_index_unique(self@, section@, i as int);
                }
                let mut tbl = self.sections.remove(i);
                let ghost t0 = tbl@;
                match Self::find_entry_idx(&tbl, &entry.key) {
                    Some(j) => {
                        proof {
                            lemma_key_index_unique(t0, entry.key@, j as int);
                        }
                        let _ = tbl.entries.remove(j);
                        tbl.entries.insert(j, entry);
                        assert(tbl@.entries =~= t0.entries.update(
                            j as int,
                            (dep_key(dep@), dep@),
                        ));
                    },
                    None => {
                        tbl.entries.push(entry);
                        assert(tbl@.entries =~= t0.entries.push((dep_key(dep@), dep@)));
                    },
                }
                let ghost t1 = tbl@;
                self.sections.insert(i, tbl);
                assert(final(self)@.sections =~= old(self)@.sections.update(i as int, t1));
                proof {
                    let m1 = final(self)@;
                    let m0 = old(self)@;
                    assert(m1.features =~= m0.features);
                    assert(m1 == spec_insert(m0, section@, dep@));
                    assert forall|p: int, q: int|
                        0 <= p < q < m1.sections.len() implies (#[trigger] m1.sections[p]).section
                        != (#[trigger] m1.sections[q]).section by {
                        assert(m1.sections[p].section == m0.sections[p].section);
                        assert(m1.sections[q].section == m0.sections[q].section);
                    }
                    assert forall|p: int| 0 <= p < m1.sections.len() implies (
                    #[trigger] m1.sections[p]).wf() by {
                        if p != i as int {
                            assert(m1.sections[p] == m0.sections[p]);
                        } else {
                            assert(m1.sections[p] == t1);
                            assert forall|a: int, b: int|
                                0 <= a < b < t1.entries.len() implies (
                            #[trigger] t1.entries[a]).0 != (#[trigger] t1.entries[b]).0 by {
                                assert(t0.wf());
                                if b < t0.entries.len() {
                                    assert(t0.entries[a].0 != t0.entries[b].0);
                                }
                            }
                        }
                    }
                }
            },
            None => {
                let mut entries: Vec<TableEntry> = Vec::new();
                entries.push(entry);
                let tbl = DepTable { section: section.clone(), entries };
                let ghost t1 = tbl@;
                self.sections.push(tbl);
                assert(t1.entries =~= seq![(dep_key(dep@), dep@)]);
                assert(final(self)@.sections =~= old(self)@.sections.push(t1));
                proof {
                    let m1 = final(self)@;
                    let m0 = old(self)@;
                    assert(m1.features =~= m0.features);
                    assert(m1 == spec_insert(m0, section@, dep@));
                    assert forall|p: int, q: int|
                        0 <= p < q < m1.sections.len() implies (#[trigger] m1.sections[p]).section
                        != (#[trigger] m1.sections[q]).section by {
                        if q == m1.sections.len() - 1 {
                            assert(m0.sections[p].section != section@);
                        }
                    }
                    assert forall|p: int| 0 <= p < m1.sections.len() implies (
                    #[trigger] m1.sections[p]).wf() by {
                        if p < m0.sections.len() {
                            assert(m1.sections[p] == m0.sections[p]);
                        }
                    }
                }
            },
        }
    }

    /// Take the entry of `key` out of the table of `section`.
    ///
    /// Fails with [`EditError::KeyNotFound`], leaving the document as it
    /// was, exactly when no such entry exists.
    pub fn remove_from_table(&mut self, section: &DepSection, key: &String) -> (r: Result<
        Dependency,
        EditError,
    >)
        requires
            old(self)@.wf(),
        ensures
            final(self)@.wf(),
            r is Ok <==> old(self)@.has_section(section@) && old(self)@.section_table(
                section@,
            ).has_key(key@),
            r matches Ok(d) ==> d@ == old(self)@.section_table(section@).dep_at(key@)
                && final(self)@ == spec_remove(old(self)@, section@, key@),
            r is Err ==> r == Err::<Dependency, EditError>(EditError::KeyNotFound) && final(self)@
                == old(self)@,
    {
        match self.find_section_idx(section) {
            Some(i) => {
                proof {
                    lemma_section_index_unique(self@, section@, i as int);
                }
                let mut tbl = self.sections.remove(i);
                let ghost t0 = tbl@;
                let ghost m0 = old(self)@;
                match Self::find_entry_idx(&tbl, key) {
                    Some(j) => {
                        proof {
                            lemma_key_index_unique(t0, key@, j as int);
                        }
                        let removed = tbl.entries.remove(j);
                        assert(tbl@.entries =~= t0.entries.remove(j as int));
                        let ghost t1 = tbl@;
                        self.sections.insert(i, tbl);
                        assert(final(self)@.sections =~= m0.sections.update(i as int, t1));
                        proof {
                            let m1 = final(self)@;
                            assert(m1.features =~= m0.features);
                            assert(m1 == spec_remove(m0, section@, key@));
                            assert forall|p: int, q: int|
                                0 <= p < q < m1.sections.len() implies (
                            #[trigger] m1.sections[p]).section != (
                            #[trigger] m1.sections[q]).section by {
                                assert(m1.sections[p].section == m0.sections[p].section);
                                assert(m1.sections[q].section == m0.sections[q].section);
                            }
                            assert forall|p: int| 0 <= p < m1.sections.len() implies (
                            #[trigger] m1.sections[p]).wf() by {
                                if p != i as int {
                                    assert(m1.sections[p] == m0.sections[p]);
                                } else {
                                    assert(t0.wf());
                                    assert forall|a: int, b: int|
                                        0 <= a < b < t1.entries.len() implies (
                                    #[trigger] t1.entries[a]).0 != (
                                    #[trigger] t1.entries[b]).0 by {
                                        let aa = if a < j as int {
                                            a
                                        } else {
                                            a + 1
                                        };
                                        let bb = if b < j as int {
                                            b
                                        } else {
                                            b + 1
                                        };
                                        assert(t1.entries[a] == t0.entries[aa]);
                                        assert(t1.entries[b] == t0.entries[bb]);
                                        assert(t0.entries[aa].0 != t0.entries[bb].0);
                                    }
                                }
                            }
                        }
                        Ok(removed.dep)
                    },
                    None => {
                        self.sections.insert(i, tbl);
                        assert(final(self)@.sections =~= m0.sections.update(i as int, t0));
                        assert(final(self)@.sections =~= m0.sections);
                        assert(final(self)@ == m0);
                        Err(EditError::KeyNotFound)
                    },
                }
            },
            None => {
                assert(final(self)@ == old(self)@);
                Err(EditError::KeyNotFound)
            },
        }
    }

    /// Whether `name` still stands in some table as an optional
    /// dependency.
    fn has_optional_dep(&self, name: &String) -> (r: bool)
        ensures
            r == is_optional_dep(self@, name@),
    {
        let mut i: usize = 0;
        while i < self.sections.len()
            invariant
                i <= self.sections.len(),
                self@.sections.len() == self.sections.len(),
                forall|p: int, q: int|
                    0 <= p < i && 0 <= q < (#[trigger] self@.sections[p]).entries.len() ==> !((
                    #[trigger] self@.sections[p].entries[q]).0 == name@
                        && self@.sections[p].entries[q].1.optional == Some(true)),
            decreases self.sections.len() - i,
        {
            assert(self@.sections[i as int] == self.sections[i as int]@);
            let tbl = &self.sections[i];
            let mut j: usize = 0;
            while j < tbl.entries.len()
                invariant
                    j <= tbl.entries.len(),
                    i < self@.sections.len(),
                    tbl@ == self@.sections[i as int],
                    tbl@.entries.len() == tbl.entries.len(),
                    forall|q: int|
                        0 <= q < j ==> !((#[trigger] tbl@.entries[q]).0 == name@
                            && tbl@.entries[q].1.optional == Some(true)),
                decreases tbl.entries.len() - j,
            {
                assert(tbl@.entries[j as int] == tbl.entries[j as int]@);
                let hit = string_eq(&tbl.entries[j].key, name) && match tbl.entries[j].dep.optional {
                    Some(b) => b,
                    None => false,
                };
                if hit {
                    proof {
                        let p = i as int;
                        let q = j as int;
                        assert(self@.sections[p].entries[q].0 == name@);
                        assert(self@.sections[p].entries[q].1.optional == Some(true));
                        assert(is_optional_dep(self@, name@));
                    }
                    return true;
                }
                j = j + 1;
            }
            i = i + 1;
        }
        false
    }

    /// Drop every `name/...` and `name?/...` qualifier from the
    /// `[features]` table once `name` is gone as an optional dependency
    /// of every table. While some table still holds `name` as optional,
    /// nothing changes.
    pub fn gc_dep(&mut self, name: &String)
        requires
            old(self)@.wf(),
        ensures
            final(self)@.wf(),
            final(self)@.sections == old(self)@.sections,
            is_optional_dep(old(self)@, name@) ==> final(self)@ == old(self)@,
            !is_optional_dep(old(self)@, name@) ==> final(self)@.features == gc_features(
                old(self)@.features,
                name@,
            ),
            !is_optional_dep(old(self)@, name@) ==> forall|i: int, j: int|
                0 <= i < final(self)@.features.len() && 0 <= j < (
                #[trigger] final(self)@.features[i]).1.len() ==> !is_feature_qualifier(
                    #[trigger] final(self)@.features[i].1[j],
                    name@,
                ),
    {
        if self.has_optional_dep(name) {
            return ;
        }
        let ghost m0 = old(self)@;
        let ghost f0 = m0.features;
        let ghost pred = |a: Seq<char>| !is_feature_qualifier(a, name@);
        let mut new_feats: Vec<FeatureEntry> = Vec::new();
        let mut i: usize = 0;
        while i < self.features.len()
            invariant
                i <= self.features.len(),
                *self == *old(self),
                f0 == self@.features,
                f0.len() == self.features.len(),
                pred == (|a: Seq<char>| !is_feature_qualifier(a, name@)),
                new_feats@.map_values(|f: FeatureEntry| f@) =~= gc_features(
                    f0.subrange(0, i as int),
                    name@,
                ),
            decreases self.features.len() - i,
        {
            assert(f0[i as int] == self.features[i as int]@);
            let fe = &self.features[i];
            let ghost dv = fe.activations.deep_view();
            let mut acts: Vec<String> = Vec::new();
            let mut j: usize = 0;
            while j < fe.activations.len()
                invariant
                    j <= fe.activations.len(),
                    dv == fe.activations.deep_view(),
                    dv.len() == fe.activations.len(),
                    pred == (|a: Seq<char>| !is_feature_qualifier(a, name@)),
                    acts.deep_view() =~= dv.subrange(0, j as int).filter(pred),
                decreases fe.activations.len() - j,
            {
                let ghost acts0 = acts.deep_view();
                assert(dv[j as int] == fe.activations[j as int]@);
                if !qualifier_for(&fe.activations[j], name) {
                    let item = fe.activations[j].clone();
                    acts.push(item);
                    assert(acts.deep_view() =~= acts0.push(dv[j as int]));
                }
                proof {
                    lemma_filter_push(dv.subrange(0, j as int), pred, dv[j as int]);
                    assert(dv.subrange(0, j as int).push(dv[j as int]) =~= dv.subrange(
                        0,
                        j as int + 1,
                    ));
                }
                j = j + 1;
            }
            assert(dv.subrange(0, dv.len() as int) =~= dv);
            let row = FeatureEntry { name: fe.name.clone(), activations: acts };
            assert(row@ == (f0[i as int].0, f0[i as int].1.filter(pred)));
            let ghost nf0 = new_feats@.map_values(|f: FeatureEntry| f@);
            new_feats.push(row);
            proof {
                assert(new_feats@.map_values(|f: FeatureEntry| f@) =~= nf0.push(
                    (f0[i as int].0, f0[i as int].1.filter(pred)),
                ));
                assert(gc_features(f0.subrange(0, i as int + 1), name@) =~= gc_features(
                    f0.subrange(0, i as int),
                    name@,
                ).push((f0[i as int].0, f0[i as int].1.filter(pred))));
            }
            i = i + 1;
        }
        assert(f0.subrange(0, f0.len() as int) =~= f0);
        self.features = new_feats;
        proof {
            let m1 = final(self)@;
            assert(m1.sections =~= m0.sections);
            assert(m1.features =~= gc_features(f0, name@));
            assert forall|p: int, q: int|
                0 <= p < m1.features.len() && 0 <= q < (
            #[trigger] m1.features[p]).1.len() implies !is_feature_qualifier(
                #[trigger] m1.features[p].1[q],
                name@,
            ) by {
                assert(m1.features[p] == (f0[p].0, f0[p].1.filter(pred)));
                f0[p].1.lemma_filter_pred(pred, q);
            }
            assert forall|p: int, q: int|
                0 <= p < q < m1.features.len() implies (#[trigger] m1.features[p]).0 != (
            #[trigger] m1.features[q]).0 by {
                assert(m1.features[p].0 == f0[p].0);
                assert(m1.features[q].0 == f0[q].0);
            }
        }
    }
}

impl Manifest {
    /// Whether the keys of the table of `section` already stand in
    /// non-decreasing order; a missing table counts as sorted.
    pub fn table_is_sorted(&self, section: &DepSection) -> (r: bool)
        requires
            self@.wf(),
        ensures
            r == (!self@.has_section(section@) || strings_sorted(
                self@.section_table(section@).keys(),
            )),
    {
        match self.find_section_idx(section) {
            Some(i) => {
                proof {
                    lemma_section_index_unique(self@, section@, i as int);
                }
                let tbl = &self.sections[i];
                let mut keys: Vec<String> = Vec::new();
                let mut j: usize = 0;
                while j < tbl.entries.len()
                    invariant
                        j <= tbl.entries.len(),
                        i < self@.sections.len(),
                        tbl@ == self@.sections[i as int],
                        tbl@.entries.len() == tbl.entries.len(),
                        keys.deep_view() =~= tbl@.keys().subrange(0, j as int),
                    decreases tbl.entries.len() - j,
                {
                    assert(tbl@.entries[j as int] == tbl.entries[j as int]@);
                    let ghost k0 = keys.deep_view();
                    keys.push(tbl.entries[j].key.clone());
                    proof {
                        assert(keys.deep_view() =~= k0.push(tbl@.entries[j as int].0));
                        assert(tbl@.keys()[j as int] == tbl@.entries[j as int].0);
                        assert(keys.deep_view() =~= tbl@.keys().subrange(0, j as int + 1));
                    }
                    j = j + 1;
                }
                assert(tbl@.keys().subrange(0, tbl@.keys().len() as int) =~= tbl@.keys());
                assert(keys.deep_view() == tbl@.keys());
                is_sorted(&keys)
            },
            None => true,
        }
    }

    /// Re-order the table of `section` so that its keys stand in
    /// non-decreasing order; the records themselves, the other tables
    /// and the `[features]` table are untouched. A missing table is
    /// left alone.
    pub fn sort_table(&mut self, section: &DepSection)
        requires
            old(self)@.wf(),
        ensures
            final(self)@.wf(),
            final(self)@.features == old(self)@.features,
            !old(self)@.has_section(section@) ==> final(self)@ == old(self)@,
            old(self)@.has_section(section@) ==> ({
                let i = old(self)@.section_index(section@);
                let t0 = old(self)@.sections[i];
                let t1 = final(self)@.sections[i];
                &&& final(self)@.sections.len() == old(self)@.sections.len()
                &&& forall|j: int|
                    0 <= j < old(self)@.sections.len() && j != i ==> final(self)@.sections[j]
                        == old(self)@.sections[j]
                &&& t1.section == t0.section
                &&& t1.entries.to_multiset() == t0.entries.to_multiset()
                &&& strings_sorted(t1.keys())
            }),
    {
        match self.find_section_idx(section) {
            Some(i) => {
                proof {
                    lemma_section_index_unique(self@, section@, i as int);
                }
                let mut tbl = self.sections.remove(i);
                let ghost t0 = tbl@;
                let sorted = sort_entries(tbl.entries);
                tbl.entries = sorted;
                let ghost t1 = tbl@;
                self.sections.insert(i, tbl);
                assert(final(self)@.sections =~= old(self)@.sections.update(i as int, t1));
                proof {
                    let m1 = final(self)@;
                    let m0 = old(self)@;
                    assert(m1.features =~= m0.features);
                    assert(t1.section == t0.section);
                    lemma_perm_preserves_key_distinct(t0.entries, t1.entries);
                    assert forall|p: int, q: int|
                        0 <= p < q < m1.sections.len() implies (#[trigger] m1.sections[p]).section
                        != (#[trigger] m1.sections[q]).section by {
                        assert(m1.sections[p].section == m0.sections[p].section);
                        assert(m1.sections[q].section == m0.sections[q].section);
                    }
                    assert forall|p: int| 0 <= p < m1.sections.len() implies (
                    #[trigger] m1.sections[p]).wf() by {
                        if p != i as int {
                            assert(m1.sections[p] == m0.sections[p]);
                        }
                    }
                }
            },
            None => {
                assert(final(self)@ == old(self)@);
            },
        }
    }
}

/// The position of a record whose key precedes every other key.
fn find_min_idx(v: &Vec<TableEntry>) -> (m: usize)
    requires
        v@.len() > 0,
    ensures
        m < v@.len(),
        forall|q: int| 0 <= q < v@.len() ==> chars_le(v@[m as int].key@, (#[trigger] v@[q]).key@),
{
    let mut m: usize = 0;
    let mut i: usize = 1;
    proof {
        lemma_chars_le_refl(v@[0].key@);
    }
    while i < v.len()
        invariant
            1 <= i <= v@.len(),
            m < i,
            forall|q: int| 0 <= q < i ==> chars_le(v@[m as int].key@, (#[trigger] v@[q]).key@),
        decreases v@.len() - i,
    {
        if str_le(v[i].key.as_str(), v[m].key.as_str()) {
            proof {
                lemma_chars_le_refl(v@[i as int].key@);
                assert forall|q: int| 0 <= q < i + 1 implies chars_le(
                    v@[i as int].key@,
                    (#[trigger] v@[q]).key@,
                ) by {
                    if q < i {
                        lemma_chars_le_trans(v@[i as int].key@, v@[m as int].key@, v@[q].key@);
                    }
                }
            }
            m = i;
        } else {
            proof {
                lemma_chars_le_total(v@[i as int].key@, v@[m as int].key@);
            }
        }
        i = i + 1;
    }
    m
}

/// The entries of `input`, re-ordered so that their keys are
/// non-decreasing.
fn sort_entries(input: Vec<TableEntry>) -> (r: Vec<TableEntry>)
    ensures
        r@.map_values(|e: TableEntry| e@).to_multiset() == input@.map_values(
            |e: TableEntry| e@,
        ).to_multiset(),
        strings_sorted(r@.map_values(|e: TableEntry| e@).map_values(
            |e: (Seq<char>, DepView)| e.0,
        )),
{
    broadcast use vstd::seq_lib::group_to_multiset_ensures;
    broadcast use vstd::multiset::group_multiset_axioms;

    let ghost view_of = |e: TableEntry| e@;
    let ghost in0 = input@.map_values(view_of);
    let mut rest = input;
    let mut out: Vec<TableEntry> = Vec::new();
    while rest.len() > 0
        invariant
            view_of == (|e: TableEntry| e@),
            out@.map_values(view_of).to_multiset().add(rest@.map_values(view_of).to_multiset())
                =~= in0.to_multiset(),
            strings_sorted(out@.map_values(view_of).map_values(|e: (Seq<char>, DepView)| e.0)),
            forall|p: int, q: int|
                0 <= p < out@.len() && 0 <= q < rest@.len() ==> chars_le(
                    (#[trigger] out@[p])@.0,
                    (#[trigger] rest@[q])@.0,
                ),
        decreases rest.len(),
    {
        let ghost out_v = out@.map_values(view_of);
        let ghost rest_v = rest@.map_values(view_of);
        let m = find_min_idx(&rest);
        let e = rest.remove(m);
        out.push(e);
        proof {
            let out_v1 = out@.map_values(view_of);
            let rest_v1 = rest@.map_values(view_of);
            assert(rest_v1 =~= rest_v.remove(m as int));
            assert(out_v1 =~= out_v.push(e@));
            assert(rest_v[m as int] == e@);
            assert(rest_v.contains(e@));
            rest_v.to_multiset_ensures();
            assert(rest_v.to_multiset().count(e@) > 0);
            vstd::seq_lib::to_multiset_build(out_v, e@);
            assert(out_v1 == out_v.push(e@));
            assert(out_v1.to_multiset() == out_v.to_multiset().insert(e@));
            vstd::seq_lib::to_multiset_remove(rest_v, m as int);
            assert(rest_v1 == rest_v.remove(m as int));
            assert(rest_v1.to_multiset() == rest_v.to_multiset().remove(e@));
            assert(out_v1.to_multiset().add(rest_v1.to_multiset()) =~= in0.to_multiset());
            let keys1 = out_v1.map_values(|en: (Seq<char>, DepView)| en.0);
            let keys0 = out_v.map_values(|en: (Seq<char>, DepView)| en.0);
            assert forall|p: int, q: int| 0 <= p < q < keys1.len() implies chars_le(
                keys1[p],
                keys1[q],
            ) by {
                if q == keys1.len() - 1 {
                    assert(out_v[p] == out@[p]@);
                    assert(chars_le(out@[p]@.0, e@.0));
                } else {
                    assert(keys1[p] == keys0[p]);
                    assert(keys1[q] == keys0[q]);
                }
            }
            assert forall|p: int, q: int|
                0 <= p < out@.len() && 0 <= q < rest@.len() implies chars_le(
                (#[trigger] out@[p])@.0,
                (#[trigger] rest@[q])@.0,
            ) by {
                let qq = if q < m as int {
                    q
                } else {
                    q + 1
                };
                assert(rest@[q]@ == rest_v1[q]);
                assert(rest_v1[q] == rest_v[qq]);
                if p < out@.len() - 1 {
                    assert(out@[p]@ == out_v[p]);
                    assert(chars_le(out_v[p].0, rest_v[qq].0));
                } else {
                    assert(out@[p]@ == e@);
                    assert(chars_le(e@.0, rest_v[qq].0));
                }
            }
        }
    }
    assert(rest@.map_values(view_of).to_multiset() =~= Seq::<(Seq<char>, DepView)>::empty()
        .to_multiset());
    assert(out@.map_values(view_of).to_multiset() =~= in0.to_multiset());
    out
}

/// A permutation of entries with pairwise distinct keys again has
/// pairwise distinct keys.
proof fn lemma_perm_preserves_key_distinct(
    a: Seq<(Seq<char>, DepView)>,
    b: Seq<(Seq<char>, DepView)>,
)
    requires
        a.to_multiset() == b.to_multiset(),
        forall|i: int, j: int| 0 <= i < j < a.len() ==> (#[trigger] a[i]).0 != (#[trigger] a[j]).0,
    ensures
        forall|i: int, j: int| 0 <= i < j < b.len() ==> (#[trigger] b[i]).0 != (#[trigger] b[j]).0,
{
    broadcast use vstd::seq_lib::group_to_multiset_ensures;

    assert(a.no_duplicates());
    a.lemma_multiset_has_no_duplicates();
    b.lemma_multiset_has_no_duplicates_conv();
    assert forall|i: int, j: int| 0 <= i < j < b.len() implies (#[trigger] b[i]).0 != (
    #[trigger] b[j]).0 by {
        if b[i].0 == b[j].0 {
            assert(b[i] != b[j]);
            assert(b.contains(b[i]));
            assert(b.contains(b[j]));
            assert(a.to_multiset().count(b[i]) > 0);
            assert(a.to_multiset().count(b[j]) > 0);
            assert(a.contains(b[i]));
            assert(a.contains(b[j]));
            let p = choose|p: int| 0 <= p < a.len() && a[p] == b[i];
            let q = choose|q: int| 0 <= q < a.len() && a[q] == b[j];
            assert(p != q);
            if p < q {
                assert(a[p].0 != a[q].0);
            } else {
                assert(a[q].0 != a[p].0);
            }
        }
    }
}

/// What an insert does to the table of its own section, seen through
/// [`ManifestView::section_table`].
pub proof fn lemma_insert_table(m: ManifestView, s: SectionView, d: DepView)
    requires
        m.wf(),
    ensures
        spec_insert(m, s, d).has_section(s),
        m.has_section(s) ==> spec_insert(m, s, d).section_table(s) == spec_table_insert(
            m.section_table(s),
            dep_key(d),
            d,
        ),
        !m.has_section(s) ==> spec_insert(m, s, d).section_table(s) == (TableView {
            section: s,
            entries: seq![(dep_key(d), d)],
        }),
{
    let m1 = spec_insert(m, s, d);
    if m.has_section(s) {
        let i = m.section_index(s);
        let w = choose|w: int| 0 <= w < m.sections.len() && (#[trigger] m.sections[w]).section == s;
        lemma_section_index_unique(m, s, w);
        assert(m1.sections[i].section == s);
        assert(m1.has_section(s));
        assert forall|a: int, b: int|
            0 <= a < b < m1.sections.len() implies (#[trigger] m1.sections[a]).section != (
        #[trigger] m1.sections[b]).section by {
            assert(m1.sections[a].section == m.sections[a].section);
            assert(m1.sections[b].section == m.sections[b].section);
        }
        lemma_section_index_unique(m1, s, i);
    } else {
        let i = m.sections.len() as int;
        assert(m1.sections[i].section == s);
        assert(m1.has_section(s));
        assert forall|a: int, b: int|
            0 <= a < b < m1.sections.len() implies (#[trigger] m1.sections[a]).section != (
        #[trigger] m1.sections[b]).section by {
            if b < i {
                assert(m1.sections[a].section == m.sections[a].section);
                assert(m1.sections[b].section == m.sections[b].section);
            } else {
                assert(m1.sections[a].section == m.sections[a].section);
                assert(!m.has_section(s));
            }
        }
        lemma_section_index_unique(m1, s, i);
    }
}

/// An insert never loses a key, and touches the key list only by
/// appending its own.
pub proof fn lemma_table_insert_keys(t: TableView, k: Seq<char>, d: DepView)
    ensures
        spec_table_insert(t, k, d).has_key(k),
        forall|k2: Seq<char>| t.has_key(k2) ==> spec_table_insert(t, k, d).has_key(k2),
        t.has_key(k) ==> spec_table_insert(t, k, d).keys() == t.keys(),
        !t.has_key(k) ==> spec_table_insert(t, k, d).keys() == t.keys().push(k),
{
    let t1 = spec_table_insert(t, k, d);
    if t.has_key(k) {
        let j = t.key_index(k);
        assert(t1.entries[j].0 == k);
        assert(t1.has_key(k));
        assert(t1.keys() =~= t.keys());
        assert forall|k2: Seq<char>| t.has_key(k2) implies t1.has_key(k2) by {
            let j2 = choose|j2: int| 0 <= j2 < t.entries.len() && (#[trigger] t.entries[j2]).0 == k2;
            if j2 == j {
                assert(t1.entries[j2].0 == k);
            } else {
                assert(t1.entries[j2].0 == k2);
            }
        }
    } else {
        let j = t.entries.len() as int;
        assert(t1.entries[j].0 == k);
        assert(t1.has_key(k));
        assert(t1.keys() =~= t.keys().push(k));
        assert forall|k2: Seq<char>| t.has_key(k2) implies t1.has_key(k2) by {
            let j2 = choose|j2: int| 0 <= j2 < t.entries.len() && (#[trigger] t.entries[j2]).0 == k2;
            assert(t1.entries[j2].0 == k2);
        }
    }
}

/// A permutation of a table's entries keeps every key.
pub proof fn lemma_perm_preserves_has_key(t0: TableView, t1: TableView, k: Seq<char>)
    requires
        t0.entries.to_multiset() == t1.entries.to_multiset(),
        t0.has_key(k),
    ensures
        t1.has_key(k),
{
    let j = choose|j: int| 0 <= j < t0.entries.len() && (#[trigger] t0.entries[j]).0 == k;
    let e = t0.entries[j];
    assert(t0.entries.contains(e));
    vstd::seq_lib::to_multiset_contains(t0.entries, e);
    vstd::seq_lib::to_multiset_contains(t1.entries, e);
    assert(t1.entries.contains(e));
    let j1 = choose|j1: int| 0 <= j1 < t1.entries.len() && t1.entries[j1] == e;
    assert(t1.entries[j1].0 == k);
}

/// Two views with the same section list agree on every table.
pub proof fn lemma_same_sections(m1: ManifestView, m2: ManifestView, s: SectionView)
    requires
        m1.sections == m2.sections,
        m1.wf(),
        m1.has_section(s),
    ensures
        m2.has_section(s),
        m2.section_table(s) == m1.section_table(s),
{
    let w = choose|w: int| 0 <= w < m1.sections.len() && (#[trigger] m1.sections[w]).section == s;
    assert(m2.sections[w].section == s);
    assert(m2.has_section(s));
    lemma_section_index_unique(m1, s, w);
    let c = m2.section_index(s);
    if c != w {
        if c < w {
            assert(m1.sections[c].section != m1.sections[w].section);
        } else {
            assert(m1.sections[w].section != m1.sections[c].section);
        }
    }
}

/// What a removal does to the table of its own section.
pub proof fn lemma_remove_table(m: ManifestView, s: SectionView, k: Seq<char>)
    requires
        m.wf(),
        m.has_section(s),
        m.section_table(s).has_key(k),
    ensures
        spec_remove(m, s, k).has_section(s),
        !spec_remove(m, s, k).section_table(s).has_key(k),
        forall|k2: Seq<char>|
            k2 != k && m.section_table(s).has_key(k2) ==> spec_remove(m, s, k).section_table(
                s,
            ).has_key(k2),
        forall|k2: Seq<char>|
            spec_remove(m, s, k).section_table(s).has_key(k2) ==> m.section_table(s).has_key(
                k2,
            ),
{
    let m1 = spec_remove(m, s, k);
    let i = m.section_index(s);
    let t0 = m.sections[i];
    let j = t0.key_index(k);
    let t1 = TableView { section: t0.section, entries: t0.entries.remove(j) };
    assert(m1.sections[i].section == s);
    assert(m1.has_section(s));
    assert forall|a: int, b: int|
        0 <= a < b < m1.sections.len() implies (#[trigger] m1.sections[a]).section != (
    #[trigger] m1.sections[b]).section by {
        assert(m1.sections[a].section == m.sections[a].section);
        assert(m1.sections[b].section == m.sections[b].section);
    }
    lemma_section_index_unique(m1, s, i);
    assert(m1.section_table(s) == t1);
    assert(t0.wf());
    assert forall|idx: int| 0 <= idx < t1.entries.len() implies (#[trigger] t1.entries[idx]).0
        != k by {
        if idx < j {
            assert(t1.entries[idx] == t0.entries[idx]);
        } else {
            assert(t1.entries[idx] == t0.entries[idx + 1]);
        }
    }
    assert forall|k2: Seq<char>| k2 != k && t0.has_key(k2) implies t1.has_key(k2) by {
        let j2 = choose|j2: int| 0 <= j2 < t0.entries.len() && (#[trigger] t0.entries[j2]).0 == k2;
        if j2 < j {
            assert(t1.entries[j2].0 == k2);
        } else {
            assert(j2 != j);
            assert(t1.entries[j2 - 1].0 == k2);
        }
    }
    assert forall|k2: Seq<char>| t1.has_key(k2) implies t0.has_key(k2) by {
        let j2 = choose|j2: int| 0 <= j2 < t1.entries.len() && (#[trigger] t1.entries[j2]).0 == k2;
        if j2 < j {
            assert(t0.entries[j2].0 == k2);
        } else {
            assert(t0.entries[j2 + 1].0 == k2);
        }
    }
}

proof fn lemma_filter_push(s: Seq<Seq<char>>, pred: spec_fn(Seq<char>) -> bool, x: Seq<char>)
    ensures
        s.push(x).filter(pred) == (if pred(x) {
            s.filter(pred).push(x)
        } else {
            s.filter(pred)
        }),
{
    reveal(Seq::filter);
    assert(s.push(x).drop_last() =~= s);
    assert(s.push(x).last() == x);
}

} // verus!
