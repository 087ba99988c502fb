//! One whole editing run over the in-memory document, once parsing and
//! resolution are done: validate features, commit each record, collect
//! garbage, keep the table's order discipline, and say whether the
//! caller may flush the file.
//!
//! Nothing here touches storage. A caller writes the document back
//! exactly when the run succeeds and [`AddOutcome::write`] is set, so
//! a failing or dry run leaves the file byte for byte as it was.

use vstd::prelude::*;

use crate::args::{AddArgs, RmArgs};
use crate::dep::{dep_key, DepSource, Dependency, SourceView};
use crate::errors::{EditError, Warning};
use crate::features::{rows_distinct, unknown_features};
use crate::manifest::{
    lemma_insert_table, lemma_perm_preserves_has_key, lemma_remove_table, lemma_same_sections,
    lemma_section_index_unique, lemma_table_insert_keys, Manifest, spec_insert,
};
use crate::report::{add_report, AddReport};
use crate::text::{string_eq, strings_sorted};

verus! {

/// What one add run produced, besides the mutated document.
#[derive(Debug)]
pub struct AddOutcome {
    /// One report per added record, in order, unless the run was
    /// quiet.
    pub reports: Vec<AddReport>,
    /// Non-fatal notices, in the order they arose.
    pub warnings: Vec<Warning>,
    /// The caller may write the document to disk only when this is
    /// set; a dry run never sets it.
    pub write: bool,
}

impl AddArgs {
    /// Commit resolved records into the document.
    ///
    /// Each record is reported, checked against the package's own
    /// directory, written into the target table, and followed by a
    /// garbage collection of stale feature qualifiers. A table whose
    /// keys were in order before the run is re-sorted afterwards; one
    /// that was hand-ordered keeps the relative order of its prior
    /// keys, with new keys appended. A record that points the package
    /// at itself fails with [`EditError::SelfDependency`] before
    /// anything is flushed.
    pub fn execute_add_mutations(
        &self,
        manifest: &mut Manifest,
        deps: &Vec<Dependency>,
        manifest_dir: &String,
    ) -> (r: Result<AddOutcome, EditError>)
        requires
            old(manifest)@.wf(),
            self.wf(),
            forall|k: int|
                0 <= k < deps@.len() ==> rows_distinct(
                    ((#[trigger] deps@[k])@).available_features,
                ),
        ensures
            final(manifest)@.wf(),
            r matches Ok(o) ==> o.write == !self.dry_run,
            r is Err <==> (exists|k: int|
                0 <= k < deps@.len() && ((#[trigger] deps@[k])@).source == (SourceView::Path {
                    path: manifest_dir@,
                })),
            r is Err ==> r == Err::<AddOutcome, EditError>(EditError::SelfDependency),
            r is Ok && deps@.len() > 0 ==> final(manifest)@.has_section(self.spec_section()),
            r is Ok ==> forall|k: int|
                0 <= k < deps@.len() ==> final(manifest)@.section_table(
                    self.spec_section(),
                ).has_key(dep_key(((#[trigger] deps@[k])@))),
            ({
                let s = self.spec_section();
                let m0 = old(manifest)@;
                r is Ok && (!m0.has_section(s) || strings_sorted(m0.section_table(s).keys()))
                    && final(manifest)@.has_section(s) ==> strings_sorted(
                    final(manifest)@.section_table(s).keys(),
                )
            }),
            ({
                let s = self.spec_section();
                let m0 = old(manifest)@;
                r is Ok && m0.has_section(s) && !strings_sorted(m0.section_table(s).keys())
                    ==> final(manifest)@.has_section(s) && final(manifest)@.section_table(
                    s,
                ).keys().len() >= m0.section_table(s).keys().len()
                    && final(manifest)@.section_table(s).keys().take(
                    m0.section_table(s).keys().len() as int,
                ) == m0.section_table(s).keys()
            }),
            r matches Ok(o) ==> o.reports@.len() == (if self.quiet {
                0int
            } else {
                deps@.len() as int
            }),
    {
        let ghost m0 = old(manifest)@;
        let ghost s = self.spec_section();
        let section = self.section();
        let mut warnings: Vec<Warning> = Vec::new();
        let mut reports: Vec<AddReport> = Vec::new();

        let mut i: usize = 0;
        while i < deps.len()
            invariant
                i <= deps.len(),
            decreases deps.len() - i,
        {
            match &deps[i].features {
                Some(req) => {
                    let unknown = unknown_features(req, &deps[i].available_features);
                    if unknown.len() > 0 {
                        warnings.push(Warning::UnrecognizedFeatures(unknown));
                    }
                },
                None => {},
            }
            i = i + 1;
        }

        let was_sorted = manifest.table_is_sorted(&section);
        let mut i: usize = 0;
        while i < deps.len()
            invariant
                i <= deps.len(),
                self.wf(),
                section@ == s,
                s == self.spec_section(),
                forall|k: int|
                    0 <= k < deps@.len() ==> rows_distinct(
                        ((#[trigger] deps@[k])@).available_features,
                    ),
                manifest@.wf(),
                i > 0 ==> manifest@.has_section(s),
                forall|k: int|
                    0 <= k < i ==> manifest@.section_table(s).has_key(
                        dep_key(((#[trigger] deps@[k])@)),
                    ),
                forall|k: int|
                    0 <= k < i ==> !(((#[trigger] deps@[k])@).source == (SourceView::Path {
                        path: manifest_dir@,
                    })),
                m0.has_section(s) ==> manifest@.has_section(s) && manifest@.section_table(
                    s,
                ).keys().len() >= m0.section_table(s).keys().len() && manifest@.section_table(
                    s,
                ).keys().take(m0.section_table(s).keys().len() as int) == m0.section_table(
                    s,
                ).keys(),
                reports@.len() == (if self.quiet {
                    0int
                } else {
                    i as int
                }),
            decreases deps.len() - i,
        {
            let ghost m_pre = manifest@;
            let dep = deps[i].clone();
            assert(dep@ == (deps@[i as int])@);
            if !self.quiet {
                let rep = add_report(&dep, &section, self.optional);
                reports.push(rep);
            }
            let is_self = match &dep.source {
                DepSource::Path { path } => string_eq(path, manifest_dir),
                _ => false,
            };
            if is_self {
                assert((deps@[i as int])@.source == (SourceView::Path { path: manifest_dir@ }));
                return Err(EditError::SelfDependency);
            }
            let key = dep.toml_key().clone();
            let ghost dv = dep@;
            manifest.insert_into_table(&section, dep);
            let ghost m_ins = manifest@;
            proof {
                lemma_insert_table(m_pre, s, dv);
                assert(m_ins == spec_insert(m_pre, s, dv));
                assert(m_ins.has_section(s));
                if m_pre.has_section(s) {
                    lemma_table_insert_keys(m_pre.section_table(s), dep_key(dv), dv);
                    assert(m_ins.section_table(s).has_key(dep_key(dv)));
                    if m0.has_section(s) {
                        let ks0 = m0.section_table(s).keys();
                        let ksp = m_pre.section_table(s).keys();
                        let ks1 = m_ins.section_table(s).keys();
                        if !m_pre.section_table(s).has_key(dep_key(dv)) {
                            assert(ks1 == ksp.push(dep_key(dv)));
                            assert(ks1.take(ks0.len() as int) =~= ksp.take(ks0.len() as int));
                        }
                    }
                } else {
                    assert(m_ins.section_table(s).entries[0].0 == dep_key(dv));
                    assert(m_ins.section_table(s).has_key(dep_key(dv)));
                }
            }
            manifest.gc_dep(&key);
            proof {
                assert(manifest@.sections == m_ins.sections);
                lemma_same_sections(m_ins, manifest@, s);
                assert(manifest@.section_table(s) == m_ins.section_table(s));
                assert(manifest@.has_section(s));
                assert forall|k: int|
                    0 <= k < i + 1 implies manifest@.section_table(s).has_key(
                    dep_key(((#[trigger] deps@[k])@)),
                ) by {
                    if k < i {
                        assert(m_pre.section_table(s).has_key(dep_key(((deps@[k])@))));
                        lemma_table_insert_keys(m_pre.section_table(s), dep_key(dv), dv);
                    } else {
                        assert(m_ins.section_table(s).has_key(dep_key(dv)));
                    }
                }
            }
            i = i + 1;
        }
        if was_sorted {
            let ghost m_pre = manifest@;
            manifest.sort_table(&section);
            proof {
                if m_pre.has_section(s) {
                    let si = m_pre.section_index(s);
                    let t0 = m_pre.sections[si];
                    let t1 = manifest@.sections[si];
                    assert(t1.section == t0.section);
                    assert(t0.section == s);
                    lemma_section_index_unique(manifest@, s, si);
                    assert(manifest@.section_table(s) == t1);
                    assert(manifest@.has_section(s));
                    assert forall|k: int|
                        0 <= k < deps@.len() implies manifest@.section_table(s).has_key(
                        dep_key(((#[trigger] deps@[k])@)),
                    ) by {
                        assert(m_pre.section_table(s).has_key(dep_key(((deps@[k])@))));
                        lemma_perm_preserves_has_key(t0, t1, dep_key((deps@[k])@));
                    }
                } else {
                    if deps.len() > 0 {
                        assert(m_pre.section_table(s).has_key(dep_key(((deps@[0])@))));
                    }
                }
            }
        }
        if self.dry_run {
            warnings.push(Warning::DryRun);
        }
        Ok(AddOutcome { reports, warnings, write: !self.dry_run })
    }
}

/// The table of `a`'s section holds every named key, and the names do
/// not repeat: removal then cannot miss.
pub open spec fn removal_precondition(a: RmArgs, m: crate::manifest::ManifestView) -> bool {
    &&& m.has_section(a.spec_section())
    &&& forall|k: int|
        0 <= k < a.crates@.len() ==> m.section_table(a.spec_section()).has_key(
            ((#[trigger] a.crates@[k])@),
        )
    &&& forall|i: int, j: int|
        0 <= i < j < a.crates@.len() ==> (#[trigger] a.crates@[i])@ != (
        #[trigger] a.crates@[j])@
}

impl RmArgs {
    /// Remove each named entry from the target table, collecting the
    /// garbage its departure leaves in the `[features]` table.
    ///
    /// Names are processed in order; the first one absent from the
    /// table stops the run with [`EditError::KeyNotFound`], after its
    /// own garbage collection, and nothing later is touched. When the
    /// table holds every (pairwise distinct) name, the whole run
    /// succeeds and none of them is left in the table.
    pub fn execute_rm_mutations(&self, manifest: &mut Manifest) -> (r: Result<(), EditError>)
        requires
            old(manifest)@.wf(),
        ensures
            final(manifest)@.wf(),
            r is Err ==> r == Err::<(), EditError>(EditError::KeyNotFound),
            r is Ok ==> forall|k: int|
                0 <= k < self.crates@.len() && final(manifest)@.has_section(self.spec_section())
                    ==> !final(manifest)@.section_table(self.spec_section()).has_key(
                    ((#[trigger] self.crates@[k])@),
                ),
            removal_precondition(*self, old(manifest)@) ==> r is Ok,
    {
        let ghost s = self.spec_section();
        let ghost m0 = old(manifest)@;
        let ghost all_present = removal_precondition(*self, m0);
        let section = self.section();
        let mut i: usize = 0;
        while i < self.crates.len()
            invariant
                i <= self.crates.len(),
                section@ == s,
                s == self.spec_section(),
                manifest@.wf(),
                forall|k: int|
                    0 <= k < i && manifest@.has_section(s) ==> !manifest@.section_table(
                        s,
                    ).has_key(((#[trigger] self.crates@[k])@)),
                all_present == removal_precondition(*self, old(manifest)@),
                all_present ==> manifest@.has_section(s),
                forall|k: int|
                    all_present && i <= k < self.crates@.len() ==> manifest@.section_table(
                        s,
                    ).has_key(((#[trigger] self.crates@[k])@)),
                forall|a: int, b: int|
                    all_present && 0 <= a < b < self.crates@.len() ==> (
                    #[trigger] self.crates@[a])@ != (#[trigger] self.crates@[b])@,
            decreases self.crates.len() - i,
        {
            let name = &self.crates[i];
            assert(name@ == (self.crates@[i as int])@);
            let ghost m_pre = manifest@;
            let res = manifest.remove_from_table(&section, name);
            let ghost m_rm = manifest@;
            proof {
                if res is Ok {
                    lemma_remove_table(m_pre, s, name@);
                }
            }
            manifest.gc_dep(name);
            proof {
                assert(manifest@.sections == m_rm.sections);
                if m_rm.has_section(s) {
                    lemma_same_sections(m_rm, manifest@, s);
                    assert(manifest@.section_table(s) == m_rm.section_table(s));
                }
            }
            match res {
                Err(e) => {
                    proof {
                        if all_present {
                            assert(m_pre.has_section(s) && m_pre.section_table(s).has_key(
                                ((#[trigger] self.crates@[i as int])@),
                            ));
                            assert(res is Ok);
                        }
                    }
                    return Err(e);
                },
                Ok(_) => {},
            }
            proof {
                assert(m_rm == crate::manifest::spec_remove(m_pre, s, name@));
                assert(m_rm.has_section(s));
                assert forall|k: int|
                    0 <= k < i + 1 && manifest@.has_section(s) implies !manifest@.section_table(
                    s,
                ).has_key(((#[trigger] self.crates@[k])@)) by {
                    if k < i {
                        if m_rm.section_table(s).has_key((self.crates@[k])@) {
                            assert(m_pre.section_table(s).has_key((self.crates@[k])@));
                        }
                    }
                }
                assert forall|k: int|
                    all_present && i + 1 <= k < self.crates@.len() implies manifest@.section_table(
                    s,
                ).has_key(((#[trigger] self.crates@[k])@)) by {
                    assert(m_pre.section_table(s).has_key((self.crates@[k])@));
                    assert((self.crates@[i as int])@ != (self.crates@[k])@);
                }
            }
            i = i + 1;
        }
        Ok(())
    }
}

} // verus!
