//! Per-module and aggregate document counts for diagnostics.
//!
//! Statistics are computed over an owned registry snapshot, so they can
//! be taken while searches run and while other callers mutate the
//! registry.  The aggregate count saturates at `u64::MAX` instead of
//! overflowing.

use vstd::prelude::*;

use crate::registry::{entry_models, EntryModel, ModuleEntry};

verus! {

/// Bytes estimated per document when reporting a module's size.
pub const SIZE_PER_DOC: u64 = 1024;

/// Diagnostic counters for one module.
pub struct ModuleStat {
    pub name: String,
    pub doc_count: u64,
    pub estimated_size_bytes: u64,
}

/// The mathematical value of a [`ModuleStat`].
pub ghost struct StatModel {
    pub name: Seq<char>,
    pub doc_count: u64,
    pub estimated_size_bytes: u64,
}

impl View for ModuleStat {
    type V = StatModel;

    open spec fn view(&self) -> StatModel {
        StatModel {
            name: self.name@,
            doc_count: self.doc_count,
            estimated_size_bytes: self.estimated_size_bytes,
        }
    }
}

/// The size estimate for a module of `docs` documents: `docs` times
/// [`SIZE_PER_DOC`], saturating at `u64::MAX`.
pub open spec fn spec_estimated_size(docs: u64) -> u64 {
    if (docs as int) * (SIZE_PER_DOC as int) <= u64::MAX as int {
        ((docs as int) * (SIZE_PER_DOC as int)) as u64
    } else {
        u64::MAX
    }
}

/// The exact sum of the document counts of a sequence of entries.
pub open spec fn spec_doc_sum(s: Seq<EntryModel>) -> int
    decreases s.len(),
{
    if s.len() == 0 {
        0
    } else {
        spec_doc_sum(s.drop_last()) + s.last().doc_count
    }
}

/// The aggregate count reported for a sequence of entries: the exact sum
/// of the document counts, saturating at `u64::MAX`.
pub open spec fn spec_total_docs(s: Seq<EntryModel>) -> u64 {
    if spec_doc_sum(s) <= u64::MAX as int {
        spec_doc_sum(s) as u64
    } else {
        u64::MAX
    }
}

/// The sum of document counts is never negative.
pub proof fn lemma_doc_sum_bounds(s: Seq<EntryModel>)
    ensures
        spec_doc_sum(s) >= 0,
    decreases s.len(),
{
    if s.len() > 0 {
        lemma_doc_sum_bounds(s.drop_last());
    }
}

/// The per-module statistics for a snapshot of entries, in snapshot
/// order.
pub fn stats_of(entries: &Vec<ModuleEntry>) -> (stats: Vec<ModuleStat>)
    ensures
        stats@.len() == entries@.len(),
        forall|i: int|
            0 <= i < stats@.len() ==> #[trigger] stats@[i]@ == (StatModel {
                name: entry_models(entries@)[i].name,
                doc_count: entry_models(entries@)[i].doc_count,
                estimated_size_bytes: spec_estimated_size(entry_models(entries@)[i].doc_count),
            }),
{
    let mut stats: Vec<ModuleStat> = Vec::new();
    let mut i: usize = 0;
    while i < entries.len()
        invariant
            0 <= i <= entries@.len(),
            stats@.len() == i,
            forall|j: int|
                0 <= j < i ==> #[trigger] stats@[j]@ == (StatModel {
                    name: entry_models(entries@)[j].name,
                    doc_count: entry_models(entries@)[j].doc_count,
                    estimated_size_bytes: spec_estimated_size(
                        entry_models(entries@)[j].doc_count,
                    ),
                }),
        decreases entries@.len() - i,
    {
        assert(entry_models(entries@)[i as int] == entries@[i as int]@);
        let e = &entries[i];
        let docs = e.doc_count;
        proof {
            assert((docs as int) * (SIZE_PER_DOC as int) <= (u64::MAX as int) * (
            SIZE_PER_DOC as int))
                by (nonlinear_arith)
                requires
                    docs <= u64::MAX,
            ;
            assert((u64::MAX as int) * (SIZE_PER_DOC as int) <= u128::MAX as int);
        }
        let wide: u128 = (docs as u128) * (SIZE_PER_DOC as u128);
        let size: u64 = if wide > u64::MAX as u128 {
            u64::MAX
        } else {
            wide as u64
        };
        stats.push(ModuleStat {
            name: e.name.clone(),
            doc_count: docs,
            estimated_size_bytes: size,
        });
        i = i + 1;
    }
    stats
}

/// The aggregate document count of a snapshot of entries: the sum of the
/// per-module counts, saturating at `u64::MAX` so that it can never
/// overflow.
pub fn total_docs(entries: &Vec<ModuleEntry>) -> (total: u64)
    ensures
        total == spec_total_docs(entry_models(entries@)),
{
    let ghost models = entry_models(entries@);
    let mut total: u64 = 0;
    let mut i: usize = 0;
    proof {
        assert(models.take(0) =~= Seq::<EntryModel>::empty());
    }
    while i < entries.len()
        invariant
            0 <= i <= entries@.len(),
            models == entry_models(entries@),
            models.len() == entries@.len(),
            total == spec_total_docs(models.take(i as int)),
        decreases entries@.len() - i,
    {
        assert(models[i as int] == entries@[i as int]@);
        proof {
            assert(models.take(i + 1).drop_last() =~= models.take(i as int));
            assert(models.take(i + 1).last() == models[i as int]);
            lemma_doc_sum_bounds(models.take(i as int));
        }
        let d = entries[i].doc_count;
        let wide: u128 = (total as u128) + (d as u128);
        total = if wide > u64::MAX as u128 {
            u64::MAX
        } else {
            wide as u64
        };
        i = i + 1;
    }
    proof {
        assert(models.take(models.len() as int) =~= models);
    }
    total
}

} // verus!
