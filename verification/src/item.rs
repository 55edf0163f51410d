//! Result items and the fixed-point score arithmetic.
//!
//! Relevance scores arrive from the index engine as plain integers counted
//! in thousandths of a scoring unit, and per-module weights use the same
//! scale: a weight of [`crate::WEIGHT_SCALE`] leaves a score unchanged.
//! A hit's effective score is its raw score multiplied by its module's
//! weight, saturating at `u64::MAX`.

use vstd::prelude::*;

use crate::WEIGHT_SCALE;

verus! {

/// One raw hit handed back by a module's index engine: the stored fields
/// of the matched document and its relevance score in thousandths.
pub struct RawHit {
    pub doc_id: String,
    pub title: String,
    pub summary: String,
    pub score: u64,
}

/// The mathematical value of a [`RawHit`].
pub ghost struct HitModel {
    pub doc_id: Seq<char>,
    pub title: Seq<char>,
    pub summary: Seq<char>,
    pub score: u64,
}

impl View for RawHit {
    type V = HitModel;

    open spec fn view(&self) -> HitModel {
        HitModel {
            doc_id: self.doc_id@,
            title: self.title@,
            summary: self.summary@,
            score: self.score,
        }
    }
}

/// One entry of a merged result list: a raw hit stamped with the module
/// it came from and the weighted effective score that ranked it.
pub struct ResultItem {
    pub doc_id: String,
    pub title: String,
    pub summary: String,
    pub module: String,
    pub raw_score: u64,
    pub effective_score: u64,
}

/// The mathematical value of a [`ResultItem`].
pub ghost struct ItemModel {
    pub doc_id: Seq<char>,
    pub title: Seq<char>,
    pub summary: Seq<char>,
    pub module: Seq<char>,
    pub raw_score: u64,
    pub effective_score: u64,
}

impl View for ResultItem {
    type V = ItemModel;

    open spec fn view(&self) -> ItemModel {
        ItemModel {
            doc_id: self.doc_id@,
            title: self.title@,
            summary: self.summary@,
            module: self.module@,
            raw_score: self.raw_score,
            effective_score: self.effective_score,
        }
    }
}

/// The models of a sequence of items.
pub open spec fn item_models(s: Seq<ResultItem>) -> Seq<ItemModel> {
    s.map(|i: int, x: ResultItem| x@)
}

/// A raw score of `raw` thousandths under a weight of `weight`
/// thousandths yields this effective score, saturating at `u64::MAX`.
pub open spec fn spec_effective_score(raw: u64, weight: u64) -> u64 {
    let v = (raw as int) * (weight as int) / (WEIGHT_SCALE as int);
    if v <= u64::MAX as int {
        v as u64
    } else {
        u64::MAX
    }
}

/// The effective score of a raw score under a module weight, both in
/// thousandths: their product scaled back down, saturating at `u64::MAX`.
pub fn effective_score(raw: u64, weight: u64) -> (e: u64)
    ensures
        e == spec_effective_score(raw, weight),
{
    proof {
        assert((raw as int) * (weight as int) <= (u64::MAX as int) * (u64::MAX as int))
            by (nonlinear_arith)
            requires
                raw <= u64::MAX,
                weight <= u64::MAX,
        ;
        assert((u64::MAX as int) * (u64::MAX as int) <= u128::MAX as int);
    }
    let wide: u128 = (raw as u128) * (weight as u128) / (WEIGHT_SCALE as u128);
    if wide > u64::MAX as u128 {
        u64::MAX
    } else {
        wide as u64
    }
}

/// An exact copy of an item.
pub fn copy_item(x: &ResultItem) -> (r: ResultItem)
    ensures
        r@ == x@,
{
    ResultItem {
        doc_id: x.doc_id.clone(),
        title: x.title.clone(),
        summary: x.summary.clone(),
        module: x.module.clone(),
        raw_score: x.raw_score,
        effective_score: x.effective_score,
    }
}

} // verus!
