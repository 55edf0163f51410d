//! Merging per-module ranked result lists.
//!
//! All per-module items are concatenated, ordered by effective score
//! descending — ties broken by document identifier ascending, so output
//! is stable across runs — deduplicated by document identifier keeping
//! the highest-scoring instance, and cut off at the requested limit.

use vstd::prelude::*;
use vstd::multiset::Multiset;
use vstd::seq_lib::group_to_multiset_ensures;

use crate::item::{copy_item, item_models, ItemModel, ResultItem};
use crate::order::{
    lemma_lex_lt_asymmetric, lemma_lex_lt_transitive, lemma_lex_trichotomy, lex_lt, str_lt,
};

verus! {

broadcast use group_to_multiset_ensures;

/// The merge order: `a` is ranked at or before `b` when its effective
/// score is higher, or equal with a document identifier that is not
/// later in lexicographic order.
pub open spec fn item_before(a: ItemModel, b: ItemModel) -> bool {
    ||| a.effective_score > b.effective_score
    ||| (a.effective_score == b.effective_score && !lex_lt(b.doc_id, a.doc_id))
}

/// The merge order is reflexive.
pub proof fn lemma_item_before_reflexive(a: ItemModel)
    ensures
        item_before(a, a),
{
    lemma_lex_lt_asymmetric(a.doc_id, a.doc_id);
}

/// The merge order is total: any two items are ordered one way or the
/// other.
pub proof fn lemma_item_before_total(a: ItemModel, b: ItemModel)
    ensures
        item_before(a, b) || item_before(b, a),
{
    lemma_lex_lt_asymmetric(a.doc_id, b.doc_id);
}

/// The merge order is transitive.
pub proof fn lemma_item_before_transitive(a: ItemModel, b: ItemModel, c: ItemModel)
    requires
        item_before(a, b),
        item_before(b, c),
    ensures
        item_before(a, c),
{
    if a.effective_score == b.effective_score && b.effective_score == c.effective_score {
        if lex_lt(c.doc_id, a.doc_id) {
            lemma_lex_trichotomy(a.doc_id, b.doc_id);
            lemma_lex_trichotomy(b.doc_id, c.doc_id);
            if lex_lt(a.doc_id, b.doc_id) && lex_lt(b.doc_id, c.doc_id) {
                lemma_lex_lt_transitive(a.doc_id, b.doc_id, c.doc_id);
                lemma_lex_lt_asymmetric(a.doc_id, c.doc_id);
            } else if lex_lt(a.doc_id, b.doc_id) {
                lemma_lex_lt_asymmetric(a.doc_id, c.doc_id);
            } else if lex_lt(b.doc_id, c.doc_id) {
                lemma_lex_lt_asymmetric(b.doc_id, c.doc_id);
            } else {
                lemma_lex_lt_asymmetric(a.doc_id, a.doc_id);
            }
        }
    }
}

/// Whether `a` is ranked at or before `b` in the merge order.
pub fn item_before_exec(a: &ResultItem, b: &ResultItem) -> (r: bool)
    ensures
        r == item_before(a@, b@),
{
    if a.effective_score > b.effective_score {
        true
    } else if a.effective_score == b.effective_score {
        !str_lt(b.doc_id.as_str(), a.doc_id.as_str())
    } else {
        false
    }
}

/// A sequence ranked by the merge order.
pub open spec fn sorted_items(s: Seq<ItemModel>) -> bool {
    forall|i: int, j: int| 0 <= i < j < s.len() ==> item_before(s[i], s[j])
}

/// Removing an element commutes with taking models.
proof fn lemma_models_remove(s: Seq<ResultItem>, i: int)
    requires
        0 <= i < s.len(),
    ensures
        item_models(s.remove(i)) == item_models(s).remove(i),
{
    assert(item_models(s.remove(i)) =~= item_models(s).remove(i));
}

/// Appending an element commutes with taking models.
proof fn lemma_models_push(s: Seq<ResultItem>, x: ResultItem)
    ensures
        item_models(s.push(x)) == item_models(s).push(x@),
{
    assert(item_models(s.push(x)) =~= item_models(s).push(x@));
}

/// The items ranked by the merge order: same items — as a multiset —
/// in ranked order.
fn sort_items(items: Vec<ResultItem>) -> (out: Vec<ResultItem>)
    ensures
        item_models(out@).to_multiset() == item_models(items@).to_multiset(),
        sorted_items(item_models(out@)),
        item_models(out@).len() == item_models(items@).len(),
{
    let ghost total = item_models(items@).to_multiset();
    let mut rest = items;
    let mut out: Vec<ResultItem> = Vec::new();
    proof {
        assert(item_models(out@).to_multiset().add(item_models(rest@).to_multiset()) =~= total);
        assert(item_models(out@).len() + item_models(rest@).len() == item_models(items@).len());
    }
    while rest.len() > 0
        invariant
            item_models(out@).to_multiset().add(item_models(rest@).to_multiset()) == total,
            total == item_models(items@).to_multiset(),
            item_models(out@).len() + item_models(rest@).len() == item_models(items@).len(),
            sorted_items(item_models(out@)),
            forall|p: int, q: int|
                0 <= p < out@.len() && 0 <= q < rest@.len() ==> item_before(
                    #[trigger] item_models(out@)[p],
                    #[trigger] item_models(rest@)[q],
                ),
        decreases rest@.len(),
    {
        let ghost rm = item_models(rest@);
        let mut best: usize = 0;
        let mut k: usize = 1;
        proof {
            lemma_item_before_reflexive(rm[0]);
        }
        while k < rest.len()
            invariant
                rm == item_models(rest@),
                rm.len() == rest@.len(),
                rest@.len() > 0,
                0 <= best < rest@.len(),
                1 <= k <= rest@.len(),
                forall|j: int| 0 <= j < k ==> item_before(rm[best as int], #[trigger] rm[j]),
            decreases rest@.len() - k,
        {
            assert(rm[k as int] == rest@[k as int]@);
            assert(rm[best as int] == rest@[best as int]@);
            if item_before_exec(&rest[k], &rest[best]) {
                proof {
                    assert forall|j: int| 0 <= j < k + 1 implies item_before(
                        rm[k as int],
                        #[trigger] rm[j],
                    ) by {
                        if j < k {
                            lemma_item_before_transitive(rm[k as int], rm[best as int], rm[j]);
                        } else {
                            lemma_item_before_reflexive(rm[k as int]);
                        }
                    }
                }
                best = k;
            } else {
                proof {
                    lemma_item_before_total(rm[k as int], rm[best as int]);
                }
            }
            k = k + 1;
        }
        let ghost out_before = item_models(out@);
        let ghost out_vec_before = out@;
        let ghost rest_before = rest@;
        let ghost chosen_model = rm[best as int];
        assert(chosen_model == rest@[best as int]@);
        let chosen = rest.remove(best);
        out.push(chosen);
        proof {
            lemma_models_remove(rest_before, best as int);
            assert(item_models(rest@) == rm.remove(best as int));
            lemma_models_push(out_vec_before, chosen);
            assert(item_models(out@) =~= out_before.push(chosen_model));
            assert(rm.contains(chosen_model));
            assert(item_models(out@).to_multiset() =~= out_before.to_multiset().insert(
                chosen_model,
            ));
            assert(item_models(rest@).to_multiset() =~= rm.to_multiset().remove(chosen_model));
            assert(out_before.to_multiset().insert(chosen_model).add(
                rm.to_multiset().remove(chosen_model),
            ) =~= out_before.to_multiset().add(rm.to_multiset()));
            assert forall|p: int, q: int|
                0 <= p < item_models(out@).len() && 0 <= q < item_models(rest@).len()
                implies item_before(
                #[trigger] item_models(out@)[p],
                #[trigger] item_models(rest@)[q],
            ) by {
                let qq = if q < best as int { q } else { q + 1 };
                assert(item_models(rest@)[q] == rm[qq]);
                if p < item_models(out@).len() - 1 {
                    assert(item_models(out@)[p] == out_before[p]);
                } else {
                    assert(item_models(out@)[p] == chosen_model);
                }
            }
            assert forall|i: int, j: int|
                0 <= i < j < item_models(out@).len() implies item_before(
                item_models(out@)[i],
                item_models(out@)[j],
            ) by {
                if j < item_models(out@).len() - 1 {
                    assert(item_before(out_before[i], out_before[j]));
                } else {
                    assert(item_models(out@)[i] == out_before[i]);
                }
            }
        }
    }
    proof {
        assert(item_models(rest@).to_multiset() =~= Multiset::<ItemModel>::empty());
        assert(item_models(out@).to_multiset().add(Multiset::<ItemModel>::empty())
            =~= item_models(out@).to_multiset());
    }
    out
}

/// A sequence ranked by the merge order has non-increasing effective
/// scores.
pub proof fn lemma_sorted_scores_non_increasing(s: Seq<ItemModel>)
    requires
        sorted_items(s),
    ensures
        forall|i: int, j: int|
            0 <= i <= j < s.len() ==> #[trigger] s[i].effective_score >= #[trigger] s[
                j
            ].effective_score,
{
    assert forall|i: int, j: int|
        0 <= i <= j < s.len() implies #[trigger] s[i].effective_score >= #[trigger] s[
        j
    ].effective_score by {
        if i < j {
            assert(item_before(s[i], s[j]));
        }
    }
}

/// No two items share a document identifier.
pub open spec fn distinct_doc_ids(s: Seq<ItemModel>) -> bool {
    forall|i: int, j: int| 0 <= i < j < s.len() ==> s[i].doc_id != s[j].doc_id
}

/// Some kept item carries this document identifier.
pub open spec fn represented(out: Seq<ItemModel>, doc_id: Seq<char>) -> bool {
    exists|i: int| 0 <= i < out.len() && out[i].doc_id == doc_id
}

/// Every item of `out` is one of the items of `src`.
pub open spec fn drawn_from(out: Seq<ItemModel>, src: Seq<ItemModel>) -> bool {
    forall|i: int| 0 <= i < out.len() ==> src.contains(#[trigger] out[i])
}

/// No source instance of a kept document identifier out-scores the kept
/// item: duplicates are resolved towards the maximum effective score.
pub open spec fn keeps_max_per_doc(out: Seq<ItemModel>, src: Seq<ItemModel>) -> bool {
    forall|i: int, j: int|
        0 <= i < out.len() && 0 <= j < src.len() && #[trigger] src[j].doc_id == #[trigger] out[
            i
        ].doc_id ==> src[j].effective_score <= out[i].effective_score
}

/// Every source document is either represented in the output, or the
/// output is full and the document's effective score does not beat the
/// lowest kept score: nothing that belongs in the top of the ranking is
/// dropped.
pub open spec fn covers_or_bounded(out: Seq<ItemModel>, src: Seq<ItemModel>, limit: int) -> bool {
    forall|j: int|
        0 <= j < src.len() ==> represented(out, #[trigger] src[j].doc_id) || (out.len() == limit
            && (limit == 0 || src[j].effective_score <= out[out.len() - 1].effective_score))
}

/// The document identifiers of a sequence of items, in item order.
pub open spec fn doc_id_seq(s: Seq<ItemModel>) -> Seq<Seq<char>> {
    s.map(|i: int, x: ItemModel| x.doc_id)
}

/// The distinct document identifiers of a sequence of items.
pub open spec fn doc_id_set(s: Seq<ItemModel>) -> Set<Seq<char>> {
    doc_id_seq(s).to_set()
}

/// Whether some item of the list carries this document identifier.
fn contains_doc_id(v: &Vec<ResultItem>, id: &str) -> (r: bool)
    ensures
        r == represented(item_models(v@), id@),
{
    let ghost om = item_models(v@);
    let mut i: usize = 0;
    while i < v.len()
        invariant
            0 <= i <= v@.len(),
            om == item_models(v@),
            om.len() == v@.len(),
            forall|j: int| 0 <= j < i ==> #[trigger] om[j].doc_id != id@,
        decreases v@.len() - i,
    {
        assert(om[i as int] == v@[i as int]@);
        if crate::order::str_eq(v[i].doc_id.as_str(), id) {
            assert(om[i as int].doc_id == id@);
            return true;
        }
        i = i + 1;
    }
    proof {
        if represented(om, id@) {
            let w = choose|k: int| 0 <= k < om.len() && om[k].doc_id == id@;
            assert(om[w].doc_id != id@);
        }
    }
    false
}

/// Sequences with equal multisets hold the same items.
proof fn lemma_multiset_contains_equiv(a: Seq<ItemModel>, b: Seq<ItemModel>)
    requires
        a.to_multiset() == b.to_multiset(),
    ensures
        forall|x: ItemModel| a.contains(x) <==> b.contains(x),
{
    assert forall|x: ItemModel| a.contains(x) <==> b.contains(x) by {
        assert(a.contains(x) <==> a.to_multiset().count(x) > 0);
        assert(b.contains(x) <==> b.to_multiset().count(x) > 0);
    }
}

/// A merged, deduplicated, limit-bounded result list, ranked by
/// effective score descending with ties broken by document identifier.
pub struct MergedResultSet {
    pub items: Vec<ResultItem>,
}

impl View for MergedResultSet {
    type V = Seq<ItemModel>;

    open spec fn view(&self) -> Seq<ItemModel> {
        item_models(self.items@)
    }
}

/// Merges the concatenated per-module items into one ranked answer.
///
/// The output is ranked by the merge order, holds at most `limit` items
/// and at most one item per document identifier, keeps for every
/// document its highest-scoring instance, and drops a document entirely
/// only when the output is full of items that rank at or above it.
pub fn merge(items: Vec<ResultItem>, limit: usize) -> (out: MergedResultSet)
    ensures
        out@.len() <= limit,
        sorted_items(out@),
        distinct_doc_ids(out@),
        drawn_from(out@, item_models(items@)),
        keeps_max_per_doc(out@, item_models(items@)),
        covers_or_bounded(out@, item_models(items@), limit as int),
        item_models(items@).len() == 0 ==> out@.len() == 0,
        doc_id_set(item_models(items@)).len() >= limit ==> out@.len() == limit,
{
    let ghost ms = item_models(items@);
    let sorted = sort_items(items);
    let ghost s = item_models(sorted@);
    proof {
        lemma_multiset_contains_equiv(s, ms);
    }
    let mut kept: Vec<ResultItem> = Vec::new();
    let mut k: usize = 0;
    while k < sorted.len() && kept.len() < limit
        invariant
            s == item_models(sorted@),
            s.len() == sorted@.len(),
            sorted_items(s),
            0 <= k <= s.len(),
            item_models(kept@).len() == kept@.len(),
            kept@.len() <= limit,
            sorted_items(item_models(kept@)),
            distinct_doc_ids(item_models(kept@)),
            forall|i: int|
                0 <= i < kept@.len() ==> exists|j: int|
                    0 <= j < k && #[trigger] s[j] == #[trigger] item_models(kept@)[i],
            forall|j: int|
                0 <= j < k ==> represented(item_models(kept@), #[trigger] s[j].doc_id),
            keeps_max_per_doc(item_models(kept@), s.take(k as int)),
        decreases s.len() - k,
    {
        assert(s[k as int] == sorted@[k as int]@);
        let ghost km = item_models(kept@);
        let dup = contains_doc_id(&kept, sorted[k].doc_id.as_str());
        if !dup {
            let ghost kept_vec_before = kept@;
            let copy = copy_item(&sorted[k]);
            assert(copy@ == s[k as int]);
            kept.push(copy);
            proof {
                lemma_models_push(kept_vec_before, copy);
                assert(item_models(kept@) =~= km.push(s[k as int]));
                let km2 = item_models(kept@);
                let last = km2.len() - 1;
                assert(km2[last] == s[k as int]);
                assert forall|i: int| 0 <= i < km2.len() implies exists|j: int|
                    0 <= j < k + 1 && #[trigger] s[j] == #[trigger] km2[i] by {
                    if i < last {
                        assert(km2[i] == km[i]);
                        let j = choose|j: int| 0 <= j < k && #[trigger] s[j] == km[i];
                        assert(s[j] == km2[i]);
                    } else {
                        assert(s[k as int] == km2[i]);
                    }
                }
                assert forall|i: int, j: int|
                    0 <= i < j < km2.len() implies item_before(km2[i], km2[j]) by {
                    if j < last {
                        assert(item_before(km[i], km[j]));
                    } else {
                        let jj = choose|jj: int| 0 <= jj < k && #[trigger] s[jj] == km[i];
                        assert(item_before(s[jj], s[k as int]));
                    }
                }
                assert forall|i: int, j: int|
                    0 <= i < j < km2.len() implies km2[i].doc_id != km2[j].doc_id by {
                    if j == last {
                        assert(!represented(km, s[k as int].doc_id));
                        if km2[i].doc_id == km2[j].doc_id {
                            assert(km[i].doc_id == s[k as int].doc_id);
                        }
                    } else {
                        assert(km[i].doc_id != km[j].doc_id);
                    }
                }
                assert forall|j: int|
                    0 <= j < k + 1 implies represented(km2, #[trigger] s[j].doc_id) by {
                    if j < k {
                        assert(represented(km, s[j].doc_id));
                        let w = choose|w: int| 0 <= w < km.len() && km[w].doc_id == s[j].doc_id;
                        assert(km2[w].doc_id == s[j].doc_id);
                    } else {
                        assert(km2[last].doc_id == s[j].doc_id);
                    }
                }
                assert forall|i: int, j: int|
                    0 <= i < km2.len() && 0 <= j < k + 1 && #[trigger] s.take(k + 1)[j].doc_id
                        == #[trigger] km2[i].doc_id implies s.take(k + 1)[j].effective_score
                    <= km2[i].effective_score by {
                    assert(s.take(k + 1)[j] == s[j]);
                    if i < last {
                        if j < k {
                            assert(s.take(k as int)[j] == s[j]);
                            assert(s.take(k as int)[j].doc_id == km[i].doc_id);
                        } else {
                            assert(!represented(km, s[k as int].doc_id));
                            assert(km[i].doc_id == s[k as int].doc_id);
                        }
                    } else {
                        if j < k {
                            assert(represented(km, s[j].doc_id));
                            assert(!represented(km, s[k as int].doc_id));
                            let w = choose|w: int|
                                0 <= w < km.len() && km[w].doc_id == s[j].doc_id;
                            assert(km[w].doc_id == s[k as int].doc_id);
                        }
                    }
                }
                assert(keeps_max_per_doc(km2, s.take(k + 1)));
            }
        } else {
            proof {
                assert forall|j: int|
                    0 <= j < k + 1 implies represented(km, #[trigger] s[j].doc_id) by {
                    if j == k {
                        assert(represented(km, s[k as int].doc_id));
                    }
                }
                assert forall|i: int, j: int|
                    0 <= i < km.len() && 0 <= j < k + 1 && #[trigger] s.take(k + 1)[j].doc_id
                        == #[trigger] km[i].doc_id implies s.take(k + 1)[j].effective_score
                    <= km[i].effective_score by {
                    assert(s.take(k + 1)[j] == s[j]);
                    if j < k {
                        assert(s.take(k as int)[j] == s[j]);
                        assert(s.take(k as int)[j].doc_id == km[i].doc_id);
                    } else {
                        let jj = choose|jj: int| 0 <= jj < k && #[trigger] s[jj] == km[i];
                        assert(item_before(s[jj], s[k as int]));
                    }
                }
                assert(keeps_max_per_doc(km, s.take(k + 1)));
            }
        }
        k = k + 1;
    }
    proof {
        let km = item_models(kept@);
        assert(s.take(s.len() as int) =~= s);
        // Items not walked rank at or below the last kept item.
        assert forall|j: int|
            k <= j < s.len() && km.len() > 0 implies s[j].effective_score <= km[km.len()
            - 1].effective_score by {
            let i = km.len() - 1;
            let jj = choose|jj: int| 0 <= jj < k && #[trigger] s[jj] == km[i];
            assert(item_before(s[jj], s[j]));
        }
        // Transfer the source-relative clauses from the sorted sequence
        // to the input items: both hold the same multiset.
        assert forall|i: int| 0 <= i < km.len() implies ms.contains(#[trigger] km[i]) by {
            let j = choose|j: int| 0 <= j < k && #[trigger] s[j] == km[i];
            assert(s.contains(km[i]));
        }
        assert forall|i: int, j: int|
            0 <= i < km.len() && 0 <= j < ms.len() && #[trigger] ms[j].doc_id == #[trigger] km[
                i
            ].doc_id implies ms[j].effective_score <= km[i].effective_score by {
            assert(ms.contains(ms[j]));
            assert(s.contains(ms[j]));
            let jj = choose|jj: int| 0 <= jj < s.len() && s[jj] == ms[j];
            if jj < k {
                assert(s.take(k as int)[jj] == s[jj]);
                assert(s.take(k as int)[jj].doc_id == km[i].doc_id);
            } else {
                assert(s[jj].effective_score <= km[km.len() - 1].effective_score);
                assert(item_before(km[i], km[km.len() - 1]) || i == km.len() - 1);
            }
        }
        assert forall|j: int|
            0 <= j < ms.len() implies represented(km, #[trigger] ms[j].doc_id) || (km.len()
            == limit && (limit == 0 || ms[j].effective_score <= km[km.len()
            - 1].effective_score)) by {
            assert(ms.contains(ms[j]));
            assert(s.contains(ms[j]));
            let jj = choose|jj: int| 0 <= jj < s.len() && s[jj] == ms[j];
            if jj < k {
                assert(represented(km, s[jj].doc_id));
            } else {
                assert(k < s.len());
                assert(km.len() == limit);
                if limit > 0 {
                    assert(s[jj].effective_score <= km[km.len() - 1].effective_score);
                }
            }
        }
        if ms.len() == 0 {
            if km.len() > 0 {
                assert(ms.contains(km[0]));
            }
        }
        // With at least `limit` distinct documents on offer, the output
        // fills up: otherwise every offered document were represented,
        // and fewer than `limit` kept items cannot represent them all.
        if doc_id_set(ms).len() >= limit && km.len() < limit {
            assert forall|d: Seq<char>| doc_id_set(ms).contains(d) implies doc_id_set(
                km,
            ).contains(d) by {
                assert(doc_id_seq(ms).contains(d));
                let j = choose|j: int| 0 <= j < doc_id_seq(ms).len() && doc_id_seq(ms)[j] == d;
                assert(ms[j].doc_id == d);
                assert(represented(km, ms[j].doc_id));
                let i = choose|i: int| 0 <= i < km.len() && km[i].doc_id == d;
                assert(doc_id_seq(km)[i] == d);
                assert(doc_id_seq(km).contains(d));
            }
            vstd::seq_lib::seq_to_set_is_finite(doc_id_seq(km));
            vstd::set_lib::lemma_len_subset(doc_id_set(ms), doc_id_set(km));
            doc_id_seq(km).lemma_cardinality_of_set();
        }
    }
    MergedResultSet { items: kept }
}

/// The models of a list of per-module item lists.
pub open spec fn lists_models(ls: Seq<Vec<ResultItem>>) -> Seq<Seq<ItemModel>> {
    ls.map(|i: int, v: Vec<ResultItem>| item_models(v@))
}

/// The concatenation of per-module item lists, in list order.
pub open spec fn concat_models(ls: Seq<Seq<ItemModel>>) -> Seq<ItemModel>
    decreases ls.len(),
{
    if ls.len() == 0 {
        Seq::empty()
    } else {
        concat_models(ls.drop_last()) + ls.last()
    }
}

/// Concatenation splits over a split of the lists.
pub proof fn lemma_concat_distributes(a: Seq<Seq<ItemModel>>, b: Seq<Seq<ItemModel>>)
    ensures
        concat_models(a + b) == concat_models(a) + concat_models(b),
    decreases b.len(),
{
    if b.len() == 0 {
        assert(a + b =~= a);
        assert(concat_models(a) + concat_models(b) =~= concat_models(a));
    } else {
        lemma_concat_distributes(a, b.drop_last());
        assert((a + b).drop_last() =~= a + b.drop_last());
        assert((a + b).len() > 0);
        assert((a + b).last() == b.last());
        assert((concat_models(a) + concat_models(b.drop_last())) + b.last() =~= concat_models(a)
            + (concat_models(b.drop_last()) + b.last()));
    }
}

/// A module that contributes an empty list — because its query failed
/// to parse or its engine erred — leaves the concatenated items, and so
/// the merged answer, exactly as if the module had not taken part:
/// sibling modules still contribute everything of theirs.
pub proof fn lemma_failed_module_drops_out(ls: Seq<Seq<ItemModel>>, i: int)
    requires
        0 <= i < ls.len(),
        ls[i].len() == 0,
    ensures
        concat_models(ls.remove(i)) == concat_models(ls),
{
    let a = ls.take(i);
    let mid: Seq<Seq<ItemModel>> = seq![ls[i]];
    let b = ls.skip(i + 1);
    assert(ls =~= a + mid + b);
    assert(ls.remove(i) =~= a + b);
    lemma_concat_distributes(a + mid, b);
    lemma_concat_distributes(a, mid);
    lemma_concat_distributes(a, b);
    assert(mid.drop_last() =~= Seq::<Seq<ItemModel>>::empty());
    assert(concat_models(mid.drop_last()) =~= Seq::<ItemModel>::empty());
    assert(concat_models(mid) =~= ls[i]);
    assert(concat_models(a) + ls[i] =~= concat_models(a));
    assert(concat_models(a + mid + b) == concat_models(a) + ls[i] + concat_models(b));
}

/// The per-module lists flattened into one list, in module order.
pub fn concat_lists(lists: &Vec<Vec<ResultItem>>) -> (flat: Vec<ResultItem>)
    ensures
        item_models(flat@) == concat_models(lists_models(lists@)),
{
    let ghost lm = lists_models(lists@);
    let mut flat: Vec<ResultItem> = Vec::new();
    let mut i: usize = 0;
    proof {
        assert(item_models(flat@) =~= concat_models(lm.take(0)));
    }
    while i < lists.len()
        invariant
            0 <= i <= lists@.len(),
            lm == lists_models(lists@),
            lm.len() == lists@.len(),
            item_models(flat@) == concat_models(lm.take(i as int)),
        decreases lists@.len() - i,
    {
        assert(lm[i as int] == item_models(lists@[i as int]@));
        let ghost inner = item_models(lists@[i as int]@);
        let ghost before_outer = item_models(flat@);
        let mut j: usize = 0;
        proof {
            assert(before_outer + inner.take(0) =~= before_outer);
        }
        while j < lists[i].len()
            invariant
                0 <= i < lists@.len(),
                0 <= j <= lists@[i as int]@.len(),
                inner == item_models(lists@[i as int]@),
                inner.len() == lists@[i as int]@.len(),
                item_models(flat@) == before_outer + inner.take(j as int),
            decreases lists@[i as int]@.len() - j,
        {
            assert(inner[j as int] == lists@[i as int]@[j as int]@);
            let ghost flat_before = flat@;
            let copy = copy_item(&lists[i][j]);
            flat.push(copy);
            proof {
                lemma_models_push(flat_before, copy);
                assert(inner.take(j + 1) =~= inner.take(j as int).push(inner[j as int]));
                assert(item_models(flat@) =~= before_outer + inner.take(j + 1));
            }
            j = j + 1;
        }
        proof {
            assert(inner.take(inner.len() as int) =~= inner);
            assert(lm.take(i + 1).drop_last() =~= lm.take(i as int));
            assert(lm.take(i + 1).last() == lm[i as int]);
        }
        i = i + 1;
    }
    proof {
        assert(lm.take(lm.len() as int) =~= lm);
    }
    flat
}

/// Merges per-module ranked lists into one ranked, deduplicated,
/// limit-bounded answer: the per-module lists are concatenated and
/// handed to [`merge`], so every clause of its contract holds here over
/// the concatenation.
pub fn merge_lists(lists: &Vec<Vec<ResultItem>>, limit: usize) -> (out: MergedResultSet)
    ensures
        out@.len() <= limit,
        sorted_items(out@),
        distinct_doc_ids(out@),
        drawn_from(out@, concat_models(lists_models(lists@))),
        keeps_max_per_doc(out@, concat_models(lists_models(lists@))),
        covers_or_bounded(out@, concat_models(lists_models(lists@)), limit as int),
        concat_models(lists_models(lists@)).len() == 0 ==> out@.len() == 0,
        doc_id_set(concat_models(lists_models(lists@))).len() >= limit ==> out@.len() == limit,
{
    let flat = concat_lists(lists);
    merge(flat, limit)
}

} // verus!
