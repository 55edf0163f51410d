//! Search requests and the weighted fan-out plan.
//!
//! `plan_search` validates a request and turns a registry into the list
//! of per-module query tasks for one search call.  The caller executes
//! each task against its module's index engine — in parallel if it
//! wishes — and hands each outcome to `module_contribution`, which
//! weights the raw hits and isolates per-module failures: a module whose
//! query does not parse, or whose engine errs, contributes zero results
//! and never fails the overall call.

use vstd::prelude::*;

use crate::errors::SearchError;
use crate::item::{
    effective_score, item_models, spec_effective_score, HitModel, ItemModel, RawHit, ResultItem,
};
use crate::merge::{
    concat_models, covers_or_bounded, distinct_doc_ids, doc_id_set, drawn_from,
    keeps_max_per_doc, lists_models, merge_lists, sorted_items, MergedResultSet,
};
use crate::order::str_eq;
use crate::registry::{
    filter_model, owned_filter_model, snapshot_spec, EntryModel, ModuleRegistry,
};
use crate::{DEFAULT_LIMIT, WEIGHT_SCALE};

verus! {

/// A per-module weight chosen by the caller, in thousandths.
pub struct ModuleWeight {
    pub name: String,
    pub weight: u64,
}

/// The mathematical value of a [`ModuleWeight`].
pub ghost struct WeightModel {
    pub name: Seq<char>,
    pub weight: u64,
}

impl View for ModuleWeight {
    type V = WeightModel;

    open spec fn view(&self) -> WeightModel {
        WeightModel { name: self.name@, weight: self.weight }
    }
}

/// The models of a weight list.
pub open spec fn weight_models(s: Seq<ModuleWeight>) -> Seq<WeightModel> {
    s.map(|i: int, w: ModuleWeight| w@)
}

/// The weight a mapping assigns to a module: the first entry carrying
/// the module's name, or [`WEIGHT_SCALE`] — a multiplier of one — when
/// the name is unmapped.
pub open spec fn spec_weight_of(ws: Seq<WeightModel>, name: Seq<char>) -> u64
    decreases ws.len(),
{
    if ws.len() == 0 {
        WEIGHT_SCALE
    } else if ws[0].name == name {
        ws[0].weight
    } else {
        spec_weight_of(ws.skip(1), name)
    }
}

/// One search call: its query text, result limit, per-module weights and
/// optional module-name filter.
pub struct SearchRequest {
    pub query: String,
    pub limit: usize,
    pub weights: Vec<ModuleWeight>,
    pub module_filter: Option<Vec<String>>,
}

impl SearchRequest {
    /// A request for this query text with every other choice left at its
    /// default: a limit of [`DEFAULT_LIMIT`], no weights and no filter.
    pub fn new(query: String) -> (r: SearchRequest)
        ensures
            r.query@ == query@,
            r.limit == DEFAULT_LIMIT,
            r.weights@.len() == 0,
            r.module_filter is None,
    {
        SearchRequest { query, limit: DEFAULT_LIMIT, weights: Vec::new(), module_filter: None }
    }
}

/// The weight the request's mapping assigns to a module name.
pub fn weight_of(weights: &Vec<ModuleWeight>, name: &str) -> (w: u64)
    ensures
        w == spec_weight_of(weight_models(weights@), name@),
{
    let ghost ws = weight_models(weights@);
    let mut i: usize = 0;
    proof {
        assert(ws.skip(0) =~= ws);
    }
    while i < weights.len()
        invariant
            0 <= i <= weights@.len(),
            ws == weight_models(weights@),
            ws.len() == weights@.len(),
            spec_weight_of(ws, name@) == spec_weight_of(ws.skip(i as int), name@),
        decreases weights@.len() - i,
    {
        assert(ws[i as int] == weights@[i as int]@);
        assert(ws.skip(i as int).len() > 0);
        assert(ws.skip(i as int)[0] == ws[i as int]);
        if str_eq(weights[i].name.as_str(), name) {
            return weights[i].weight;
        }
        proof {
            assert(ws.skip(i as int).skip(1) =~= ws.skip(i + 1));
        }
        i = i + 1;
    }
    proof {
        assert(ws.skip(ws.len() as int).len() == 0);
    }
    WEIGHT_SCALE
}

/// One per-module query task of a search plan: the module's name and
/// engine handle, and the effective weight the request assigns to it.
#[derive(Debug)]
pub struct ModuleTask {
    pub name: String,
    pub handle: u64,
    pub weight: u64,
}

/// The mathematical value of a [`ModuleTask`].
pub ghost struct TaskModel {
    pub name: Seq<char>,
    pub handle: u64,
    pub weight: u64,
}

impl View for ModuleTask {
    type V = TaskModel;

    open spec fn view(&self) -> TaskModel {
        TaskModel { name: self.name@, handle: self.handle, weight: self.weight }
    }
}

/// The models of a task list.
pub open spec fn task_models(s: Seq<ModuleTask>) -> Seq<TaskModel> {
    s.map(|i: int, t: ModuleTask| t@)
}

/// The task a snapshot entry gives rise to under a weight mapping.
pub open spec fn spec_task_of(e: EntryModel, ws: Seq<WeightModel>) -> TaskModel {
    TaskModel { name: e.name, handle: e.handle, weight: spec_weight_of(ws, e.name) }
}

/// The plan of a valid request: one task per snapshot entry, in
/// snapshot order.
pub open spec fn spec_plan(snap: Seq<EntryModel>, ws: Seq<WeightModel>) -> Seq<TaskModel> {
    snap.map(|i: int, e: EntryModel| spec_task_of(e, ws))
}

/// Validates a request and plans its fan-out.
///
/// An empty query text is rejected with `InvalidQuery` and a zero limit
/// with `InvalidLimit`, before any module work starts.  A valid request
/// always yields a plan: one task per registered module selected by the
/// request's filter, in registration order, each carrying the weight
/// the request assigns to its module.  An empty registry — or a filter
/// selecting no module — yields an empty plan, not an error.
pub fn plan_search(reg: &ModuleRegistry, req: &SearchRequest) -> (r: Result<
    Vec<ModuleTask>,
    SearchError,
>)
    ensures
        match r {
            Result::Ok(tasks) => {
                &&& req.query@.len() > 0
                &&& req.limit > 0
                &&& task_models(tasks@) == spec_plan(
                    snapshot_spec(reg@, owned_filter_model(req.module_filter)),
                    weight_models(req.weights@),
                )
                &&& reg@.len() == 0 ==> tasks@.len() == 0
            },
            Result::Err(e) => {
                &&& (e == SearchError::InvalidQuery || e == SearchError::InvalidLimit)
                &&& (e == SearchError::InvalidQuery <==> req.query@.len() == 0)
                &&& (e == SearchError::InvalidLimit <==> (req.query@.len() > 0 && req.limit
                    == 0))
            },
        },
{
    if req.query.as_str().unicode_len() == 0 {
        return Err(SearchError::InvalidQuery);
    }
    if req.limit == 0 {
        return Err(SearchError::InvalidLimit);
    }
    let filter_ref = req.module_filter.as_ref();
    proof {
        assert(filter_model(filter_ref) == owned_filter_model(req.module_filter));
    }
    let snap = reg.snapshot(filter_ref);
    let ghost snap_models = snapshot_spec(reg@, owned_filter_model(req.module_filter));
    let ghost ws = weight_models(req.weights@);
    let mut tasks: Vec<ModuleTask> = Vec::new();
    let mut i: usize = 0;
    while i < snap.len()
        invariant
            0 <= i <= snap@.len(),
            snap_models == crate::registry::entry_models(snap@),
            ws == weight_models(req.weights@),
            snap_models.len() == snap@.len(),
            tasks@.len() == i,
            forall|j: int|
                0 <= j < i ==> #[trigger] tasks@[j]@ == spec_task_of(snap_models[j], ws),
        decreases snap@.len() - i,
    {
        assert(snap_models[i as int] == snap@[i as int]@);
        let e = &snap[i];
        let w = weight_of(&req.weights, e.name.as_str());
        tasks.push(ModuleTask { name: e.name.clone(), handle: e.handle, weight: w });
        i = i + 1;
    }
    proof {
        assert(task_models(tasks@) =~= spec_plan(snap_models, ws));
    }
    Ok(tasks)
}

/// The item a raw hit of a task's module becomes: the hit's fields,
/// stamped with the module's name and the weighted effective score.
pub open spec fn spec_item_of(t: TaskModel, h: HitModel) -> ItemModel {
    ItemModel {
        doc_id: h.doc_id,
        title: h.title,
        summary: h.summary,
        module: t.name,
        raw_score: h.score,
        effective_score: spec_effective_score(h.score, t.weight),
    }
}

/// The items one module contributes to a search, given the outcome of
/// its engine query.
///
/// A failed outcome — a query that did not parse, or an engine error —
/// contributes zero items, so sibling modules' results survive it.  A
/// successful outcome contributes one item per raw hit, in engine order,
/// each scored with the task's weight.
pub fn module_contribution(task: &ModuleTask, outcome: Result<Vec<RawHit>, SearchError>) -> (items:
    Vec<ResultItem>)
    ensures
        match outcome {
            Result::Ok(hits) => {
                &&& items@.len() == hits@.len()
                &&& forall|i: int|
                    0 <= i < items@.len() ==> #[trigger] items@[i]@ == spec_item_of(
                        task@,
                        hits@[i]@,
                    )
            },
            Result::Err(_) => items@.len() == 0,
        },
{
    match outcome {
        Err(_) => Vec::new(),
        Ok(hits) => {
            let mut items: Vec<ResultItem> = Vec::new();
            let mut i: usize = 0;
            while i < hits.len()
                invariant
                    0 <= i <= hits@.len(),
                    items@.len() == i,
                    forall|j: int|
                        0 <= j < i ==> #[trigger] items@[j]@ == spec_item_of(task@, hits@[j]@),
                decreases hits@.len() - i,
            {
                let h = &hits[i];
                let e = effective_score(h.score, task.weight);
                items.push(ResultItem {
                    doc_id: h.doc_id.clone(),
                    title: h.title.clone(),
                    summary: h.summary.clone(),
                    module: task.name.clone(),
                    raw_score: h.score,
                    effective_score: e,
                });
                i = i + 1;
            }
            items
        },
    }
}

/// The items a task's outcome contributes: nothing for a failed module,
/// one weighted item per raw hit otherwise.
pub open spec fn spec_outcome_items(t: TaskModel, o: Result<Vec<RawHit>, SearchError>) -> Seq<
    ItemModel,
> {
    match o {
        Result::Ok(hits) => hits@.map(|i: int, h: RawHit| spec_item_of(t, h@)),
        Result::Err(_) => Seq::empty(),
    }
}

/// The per-module contributions of a whole fan-out: one item list per
/// task, in task order.
pub open spec fn spec_contributions(
    tasks: Seq<TaskModel>,
    outcomes: Seq<Result<Vec<RawHit>, SearchError>>,
) -> Seq<Seq<ItemModel>> {
    tasks.map(|i: int, t: TaskModel| spec_outcome_items(t, outcomes[i]))
}

/// Collects every module's contribution, in task order.  Each failed
/// outcome yields an empty list in its module's position, so the merge
/// that follows sees exactly the items of the modules that succeeded.
pub fn collect_contributions(
    tasks: &Vec<ModuleTask>,
    outcomes: Vec<Result<Vec<RawHit>, SearchError>>,
) -> (lists: Vec<Vec<ResultItem>>)
    requires
        outcomes@.len() == tasks@.len(),
    ensures
        lists_models(lists@) == spec_contributions(task_models(tasks@), outcomes@),
{
    let ghost tm = task_models(tasks@);
    let ghost all_outcomes = outcomes@;
    let mut rest = outcomes;
    let mut lists: Vec<Vec<ResultItem>> = Vec::new();
    let mut i: usize = 0;
    proof {
        assert(rest@ =~= all_outcomes.skip(0));
    }
    while i < tasks.len()
        invariant
            0 <= i <= tasks@.len(),
            tm == task_models(tasks@),
            tm.len() == tasks@.len(),
            all_outcomes.len() == tasks@.len(),
            rest@ =~= all_outcomes.skip(i as int),
            lists@.len() == i,
            forall|j: int|
                0 <= j < i ==> #[trigger] lists_models(lists@)[j] == spec_outcome_items(
                    tm[j],
                    all_outcomes[j],
                ),
        decreases tasks@.len() - i,
    {
        assert(tm[i as int] == tasks@[i as int]@);
        assert(rest@[0] == all_outcomes[i as int]);
        let outcome = rest.remove(0);
        let items = module_contribution(&tasks[i], outcome);
        proof {
            assert(item_models(items@) =~= spec_outcome_items(
                tm[i as int],
                all_outcomes[i as int],
            ));
        }
        let ghost lists_before = lists@;
        lists.push(items);
        proof {
            assert(lists_models(lists@) =~= lists_models(lists_before).push(item_models(items@)));
            assert(rest@ =~= all_outcomes.skip(i + 1));
        }
        i = i + 1;
    }
    proof {
        assert(lists_models(lists@) =~= spec_contributions(tm, all_outcomes));
    }
    lists
}

/// Turns the outcomes of a planned fan-out into the final answer: every
/// module's contribution is weighted and collected — failed modules
/// contributing nothing — and the whole is merged into one ranked,
/// deduplicated list of at most `limit` items.
pub fn assemble_results(
    tasks: &Vec<ModuleTask>,
    outcomes: Vec<Result<Vec<RawHit>, SearchError>>,
    limit: usize,
) -> (out: MergedResultSet)
    requires
        outcomes@.len() == tasks@.len(),
    ensures
        ({
            let src = concat_models(spec_contributions(task_models(tasks@), outcomes@));
            &&& out@.len() <= limit
            &&& sorted_items(out@)
            &&& distinct_doc_ids(out@)
            &&& drawn_from(out@, src)
            &&& keeps_max_per_doc(out@, src)
            &&& covers_or_bounded(out@, src, limit as int)
            &&& src.len() == 0 ==> out@.len() == 0
            &&& doc_id_set(src).len() >= limit ==> out@.len() == limit
        }),
{
    let lists = collect_contributions(tasks, outcomes);
    merge_lists(&lists, limit)
}

} // verus!
