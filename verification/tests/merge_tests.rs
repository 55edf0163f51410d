use multi_search::coordinator::{
    assemble_results, collect_contributions, module_contribution, ModuleTask,
};
use multi_search::errors::SearchError;
use multi_search::item::{effective_score, RawHit, ResultItem};
use multi_search::merge::{merge, merge_lists};
use multi_search::WEIGHT_SCALE;

fn item(doc_id: &str, module: &str, raw: u64, eff: u64) -> ResultItem {
    ResultItem {
        doc_id: doc_id.to_string(),
        title: format!("title {}", doc_id),
        summary: format!("summary {}", doc_id),
        module: module.to_string(),
        raw_score: raw,
        effective_score: eff,
    }
}

fn hit(doc_id: &str, score: u64) -> RawHit {
    RawHit {
        doc_id: doc_id.to_string(),
        title: format!("title {}", doc_id),
        summary: format!("summary {}", doc_id),
        score,
    }
}

fn task(name: &str, handle: u64, weight: u64) -> ModuleTask {
    ModuleTask { name: name.to_string(), handle, weight }
}

#[test]
fn effective_score_is_raw_times_weight() {
    // A weight of one thousand thousandths is a multiplier of one.
    assert_eq!(WEIGHT_SCALE, 1000);
    assert_eq!(effective_score(400, 1000), 400);
    assert_eq!(effective_score(300, 2000), 600);
    assert_eq!(effective_score(400, 500), 200);
    assert_eq!(effective_score(0, 2000), 0);
    assert_eq!(effective_score(1, 1), 0);
}

#[test]
fn effective_score_saturates() {
    assert_eq!(effective_score(u64::MAX, u64::MAX), u64::MAX);
    assert_eq!(effective_score(u64::MAX, 1000), u64::MAX);
}

#[test]
fn merge_sorts_by_effective_score_descending() {
    let items = vec![
        item("low", "core", 100, 100),
        item("high", "core", 900, 900),
        item("mid", "core", 500, 500),
    ];
    let out = merge(items, 10);
    let ids: Vec<&str> = out.items.iter().map(|i| i.doc_id.as_str()).collect();
    assert_eq!(ids, vec!["high", "mid", "low"]);
}

#[test]
fn merge_breaks_score_ties_by_doc_id_ascending() {
    let items = vec![
        item("zebra", "core", 500, 500),
        item("alpha", "core", 500, 500),
        item("mango", "core", 500, 500),
    ];
    let out = merge(items, 10);
    let ids: Vec<&str> = out.items.iter().map(|i| i.doc_id.as_str()).collect();
    assert_eq!(ids, vec!["alpha", "mango", "zebra"]);
}

#[test]
fn merge_deduplicates_keeping_highest_score() {
    let items = vec![
        item("doc-1", "core", 400, 400),
        item("doc-1", "medical", 300, 600),
        item("doc-2", "core", 100, 100),
    ];
    let out = merge(items, 10);
    assert_eq!(out.items.len(), 2);
    assert_eq!(out.items[0].doc_id, "doc-1");
    assert_eq!(out.items[0].effective_score, 600);
    assert_eq!(out.items[0].module, "medical");
    assert_eq!(out.items[1].doc_id, "doc-2");
}

#[test]
fn merge_respects_limit() {
    let items: Vec<ResultItem> =
        (0..20).map(|k| item(&format!("doc-{:02}", k), "core", k * 10, k * 10)).collect();
    let out = merge(items, 7);
    assert_eq!(out.items.len(), 7);
    // The seven highest effective scores survive.
    assert_eq!(out.items[0].effective_score, 190);
    assert_eq!(out.items[6].effective_score, 130);
}

#[test]
fn merge_with_limit_zero_is_empty() {
    let items = vec![item("doc-1", "core", 400, 400)];
    let out = merge(items, 0);
    assert!(out.items.is_empty());
}

#[test]
fn merge_of_nothing_is_empty() {
    let out = merge(Vec::new(), 10);
    assert!(out.items.is_empty());
}

#[test]
fn merge_lists_concatenates_all_modules() {
    let lists = vec![
        vec![item("a", "core", 300, 300)],
        vec![item("b", "medical", 200, 400), item("c", "medical", 100, 200)],
    ];
    let out = merge_lists(&lists, 10);
    let ids: Vec<&str> = out.items.iter().map(|i| i.doc_id.as_str()).collect();
    assert_eq!(ids, vec!["b", "a", "c"]);
}

#[test]
fn duplicate_across_modules_keeps_weighted_maximum() {
    // Modules "core" (weight 1.0) and "medical" (weight 2.0) both hold
    // document "shock-101", with raw scores 0.40 and 0.30: the effective
    // scores are 0.40 and 0.60, and the merged answer keeps exactly one
    // entry, the one from "medical" at 0.60.
    let tasks = vec![task("core", 1, 1000), task("medical", 2, 2000)];
    let outcomes: Vec<Result<Vec<RawHit>, SearchError>> =
        vec![Ok(vec![hit("shock-101", 400)]), Ok(vec![hit("shock-101", 300)])];
    let out = assemble_results(&tasks, outcomes, 20);
    assert_eq!(out.items.len(), 1);
    assert_eq!(out.items[0].doc_id, "shock-101");
    assert_eq!(out.items[0].effective_score, 600);
    assert_eq!(out.items[0].raw_score, 300);
    assert_eq!(out.items[0].module, "medical");
}

#[test]
fn three_modules_ten_hits_each_limit_five() {
    // Three modules of ten raw hits each, limit five: exactly the five
    // globally highest effective scores survive.
    let tasks = vec![task("m1", 1, 1000), task("m2", 2, 1000), task("m3", 3, 1000)];
    let mut outcomes: Vec<Result<Vec<RawHit>, SearchError>> = Vec::new();
    for m in 0..3u64 {
        let hits: Vec<RawHit> =
            (0..10u64).map(|k| hit(&format!("m{}-d{}", m + 1, k), m * 10 + k + 1)).collect();
        outcomes.push(Ok(hits));
    }
    let out = assemble_results(&tasks, outcomes, 5);
    assert_eq!(out.items.len(), 5);
    let scores: Vec<u64> = out.items.iter().map(|i| i.effective_score).collect();
    assert_eq!(scores, vec![30, 29, 28, 27, 26]);
    assert!(out.items.iter().all(|i| i.module == "m3"));
}

#[test]
fn failed_module_contributes_nothing_but_siblings_survive() {
    // Module "a" answers; module "b" fails to parse the query: the call
    // still returns everything of "a" and nothing of "b".
    let tasks = vec![task("a", 1, 1000), task("b", 2, 1000)];
    let outcomes: Vec<Result<Vec<RawHit>, SearchError>> = vec![
        Ok(vec![hit("bleeding-1", 700), hit("bleeding-2", 300)]),
        Err(SearchError::QueryParseFailed),
    ];
    let out = assemble_results(&tasks, outcomes, 20);
    assert_eq!(out.items.len(), 2);
    assert!(out.items.iter().all(|i| i.module == "a"));
    assert_eq!(out.items[0].doc_id, "bleeding-1");
    assert_eq!(out.items[1].doc_id, "bleeding-2");
}

#[test]
fn module_contribution_weights_each_hit() {
    let t = task("medical", 7, 1500);
    let items = module_contribution(&t, Ok(vec![hit("x", 200), hit("y", 400)]));
    assert_eq!(items.len(), 2);
    assert_eq!(items[0].effective_score, 300);
    assert_eq!(items[1].effective_score, 600);
    assert_eq!(items[0].module, "medical");
    assert_eq!(items[0].raw_score, 200);
}

#[test]
fn module_contribution_of_engine_error_is_empty() {
    let t = task("medical", 7, 1500);
    let items = module_contribution(&t, Err(SearchError::EngineSearchFailed));
    assert!(items.is_empty());
}

#[test]
fn collect_contributions_keeps_task_order() {
    let tasks = vec![task("a", 1, 1000), task("b", 2, 1000)];
    let outcomes: Vec<Result<Vec<RawHit>, SearchError>> =
        vec![Err(SearchError::QueryParseFailed), Ok(vec![hit("z", 100)])];
    let lists = collect_contributions(&tasks, outcomes);
    assert_eq!(lists.len(), 2);
    assert!(lists[0].is_empty());
    assert_eq!(lists[1].len(), 1);
    assert_eq!(lists[1][0].module, "b");
}
