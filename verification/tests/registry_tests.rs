use multi_search::coordinator::{assemble_results, plan_search, weight_of, ModuleWeight, SearchRequest};
use multi_search::errors::SearchError;
use std::sync::{Arc, Mutex};
use multi_search::item::RawHit;
use multi_search::registry::ModuleRegistry;
use multi_search::stats::{stats_of, total_docs};
use multi_search::{DEFAULT_LIMIT, WEIGHT_SCALE};

#[test]
fn load_then_contains() {
    let mut reg = ModuleRegistry::new();
    assert_eq!(reg.module_count(), 0);
    assert!(reg.load("core".to_string(), 1, 120).is_ok());
    assert!(reg.contains_module("core"));
    assert!(!reg.contains_module("medical"));
    assert_eq!(reg.module_count(), 1);
}

#[test]
fn load_duplicate_name_is_rejected() {
    let mut reg = ModuleRegistry::new();
    assert!(reg.load("core".to_string(), 1, 120).is_ok());
    let err = reg.load("core".to_string(), 2, 50).unwrap_err();
    assert_eq!(err, SearchError::ModuleAlreadyLoaded);
    // The rejected load changed nothing.
    assert_eq!(reg.module_count(), 1);
    assert_eq!(reg.handle_of("core").unwrap(), 1);
}

#[test]
fn unload_returns_handle_and_removes() {
    let mut reg = ModuleRegistry::new();
    reg.load("core".to_string(), 11, 120).unwrap();
    reg.load("medical".to_string(), 22, 300).unwrap();
    assert_eq!(reg.unload("core").unwrap(), 11);
    assert!(!reg.contains_module("core"));
    assert!(reg.contains_module("medical"));
    assert_eq!(reg.unload("core").unwrap_err(), SearchError::ModuleNotFound);
}

#[test]
fn handle_of_missing_module_fails() {
    let reg = ModuleRegistry::new();
    assert_eq!(reg.handle_of("core").unwrap_err(), SearchError::ModuleNotFound);
}

#[test]
fn set_doc_count_updates_only_that_module() {
    let mut reg = ModuleRegistry::new();
    reg.load("core".to_string(), 1, 120).unwrap();
    reg.load("medical".to_string(), 2, 300).unwrap();
    assert!(reg.set_doc_count("core", 150).is_ok());
    let stats = reg.stats();
    assert_eq!(stats[0].doc_count, 150);
    assert_eq!(stats[1].doc_count, 300);
    assert_eq!(reg.set_doc_count("water", 1).unwrap_err(), SearchError::ModuleNotFound);
}

#[test]
fn snapshot_respects_filter_and_order() {
    let mut reg = ModuleRegistry::new();
    reg.load("core".to_string(), 1, 10).unwrap();
    reg.load("medical".to_string(), 2, 20).unwrap();
    reg.load("water".to_string(), 3, 30).unwrap();
    let all = reg.snapshot(None);
    let names: Vec<&str> = all.iter().map(|e| e.name.as_str()).collect();
    assert_eq!(names, vec!["core", "medical", "water"]);
    let filter = vec!["water".to_string(), "core".to_string(), "unknown".to_string()];
    let some = reg.snapshot(Some(&filter));
    let names: Vec<&str> = some.iter().map(|e| e.name.as_str()).collect();
    assert_eq!(names, vec!["core", "water"]);
}

#[test]
fn unload_prunes_later_snapshots_but_not_earlier_ones() {
    let mut reg = ModuleRegistry::new();
    reg.load("core".to_string(), 1, 10).unwrap();
    reg.load("medical".to_string(), 2, 20).unwrap();
    let before = reg.snapshot(None);
    reg.unload("medical").unwrap();
    // The snapshot taken before the unload still holds the module and
    // its handle; only snapshots taken afterwards lose it.
    assert_eq!(before.len(), 2);
    assert_eq!(before[1].name, "medical");
    assert_eq!(before[1].handle, 2);
    let after = reg.snapshot(None);
    assert_eq!(after.len(), 1);
    assert_eq!(after[0].name, "core");
}

#[test]
fn search_dispatched_before_unload_still_completes() {
    let mut reg = ModuleRegistry::new();
    reg.load("core".to_string(), 1, 10).unwrap();
    reg.load("medical".to_string(), 2, 20).unwrap();
    let req = SearchRequest::new("bleeding".to_string());
    let tasks = plan_search(&reg, &req).unwrap();
    // The module is unloaded while the fan-out is in flight.
    reg.unload("medical").unwrap();
    let outcomes: Vec<Result<Vec<RawHit>, SearchError>> = vec![
        Ok(vec![]),
        Ok(vec![RawHit {
            doc_id: "shock-101".to_string(),
            title: "Treating Shock".to_string(),
            summary: "Recognizing and treating shock".to_string(),
            score: 400,
        }]),
    ];
    let out = assemble_results(&tasks, outcomes, req.limit);
    assert_eq!(out.items.len(), 1);
    assert_eq!(out.items[0].module, "medical");
}

#[test]
fn empty_registry_search_is_empty_success() {
    let reg = ModuleRegistry::new();
    let req = SearchRequest::new("bleeding".to_string());
    let tasks = plan_search(&reg, &req).expect("an empty registry is not an error");
    assert!(tasks.is_empty());
    let out = assemble_results(&tasks, Vec::new(), req.limit);
    assert!(out.items.is_empty());
}

#[test]
fn request_defaults() {
    let req = SearchRequest::new("burn".to_string());
    assert_eq!(req.limit, DEFAULT_LIMIT);
    assert_eq!(DEFAULT_LIMIT, 20);
    assert!(req.weights.is_empty());
    assert!(req.module_filter.is_none());
}

#[test]
fn empty_query_is_rejected_before_any_module_work() {
    let mut reg = ModuleRegistry::new();
    reg.load("core".to_string(), 1, 10).unwrap();
    let req = SearchRequest::new(String::new());
    assert_eq!(plan_search(&reg, &req).unwrap_err(), SearchError::InvalidQuery);
}

#[test]
fn zero_limit_is_rejected() {
    let reg = ModuleRegistry::new();
    let mut req = SearchRequest::new("bleeding".to_string());
    req.limit = 0;
    assert_eq!(plan_search(&reg, &req).unwrap_err(), SearchError::InvalidLimit);
}

#[test]
fn plan_carries_weights_and_filter() {
    let mut reg = ModuleRegistry::new();
    reg.load("core".to_string(), 1, 10).unwrap();
    reg.load("medical".to_string(), 2, 20).unwrap();
    reg.load("water".to_string(), 3, 30).unwrap();
    let mut req = SearchRequest::new("bleeding".to_string());
    req.weights = vec![ModuleWeight { name: "medical".to_string(), weight: 2000 }];
    req.module_filter = Some(vec!["medical".to_string(), "water".to_string()]);
    let tasks = plan_search(&reg, &req).unwrap();
    assert_eq!(tasks.len(), 2);
    assert_eq!(tasks[0].name, "medical");
    assert_eq!(tasks[0].handle, 2);
    assert_eq!(tasks[0].weight, 2000);
    assert_eq!(tasks[1].name, "water");
    assert_eq!(tasks[1].weight, WEIGHT_SCALE);
}

#[test]
fn weight_defaults_to_scale_for_unmapped_modules() {
    let weights = vec![
        ModuleWeight { name: "medical".to_string(), weight: 2000 },
        ModuleWeight { name: "medical".to_string(), weight: 3000 },
    ];
    // The first mapping for a name wins; unmapped names weigh one.
    assert_eq!(weight_of(&weights, "medical"), 2000);
    assert_eq!(weight_of(&weights, "core"), WEIGHT_SCALE);
}

#[test]
fn stats_report_counts_and_sizes() {
    let mut reg = ModuleRegistry::new();
    reg.load("core".to_string(), 1, 120).unwrap();
    reg.load("medical".to_string(), 2, 300).unwrap();
    let stats = reg.stats();
    assert_eq!(stats.len(), 2);
    assert_eq!(stats[0].name, "core");
    assert_eq!(stats[0].doc_count, 120);
    assert_eq!(stats[0].estimated_size_bytes, 120 * 1024);
    assert_eq!(stats[1].name, "medical");
    assert_eq!(reg.total_docs(), 420);
}

#[test]
fn total_docs_saturates_instead_of_overflowing() {
    let mut reg = ModuleRegistry::new();
    reg.load("a".to_string(), 1, u64::MAX).unwrap();
    reg.load("b".to_string(), 2, u64::MAX).unwrap();
    assert_eq!(reg.total_docs(), u64::MAX);
    let stats = reg.stats();
    assert_eq!(stats[0].estimated_size_bytes, u64::MAX);
}

#[test]
fn stats_of_snapshot_matches_registry() {
    let mut reg = ModuleRegistry::new();
    reg.load("core".to_string(), 1, 7).unwrap();
    let snap = reg.snapshot(None);
    let stats = stats_of(&snap);
    assert_eq!(stats.len(), 1);
    assert_eq!(stats[0].doc_count, 7);
    assert_eq!(total_docs(&snap), 7);
}

#[test]
fn stats_stay_consistent_beside_searches_and_a_load() {
    // Statistics are read while searches run and while a module is
    // loaded on another worker: every aggregate seen is one of the two
    // legitimate totals, never a torn or overflowed count.
    let reg = Arc::new(Mutex::new(ModuleRegistry::new()));
    reg.lock().unwrap().load("core".to_string(), 1, 100).unwrap();
    reg.lock().unwrap().load("medical".to_string(), 2, 250).unwrap();
    let reader = Arc::clone(&reg);
    let writer = Arc::clone(&reg);
    rayon::join(
        move || {
            for _ in 0..200 {
                let guard = reader.lock().unwrap();
                let total = guard.total_docs();
                assert!(total == 350 || total == 400);
                let req = SearchRequest::new("bleeding".to_string());
                let tasks = plan_search(&guard, &req).unwrap();
                drop(guard);
                let outcomes = tasks.iter().map(|_| Ok(Vec::new())).collect();
                let out = assemble_results(&tasks, outcomes, req.limit);
                assert!(out.items.is_empty());
            }
        },
        move || {
            writer.lock().unwrap().load("water".to_string(), 3, 50).unwrap();
        },
    );
    assert_eq!(reg.lock().unwrap().total_docs(), 400);
}

#[test]
fn error_codes_are_a_small_closed_set() {
    let cases = [
        (SearchError::InvalidQuery, 1),
        (SearchError::InvalidLimit, 2),
        (SearchError::ModuleNotFound, 3),
        (SearchError::ModuleAlreadyLoaded, 4),
        (SearchError::OpenFailed, 5),
        (SearchError::ReloadFailed, 6),
        (SearchError::QueryParseFailed, 7),
        (SearchError::EngineSearchFailed, 8),
    ];
    for (err, code) in cases {
        assert_eq!(err.status_code(), code);
        assert!(!err.message().is_empty());
    }
    assert_eq!(SearchError::ModuleNotFound.message(), "module not found");
    assert_eq!(SearchError::QueryParseFailed.message(), "failed to parse search query");
}
