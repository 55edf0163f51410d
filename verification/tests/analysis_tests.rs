use multi_search::analysis::analyze_results;

fn titles(ts: &[&str]) -> Vec<String> {
    ts.iter().map(|t| t.to_string()).collect()
}

#[test]
fn no_results_is_a_warning() {
    let msg = analyze_results("hemorrhage", false, &Vec::new());
    assert_eq!(msg, "WARNING: No results found. Users might not find critical information.");
}

#[test]
fn cold_water_immersion_wants_hypothermia_pages() {
    let good = analyze_results(
        "cold water immersion",
        true,
        &titles(&["Hypothermia and Cold Shock Response"]),
    );
    assert_eq!(good, "Good - top results focus on cold water dangers/hypothermia");
    let bad = analyze_results("cold water immersion", true, &titles(&["Cold Therapy Benefits"]));
    assert_eq!(bad, "CONCERN: Top result might be about cold therapy, not emergency treatment");
}

#[test]
fn infant_cpr_wants_infant_specific_pages() {
    let good = analyze_results("infant cpr dose", true, &titles(&["Infant CPR Step by Step"]));
    assert_eq!(good, "Good - results are infant-specific");
    let bad = analyze_results("infant cpr dose", true, &titles(&["Adult CPR Overview"]));
    assert_eq!(bad, "CONCERN: Top results may not be infant-specific");
}

#[test]
fn negated_queries_are_flagged() {
    let msg = analyze_results("do not apply heat", true, &titles(&["Burn Treatment"]));
    assert_eq!(msg, "CONCERN: Boolean search may not understand negation properly");
}

#[test]
fn word_overlap_judges_ordinary_queries() {
    let good = analyze_results(
        "how to stop bleeding",
        false,
        &titles(&["How to Stop Bleeding Fast"]),
    );
    assert_eq!(good, "Good - top results contain majority of query terms");
    let neutral = analyze_results("treat snake bite", false, &titles(&["First Aid Overview"]));
    assert_eq!(neutral, "Results seem relevant based on scoring");
}

#[test]
fn word_overlap_ignores_letter_case() {
    // Both the query words and the title are case folded before the
    // overlap count, so a shouted query still matches.
    let msg = analyze_results("BLEEDING Control", false, &titles(&["bleeding control basics"]));
    assert_eq!(msg, "Good - top results contain majority of query terms");
}

#[test]
fn unflagged_dangerous_text_gets_the_general_judgement() {
    // Without the concern flag the dedicated checks stay off.
    let msg = analyze_results("do not apply heat", false, &titles(&["Do Not Apply Heat to Burns"]));
    assert_eq!(msg, "Good - top results contain majority of query terms");
}
