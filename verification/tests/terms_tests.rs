use multi_search::terms::{contains_sub, extract_medical_terms, medical_keywords};

#[test]
fn substring_search() {
    assert!(contains_sub("severe bleeding control", "bleeding"));
    assert!(contains_sub("severe bleeding control", "severe"));
    assert!(contains_sub("severe bleeding control", "control"));
    assert!(!contains_sub("severe bleeding control", "tourniquet"));
    assert!(contains_sub("anything", ""));
    assert!(!contains_sub("", "a"));
    assert!(!contains_sub("ab", "abc"));
}

#[test]
fn keyword_list_is_fixed() {
    let ks = medical_keywords();
    assert_eq!(ks.len(), 15);
    assert_eq!(ks[0], "hemorrhage");
    assert_eq!(ks[14], "antiseptic");
}

#[test]
fn extraction_is_case_insensitive() {
    // The text carries the keywords in mixed case: the scan still finds
    // them, which fails if the case folding were skipped.
    let terms =
        extract_medical_terms("Severe Hemorrhage Control", "Apply a TOURNIQUET above the wound");
    assert_eq!(terms, "hemorrhage tourniquet");
}

#[test]
fn extraction_keeps_keyword_list_order() {
    let terms = extract_medical_terms("Fracture splinting", "a tourniquet is not for a fracture");
    assert_eq!(terms, "tourniquet fracture");
}

#[test]
fn extraction_spans_title_and_content() {
    assert_eq!(extract_medical_terms("anaphylaxis", "use epinephrine"), "anaphylaxis epinephrine");
    assert_eq!(extract_medical_terms("water purification", "boil for one minute"), "");
}
