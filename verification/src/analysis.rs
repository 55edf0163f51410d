//! Safety analysis of a result list.
//!
//! A short judgement of the top result for a query: a handful of
//! known-dangerous query texts get dedicated checks — cold-water
//! immersion must surface hypothermia pages, infant resuscitation must
//! surface infant-specific pages, negated queries are flagged — and
//! every other query is judged by how many of its words the top title
//! carries.  Splitting into words and case folding are delegated to the
//! standard library; every decision over them is verified.

use vstd::prelude::*;

use crate::terms::{contains_seq, contains_sub, lower_of, lowercase};

verus! {

/// What `str::split_whitespace` returns for this character sequence.
pub uninterp spec fn words_of(s: Seq<char>) -> Seq<Seq<char>>;

/// Relies on str::split_whitespace: the result depends on the
/// characters alone.
#[verifier::external_body]
fn split_words(s: &str) -> (r: Vec<String>)
    ensures
        r@.map(|i: int, w: String| w@) == words_of(s@),
{
    s.split_whitespace().map(|w| w.to_string()).collect()
}

/// The models of a list of titles.
pub open spec fn string_models(s: Seq<String>) -> Seq<Seq<char>> {
    s.map(|i: int, x: String| x@)
}

/// How many of the words occur, lowercased, in the lowered top title.
pub open spec fn spec_matching_words(words: Seq<Seq<char>>, top: Seq<char>) -> int
    decreases words.len(),
{
    if words.len() == 0 {
        0
    } else {
        spec_matching_words(words.drop_last(), top) + (if contains_seq(
            top,
            lower_of(words.last()),
        ) {
            1int
        } else {
            0int
        })
    }
}

/// The word-overlap judgement: the majority message when more than half
/// of the query's words occur in the lowered top title, the fallback
/// message otherwise.
pub open spec fn spec_general_analysis(query: Seq<char>, top: Seq<char>) -> Seq<char> {
    if 2 * spec_matching_words(words_of(query), top) > words_of(query).len() {
        "Good - top results contain majority of query terms"@
    } else {
        "Results seem relevant based on scoring"@
    }
}

/// The analysis of a query's result titles.  `has_concern` says whether
/// the caller flagged the query as a known safety concern, which enables
/// the dedicated checks for the three hard query texts.
pub open spec fn spec_analysis(query: Seq<char>, has_concern: bool, titles: Seq<Seq<char>>) -> Seq<
    char,
> {
    if titles.len() == 0 {
        "WARNING: No results found. Users might not find critical information."@
    } else {
        let top = lower_of(titles[0]);
        if has_concern && query == "cold water immersion"@ {
            if contains_seq(top, "hypotherm"@) || contains_seq(top, "cold shock"@) {
                "Good - top results focus on cold water dangers/hypothermia"@
            } else if contains_seq(top, "therapy"@) || contains_seq(top, "treatment"@) {
                "CONCERN: Top result might be about cold therapy, not emergency treatment"@
            } else {
                spec_general_analysis(query, top)
            }
        } else if has_concern && query == "infant cpr dose"@ {
            if contains_seq(top, "infant"@) || contains_seq(top, "pediatric"@) || contains_seq(
                top,
                "baby"@,
            ) {
                "Good - results are infant-specific"@
            } else {
                "CONCERN: Top results may not be infant-specific"@
            }
        } else if has_concern && query == "do not apply heat"@ {
            "CONCERN: Boolean search may not understand negation properly"@
        } else {
            spec_general_analysis(query, top)
        }
    }
}

/// The word-overlap judgement of a query against the lowered top title.
fn general_analysis(query: &str, top: &str) -> (r: String)
    ensures
        r@ == spec_general_analysis(query@, top@),
{
    let words = split_words(query);
    let ghost wm = words_of(query@);
    let mut matching: usize = 0;
    let mut i: usize = 0;
    proof {
        assert(wm.take(0) =~= Seq::<Seq<char>>::empty());
    }
    while i < words.len()
        invariant
            words@.map(|j: int, w: String| w@) == wm,
            wm.len() == words@.len(),
            0 <= i <= wm.len(),
            matching == spec_matching_words(wm.take(i as int), top@),
            matching <= i,
        decreases wm.len() - i,
    {
        assert(wm[i as int] == words@[i as int]@);
        proof {
            assert(wm.take(i + 1).drop_last() =~= wm.take(i as int));
            assert(wm.take(i + 1).last() == wm[i as int]);
        }
        let lowered_word = lowercase(words[i].as_str());
        if contains_sub(top, lowered_word.as_str()) {
            matching = matching + 1;
        }
        i = i + 1;
    }
    proof {
        assert(wm.take(wm.len() as int) =~= wm);
    }
    // `matching > len - matching` says that more than half of the words
    // matched, without the doubling that could overflow.
    if matching > words.len() - matching {
        String::from_str("Good - top results contain majority of query terms")
    } else {
        String::from_str("Results seem relevant based on scoring")
    }
}

/// Judges the results of one query: its text, whether it was flagged as
/// a safety concern, and the result titles in rank order.
pub fn analyze_results(query: &str, has_concern: bool, titles: &Vec<String>) -> (r: String)
    ensures
        r@ == spec_analysis(query@, has_concern, string_models(titles@)),
{
    if titles.len() == 0 {
        return String::from_str(
            "WARNING: No results found. Users might not find critical information.",
        );
    }
    assert(string_models(titles@)[0] == titles@[0]@);
    let top = lowercase(titles[0].as_str());
    if has_concern && crate::order::str_eq(query, "cold water immersion") {
        if contains_sub(top.as_str(), "hypotherm") || contains_sub(top.as_str(), "cold shock") {
            return String::from_str("Good - top results focus on cold water dangers/hypothermia");
        }
        if contains_sub(top.as_str(), "therapy") || contains_sub(top.as_str(), "treatment") {
            return String::from_str(
                "CONCERN: Top result might be about cold therapy, not emergency treatment",
            );
        }
        return general_analysis(query, top.as_str());
    }
    if has_concern && crate::order::str_eq(query, "infant cpr dose") {
        if contains_sub(top.as_str(), "infant") || contains_sub(top.as_str(), "pediatric")
            || contains_sub(top.as_str(), "baby") {
            return String::from_str("Good - results are infant-specific");
        }
        return String::from_str("CONCERN: Top results may not be infant-specific");
    }
    if has_concern && crate::order::str_eq(query, "do not apply heat") {
        return String::from_str("CONCERN: Boolean search may not understand negation properly");
    }
    general_analysis(query, top.as_str())
}

} // verus!
