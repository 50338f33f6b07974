use fuzzy_match::search::{comparison_form_of, rank};
use fuzzy_match::similarity::{Ratio, Score};
use fuzzy_match::{search, SearchOptions};

fn strings(v: &[&str]) -> Vec<String> {
    v.iter().map(|s| s.to_string()).collect()
}

fn options(limit: Option<u32>, threshold: Option<Ratio>) -> Option<SearchOptions> {
    Some(SearchOptions { limit, threshold, normalize: None, ignore_case: None })
}

#[test]
fn search_orders_by_score() {
    let r = search("apple".to_string(), strings(&["apple", "applle", "banana"]), None);
    let items: Vec<&str> = r.iter().map(|x| x.item.as_str()).collect();
    assert_eq!(items, vec!["apple", "applle", "banana"]);
    assert_eq!(r[0].score, Score { distance: 0, scale: 1 });
    assert_eq!(r[1].score, Score { distance: 1, scale: 6 });
    assert_eq!(r[0].index, 0);
    assert_eq!(r[1].index, 1);
    assert_eq!(r[2].index, 2);
}

#[test]
fn threshold_removes_low_scores() {
    let items = strings(&["apple", "applle", "banana"]);
    let r = search("apple".to_string(), items.clone(), options(None, Some(Ratio { num: 1, den: 2 })));
    let kept: Vec<&str> = r.iter().map(|x| x.item.as_str()).collect();
    assert_eq!(kept, vec!["apple", "applle"]);
    let r = search("apple".to_string(), items, options(Some(1), Some(Ratio { num: 9, den: 10 })));
    assert_eq!(r.len(), 1);
    assert_eq!(r[0].item, "apple");
}

#[test]
fn limit_keeps_the_best() {
    let items = strings(&["banana", "applle", "apple", "aple"]);
    let r = search("apple".to_string(), items, options(Some(2), None));
    let kept: Vec<&str> = r.iter().map(|x| x.item.as_str()).collect();
    assert_eq!(kept, vec!["apple", "applle"]);
    assert_eq!(r[0].index, 2);
    assert_eq!(r[1].index, 1);
}

#[test]
fn default_limit_is_ten() {
    let items: Vec<String> = (0..15).map(|i| format!("item{}", i)).collect();
    let r = search("item".to_string(), items, None);
    assert_eq!(r.len(), 10);
}

#[test]
fn equal_scores_keep_candidate_order() {
    let items = strings(&["zzz", "abd", "abc", "abe"]);
    let r = search("abx".to_string(), items, None);
    let idx: Vec<usize> = r.iter().map(|x| x.index).collect();
    assert_eq!(idx, vec![1, 2, 3, 0]);
}

#[test]
fn results_keep_original_text() {
    let items = strings(&["  CAFÉ ", "tea"]);
    let r = search("cafe".to_string(), items, None);
    assert_eq!(r[0].item, "  CAFÉ ");
    assert_eq!(r[0].score, Score { distance: 0, scale: 1 });
}

#[test]
fn case_only_comparison_lowercases() {
    let o = Some(SearchOptions { limit: None, threshold: None, normalize: Some(false), ignore_case: Some(true) });
    let r = search("APPLE".to_string(), strings(&["Apple", "café"]), o);
    assert_eq!(r[0].item, "Apple");
    assert_eq!(r[0].score, Score { distance: 0, scale: 1 });
    assert_eq!(comparison_form_of("ÀB  C", false, true), "àb  c");
    assert_eq!(comparison_form_of("ÀB  C", false, false), "ÀB  C");
    assert_eq!(comparison_form_of("ÀB  C", true, false), "AB C");
}

#[test]
fn exact_comparison_is_case_sensitive() {
    let o = Some(SearchOptions { limit: None, threshold: None, normalize: Some(false), ignore_case: Some(false) });
    let r = search("APPLE".to_string(), strings(&["apple", "APPLE"]), o);
    assert_eq!(r[0].index, 1);
    assert_eq!(r[1].score, Score { distance: 5, scale: 5 });
}

#[test]
fn empty_candidates_give_no_results() {
    assert!(search("x".to_string(), Vec::new(), None).is_empty());
}

#[test]
fn rank_on_given_forms() {
    let items = strings(&["A", "B", "C"]);
    let forms = strings(&["abd", "abc", "xyz"]);
    let r = rank("abc", &items, &forms, Ratio { num: 0, den: 1 }, None);
    let idx: Vec<usize> = r.iter().map(|x| x.index).collect();
    assert_eq!(idx, vec![1, 0, 2]);
    assert_eq!(r[0].item, "B");
}
