use sf_pkgen::tui::fuzzy::fuzzy_filter;

fn items() -> Vec<String> {
    vec![
        "ApexClass".to_string(),
        "ApexTrigger".to_string(),
        "CustomObject".to_string(),
        "ApexComponent".to_string(),
        "LightningComponentBundle".to_string(),
    ]
}

#[test]
fn empty_query_returns_all() {
    let results = fuzzy_filter("", &items());
    assert_eq!(results.len(), 5);
    let indices: Vec<usize> = results.iter().map(|r| r.0).collect();
    assert_eq!(indices, vec![0, 1, 2, 3, 4]);
}

#[test]
fn matching_query_returns_subset() {
    let all = items();
    let results = fuzzy_filter("Apex", &all);
    assert!(!results.is_empty());
    for (idx, _) in &results {
        assert!(all[*idx].contains("Apex") || all[*idx].to_lowercase().contains("apex"));
    }
}

#[test]
fn non_matching_query_returns_empty() {
    let results = fuzzy_filter("zzzzzzz", &items());
    assert!(results.is_empty());
}

#[test]
fn results_sorted_by_score_descending() {
    let results = fuzzy_filter("comp", &items());
    if results.len() > 1 {
        for window in results.windows(2) {
            assert!(window[0].1 >= window[1].1);
        }
    }
}

#[test]
fn fuzzy_matching_works() {
    let all = items();
    let results = fuzzy_filter("lcb", &all);
    let matched_names: Vec<&str> = results.iter().map(|(i, _)| all[*i].as_str()).collect();
    assert!(
        matched_names.contains(&"LightningComponentBundle"),
        "Expected LightningComponentBundle in fuzzy results for 'lcb', got: {matched_names:?}"
    );
}

#[test]
fn empty_items_returns_empty() {
    let results = fuzzy_filter("test", &[]);
    assert!(results.is_empty());
}

#[test]
fn empty_query_scores_zero() {
    let results = fuzzy_filter("", &items());
    assert!(results.iter().all(|r| r.1 == 0));
}

#[test]
fn equal_scores_keep_item_order() {
    let same = vec!["Apex".to_string(), "Apex".to_string(), "Apex".to_string()];
    let results = fuzzy_filter("Apex", &same);
    let indices: Vec<usize> = results.iter().map(|r| r.0).collect();
    assert_eq!(indices, vec![0, 1, 2]);
}

#[test]
fn each_item_appears_at_most_once() {
    let results = fuzzy_filter("a", &items());
    let mut indices: Vec<usize> = results.iter().map(|r| r.0).collect();
    indices.sort();
    indices.dedup();
    assert_eq!(indices.len(), results.len());
}
