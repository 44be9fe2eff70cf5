use observer_ward::result::{order_results, WhatWebResult, SORT_LIMIT};

fn res(url: &str, priority: u32) -> WhatWebResult {
    WhatWebResult {
        url: url.to_string(),
        name: vec![],
        priority,
        length: 0,
        title: String::new(),
        status_code: 200,
        is_web: true,
        plugins: vec![],
        plugins_result: None,
    }
}

fn urls(v: &[WhatWebResult]) -> Vec<&str> {
    v.iter().map(|r| r.url.as_str()).collect()
}

#[test]
fn order_results_sorts_by_descending_priority_stably() {
    let input = vec![res("a", 1), res("b", 5), res("c", 1), res("d", 3), res("e", 5)];
    let out = order_results(input);
    assert_eq!(urls(&out), vec!["b", "e", "d", "a", "c"]);
}

#[test]
fn order_results_leaves_ordered_input_alone() {
    let input = vec![res("a", 9), res("b", 4), res("c", 4), res("d", 0)];
    let out = order_results(input.clone());
    assert_eq!(out, input);
}

#[test]
fn order_results_empty() {
    assert_eq!(order_results(vec![]), vec![]);
}

#[test]
fn order_results_does_not_sort_large_batches() {
    let input: Vec<WhatWebResult> =
        (0..SORT_LIMIT).map(|i| res(&i.to_string(), (i % 7) as u32)).collect();
    let out = order_results(input.clone());
    assert_eq!(out, input);
}

#[test]
fn order_results_sorts_just_below_limit() {
    let input: Vec<WhatWebResult> =
        (0..SORT_LIMIT - 1).map(|i| res(&i.to_string(), (i % 3) as u32)).collect();
    let out = order_results(input);
    assert_eq!(out.len(), SORT_LIMIT - 1);
    assert!(out.windows(2).all(|w| w[0].priority >= w[1].priority));
    assert_eq!(out[0].url, "2");
    assert_eq!(out[1].url, "5");
}
