use proj2tree::fence::calculate_fence_length;

#[test]
fn fence_plain_text_is_three() {
    assert_eq!(calculate_fence_length("hello"), 3);
}

#[test]
fn fence_empty_text_is_three() {
    assert_eq!(calculate_fence_length(""), 3);
}

#[test]
fn fence_four_backtick_run_is_five() {
    assert_eq!(calculate_fence_length("````"), 5);
}

#[test]
fn fence_three_backtick_marker_is_four() {
    assert_eq!(calculate_fence_length("```python"), 4);
}

#[test]
fn fence_template_literal_marker_is_four() {
    assert_eq!(calculate_fence_length("const s = `${x}`;"), 4);
}

#[test]
fn fence_short_run_keeps_minimum() {
    assert_eq!(calculate_fence_length("a``b"), 3);
}

#[test]
fn fence_long_run_inside_text() {
    assert_eq!(calculate_fence_length("x`````y"), 6);
}

#[test]
fn fence_trailing_run_counts() {
    assert_eq!(calculate_fence_length("abc`````"), 6);
}
