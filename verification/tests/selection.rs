use hunkfmt::batcher::batch;
use hunkfmt::hunks::Hunk;
use hunkfmt::selector::selector_json;

fn hunk(file: &str, line: usize, count: usize) -> Hunk {
    Hunk { file: String::from(file), line, count }
}

#[test]
fn selector_for_one_hunk() {
    let groups = batch(&vec![hunk("x.rs", 10, 3)]);
    let selector = selector_json(&groups[0]);
    assert_eq!(selector, "[{\"file\":\"x.rs\",\"range\":[10,13]}]");
}

#[test]
fn selector_for_two_hunks() {
    let groups = batch(&vec![hunk("a.rs", 1, 4), hunk("a.rs", 20, 2)]);
    let selector = selector_json(&groups[0]);
    assert_eq!(
        selector,
        "[{\"file\":\"a.rs\",\"range\":[1,5]},{\"file\":\"a.rs\",\"range\":[20,22]}]"
    );
}

#[test]
fn selector_escapes_the_file_name() {
    let groups = batch(&vec![hunk("a\"b.rs", 1, 0)]);
    let selector = selector_json(&groups[0]);
    assert_eq!(selector, "[{\"file\":\"a\\\"b.rs\",\"range\":[1,1]}]");
}

#[test]
fn selector_renders_large_line_numbers() {
    let groups = batch(&vec![hunk("big.rs", usize::MAX, 0)]);
    let selector = selector_json(&groups[0]);
    let expected = format!("[{{\"file\":\"big.rs\",\"range\":[{},{}]}}]", usize::MAX, usize::MAX);
    assert_eq!(selector, expected);
}

#[test]
fn selector_renders_zero() {
    let groups = batch(&vec![hunk("zero.rs", 0, 0)]);
    let selector = selector_json(&groups[0]);
    assert_eq!(selector, "[{\"file\":\"zero.rs\",\"range\":[0,0]}]");
}
