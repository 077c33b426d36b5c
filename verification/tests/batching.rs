use hunkfmt::batcher::batch;
use hunkfmt::hunks::Hunk;

fn hunk(file: &str, line: usize, count: usize) -> Hunk {
    Hunk { file: String::from(file), line, count }
}

#[test]
fn empty_input_yields_no_groups() {
    let groups = batch(&Vec::new());
    assert_eq!(groups.len(), 0);
}

#[test]
fn single_hunk_yields_one_descriptor() {
    let groups = batch(&vec![hunk("x.rs", 10, 3)]);
    assert_eq!(groups.len(), 1);
    assert_eq!(groups[0].file, "x.rs");
    assert_eq!(groups[0].descriptors.len(), 1);
    assert_eq!(groups[0].descriptors[0].file, "x.rs");
    assert_eq!(groups[0].descriptors[0].start, 10);
    assert_eq!(groups[0].descriptors[0].end, 13);
}

#[test]
fn consecutive_hunks_group_per_file() {
    let hunks = vec![hunk("a.rs", 1, 4), hunk("a.rs", 20, 2), hunk("b.rs", 1, 0)];
    let groups = batch(&hunks);
    assert_eq!(groups.len(), 2);
    assert_eq!(groups[0].file, "a.rs");
    assert_eq!(groups[0].descriptors.len(), 2);
    assert_eq!(groups[0].descriptors[0].start, 1);
    assert_eq!(groups[0].descriptors[0].end, 5);
    assert_eq!(groups[0].descriptors[1].start, 20);
    assert_eq!(groups[0].descriptors[1].end, 22);
    assert_eq!(groups[1].file, "b.rs");
    assert_eq!(groups[1].descriptors.len(), 1);
    assert_eq!(groups[1].descriptors[0].start, 1);
    assert_eq!(groups[1].descriptors[0].end, 1);
}

#[test]
fn flush_count_equals_contiguous_runs() {
    // a, a, b, a: three maximal runs, so three groups; the two non-adjacent
    // runs on a.rs stay separate.
    let hunks = vec![
        hunk("a.rs", 1, 1),
        hunk("a.rs", 5, 1),
        hunk("b.rs", 2, 2),
        hunk("a.rs", 9, 0),
    ];
    let groups = batch(&hunks);
    assert_eq!(groups.len(), 3);
    assert_eq!(groups[0].file, "a.rs");
    assert_eq!(groups[0].descriptors.len(), 2);
    assert_eq!(groups[1].file, "b.rs");
    assert_eq!(groups[1].descriptors.len(), 1);
    assert_eq!(groups[2].file, "a.rs");
    assert_eq!(groups[2].descriptors.len(), 1);
}

#[test]
fn descriptor_fields_follow_the_hunk() {
    let hunks = vec![hunk("m.rs", 7, 0), hunk("m.rs", 100, 25)];
    let groups = batch(&hunks);
    assert_eq!(groups.len(), 1);
    for (h, d) in hunks.iter().zip(groups[0].descriptors.iter()) {
        assert_eq!(d.file, h.file);
        assert_eq!(d.start, h.line);
        assert_eq!(d.end - d.start, h.count);
    }
}

#[test]
fn zero_count_hunk_covers_one_line() {
    let groups = batch(&vec![hunk("z.rs", 7, 0)]);
    assert_eq!(groups[0].descriptors[0].start, 7);
    assert_eq!(groups[0].descriptors[0].end, 7);
}
