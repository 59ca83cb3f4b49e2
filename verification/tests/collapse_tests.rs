use uniqr::collapse::{collapse_all, Collapser};

fn lines(v: &[&str]) -> Vec<String> {
    v.iter().map(|s| s.to_string()).collect()
}

#[test]
fn empty_input_no_output() {
    let out = collapse_all(&Vec::new(), false);
    assert_eq!(out, "");
    let out = collapse_all(&Vec::new(), true);
    assert_eq!(out, "");
}

#[test]
fn single_line_with_terminator() {
    let out = collapse_all(&lines(&["a\n"]), false);
    assert_eq!(out, "a\n");
}

#[test]
fn single_line_no_terminator() {
    let out = collapse_all(&lines(&["z"]), false);
    assert_eq!(out, "z");
}

#[test]
fn single_line_no_terminator_with_count() {
    let out = collapse_all(&lines(&["z"]), true);
    assert_eq!(out, "   1 z");
}

#[test]
fn all_lines_identical() {
    let out = collapse_all(&lines(&["a\n", "a\n", "a\n", "a\n"]), true);
    assert_eq!(out, "   4 a\n");
}

#[test]
fn trim_insensitive_grouping_verbatim_emission() {
    let out = collapse_all(&lines(&["a\n", "a \n", "a\n"]), false);
    assert_eq!(out, "a\n");
    let out = collapse_all(&lines(&["a\n", "a \n", "a\n"]), true);
    assert_eq!(out, "   3 a\n");
}

#[test]
fn prefix_format_scenario() {
    let out = collapse_all(&lines(&["x\n", "x\n", "y\n"]), true);
    assert_eq!(out, "   2 x\n   1 y\n");
}

#[test]
fn non_adjacent_duplicates_stay_separate() {
    let out = collapse_all(&lines(&["a\n", "b\n", "a\n"]), false);
    assert_eq!(out, "a\nb\na\n");
}

#[test]
fn collapsing_is_idempotent_on_own_output() {
    let input = lines(&["a\n", "a \n", "b\n", "b\n", "a\n", "c \n", "c\n"]);
    let once = collapse_all(&input, false);
    let again_lines: Vec<String> = once
        .split_inclusive('\n')
        .map(|s| s.to_string())
        .collect();
    let twice = collapse_all(&again_lines, false);
    assert_eq!(twice, once);
}

#[test]
fn counts_sum_to_line_total() {
    let input = lines(&["a\n", "a\n", "b\n", "b \n", "b\n", "c\n", "a\n"]);
    let mut c = Collapser::new();
    let mut total: usize = 0;
    for l in &input {
        if let Some((_, n)) = c.push(l.clone()) {
            total += n;
        }
    }
    if let Some((_, n)) = c.finish() {
        total += n;
    }
    assert_eq!(total, input.len());
}

#[test]
fn streaming_emits_first_occurrence_text() {
    let mut c = Collapser::new();
    assert_eq!(c.push("a \n".to_string()), None);
    assert_eq!(c.push("a\n".to_string()), None);
    let emitted = c.push("b\n".to_string());
    assert_eq!(emitted, Some(("a \n".to_string(), 2)));
    assert_eq!(c.finish(), Some(("b\n".to_string(), 1)));
}

#[test]
fn finish_on_empty_collapser_emits_nothing() {
    let c = Collapser::new();
    assert_eq!(c.finish(), None);
}

#[test]
fn blank_lines_group_together() {
    let out = collapse_all(&lines(&["\n", "  \n", "\t\n", "a\n"]), true);
    assert_eq!(out, "   3 \n   1 a\n");
}

#[test]
fn large_count_format() {
    let out = collapse_all(&vec!["q\n".to_string(); 12], true);
    assert_eq!(out, "   12 q\n");
}
