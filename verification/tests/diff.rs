use co_worker::diff::render_unified_diff;

#[test]
fn empty_to_empty_has_no_changes() {
    assert_eq!(render_unified_diff("", ""), "(no textual changes)\n");
}

#[test]
fn unchanged_lines_are_listed_as_kept() {
    assert_eq!(render_unified_diff("a\nb\n", "a\nb"), "  a\n  b\n");
}

#[test]
fn one_line_replaced() {
    assert_eq!(
        render_unified_diff("a\nb\nc", "a\nx\nc"),
        "  a\n- b\n+ x\n  c\n"
    );
}

#[test]
fn new_file_is_all_additions() {
    assert_eq!(render_unified_diff("", "one\ntwo\n"), "+ one\n+ two\n");
}

#[test]
fn deleted_content_is_all_removals() {
    assert_eq!(render_unified_diff("one\ntwo", ""), "- one\n- two\n");
}

#[test]
fn crlf_line_endings_are_ignored() {
    assert_eq!(render_unified_diff("a\r\nb\r\n", "a\nb\n"), "  a\n  b\n");
}

#[test]
fn additions_win_ties_in_the_backtrack() {
    // Both lines differ; the addition is emitted after the removal.
    assert_eq!(render_unified_diff("a", "b"), "- a\n+ b\n");
}

#[test]
fn long_output_is_capped_at_256_lines() {
    let new: String = (0..300).map(|i| format!("l{i}\n")).collect();
    let out = render_unified_diff("", &new);
    let lines: Vec<&str> = out.lines().collect();
    assert_eq!(lines.len(), 257);
    assert_eq!(lines[0], "+ l0");
    assert_eq!(lines[255], "+ l255");
    assert_eq!(lines[256], "… 44 more change line(s) hidden");
}

#[test]
fn long_lines_are_clipped_at_400_bytes() {
    let long = "a".repeat(500);
    let out = render_unified_diff("", &long);
    assert_eq!(out, format!("+ {}…\n", "a".repeat(400)));
}

#[test]
fn huge_tables_are_summarised() {
    let a: String = (0..2001).map(|_| "x\n").collect();
    let b: String = (0..1000).map(|_| "y\n").collect();
    assert_eq!(
        render_unified_diff(&a, &b),
        "(diff too large to render: 2001 → 1000 lines)"
    );
}

#[test]
fn at_the_table_limit_the_diff_is_rendered() {
    let a: String = (0..2000).map(|_| "x\n").collect();
    let b: String = (0..1000).map(|_| "x\n").collect();
    let out = render_unified_diff(&a, &b);
    assert!(out.starts_with("- x\n"));
    assert!(out.ends_with("… 1744 more change line(s) hidden\n"));
}

fn sides(diff: &str) -> (Vec<String>, Vec<String>, usize) {
    let mut old = Vec::new();
    let mut new = Vec::new();
    let mut kept = 0;
    for l in diff.lines() {
        let (mark, text) = l.split_at(1);
        let text = text[1..].to_string();
        match mark {
            " " => {
                old.push(text.clone());
                new.push(text);
                kept += 1;
            }
            "-" => old.push(text),
            "+" => new.push(text),
            _ => panic!("unexpected line {l:?}"),
        }
    }
    (old, new, kept)
}

#[test]
fn the_diff_rebuilds_both_texts() {
    let a = "fn main() {\n    one();\n    two();\n}\n";
    let b = "fn main() {\n    zero();\n    two();\n    three();\n}\n";
    let (old, new, _) = sides(&render_unified_diff(a, b));
    assert_eq!(old, a.lines().map(str::to_string).collect::<Vec<_>>());
    assert_eq!(new, b.lines().map(str::to_string).collect::<Vec<_>>());
}

#[test]
fn the_diff_keeps_a_longest_common_subsequence() {
    // The longest common subsequence of a,b,c,d and b,c,e is b,c.
    let (_, _, kept) = sides(&render_unified_diff("a\nb\nc\nd", "b\nc\ne"));
    assert_eq!(kept, 2);
    let out = render_unified_diff("a\nb\nc\nd", "b\nc\ne");
    assert_eq!(out.lines().filter(|l| !l.starts_with(' ')).count(), 3);
}

#[test]
fn a_text_against_itself_is_all_context() {
    let a = "one\n\ntwo three\n";
    assert_eq!(render_unified_diff(a, a), "  one\n  \n  two three\n");
}
