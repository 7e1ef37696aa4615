use errfmt::text::{indent_str, StringExt};

#[test]
fn indent_empty_string_stays_empty() {
    assert_eq!(indent_str("", 0), "");
    assert_eq!(indent_str("", 2), "");
    assert_eq!(indent_str("", 100), "");
}

#[test]
fn indent_two_lines() {
    assert_eq!(indent_str("a\nb", 2), "  a\n  b");
}

#[test]
fn indent_leaves_middle_empty_line_untouched() {
    assert_eq!(indent_str("a\n\nb", 2), "  a\n\n  b");
}

#[test]
fn indent_width_zero_is_identity_on_single_line() {
    assert_eq!(indent_str("line", 0), "line");
}

#[test]
fn indent_width_zero_normalizes_like_line_iteration() {
    assert_eq!(indent_str("a\nb", 0), "a\nb");
    assert_eq!(indent_str("a\nb\n", 0), "a\nb");
}

#[test]
fn indent_single_line() {
    assert_eq!(indent_str("line", 3), "   line");
}

#[test]
fn indent_drops_final_newline_like_line_iteration() {
    assert_eq!(indent_str("a\n", 2), "  a");
}

#[test]
fn indent_newline_only_inputs() {
    assert_eq!(indent_str("\n", 2), "");
    assert_eq!(indent_str("\n\n", 2), "\n");
    assert_eq!(indent_str("\n\n\n", 4), "\n\n");
}

#[test]
fn indent_keeps_carriage_return_as_line_content() {
    assert_eq!(indent_str("a\r\nb", 1), " a\r\n b");
}

#[test]
fn indent_arbitrary_inputs_never_panic() {
    let samples = [
        "",
        "\n",
        "plain",
        "tw\u{00f6} l\u{00ef}nes\nsnow \u{2603} man",
        "ends\nwith\nnewline\n",
        "\n\nstarts empty",
        "tab\tand\rcontrol",
    ];
    for s in samples.iter() {
        for w in [0usize, 1, 2, 8, 4096] {
            let out = indent_str(s, w);
            assert!(out.len() >= s.trim_end_matches('\n').len());
        }
    }
}

#[test]
fn indent_multibyte_lines() {
    assert_eq!(indent_str("h\u{00e9}llo\n\u{2603}", 2), "  h\u{00e9}llo\n  \u{2603}");
}

#[test]
fn indent_method_matches_free_function() {
    let text = String::from("a\n\nb\nc");
    assert_eq!(text.indent(2), indent_str("a\n\nb\nc", 2));
    assert_eq!(text.indent(2), "  a\n\n  b\n  c");
}
