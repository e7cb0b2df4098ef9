use numdiff::{check_fits, diff, diff_ops, LinePolicy, Op, Tag, TaggedLine};

fn ctx(text: &str) -> TaggedLine<&str> {
    TaggedLine { tag: Tag::Context, text }
}

fn added(text: &str) -> TaggedLine<&str> {
    TaggedLine { tag: Tag::Added, text }
}

fn removed(text: &str) -> TaggedLine<&str> {
    TaggedLine { tag: Tag::Removed, text }
}

#[test]
fn end_to_end_numeric_tolerant_render() {
    let a = ["foo", "bar2224", "baz5", "goz"];
    let b = ["foo", "bar234423", "qux3", "bip", "goz"];
    let out = diff(&a, &b, 3).expect("script consumes both inputs");
    assert_eq!(
        out,
        vec![
            ctx("foo"),
            ctx("bar2224"),
            added("qux3"),
            added("bip"),
            removed("baz5"),
            ctx("goz"),
        ]
    );
}

#[test]
fn line_level_script_of_reference_example() {
    let a = ["foo", "bar2224", "baz5", "goz"];
    let b = ["foo", "bar234423", "qux3", "bip", "goz"];
    let ops = diff_ops(&a, &b, &LinePolicy);
    assert_eq!(
        ops,
        vec![
            Op::Nop(2),
            Op::Ins("qux3"),
            Op::Ins("bip"),
            Op::Del("baz5"),
            Op::Nop(1),
        ]
    );
    assert!(check_fits(&ops, a.len(), b.len()));
}

#[test]
fn exact_line_changes_render_in_order() {
    let a = ["foo", "noh", "goh", "bar"];
    let b = ["foo", "noh", "baz", "bar"];
    let out = diff(&a, &b, 3).expect("script consumes both inputs");
    assert_eq!(
        out,
        vec![
            ctx("foo"),
            ctx("noh"),
            added("baz"),
            removed("goh"),
            ctx("bar"),
        ]
    );
}

#[test]
fn unmatched_all_digit_line_desynchronizes() {
    // "5" is entirely digits, hence non-editable at the line level: its
    // deletion folds into a `Nop` run that the renderer cannot replay.
    let a = ["5"];
    let b: [&str; 0] = [];
    assert_eq!(diff(&a, &b, 3), None);
}

#[test]
fn empty_inputs_render_nothing() {
    let a: [&str; 0] = [];
    let b: [&str; 0] = [];
    assert_eq!(diff(&a, &b, 3), Some(Vec::new()));
}

#[test]
fn long_unchanged_run_collapses_to_window() {
    let lines = ["l0", "l1", "l2", "l3", "l4", "l5", "l6", "l7", "l8", "l9"];
    let out = diff(&lines, &lines, 1).expect("identical inputs always fit");
    assert_eq!(out, vec![ctx("l8"), ctx("l9")]);
}

#[test]
fn matched_all_digit_lines_render_as_context() {
    // Two all-digit lines compare equal, so the left one shows as context.
    let a = ["42"];
    let b = ["99"];
    assert_eq!(diff(&a, &b, 3), Some(vec![ctx("42")]));
}

#[test]
fn folded_all_digit_line_beside_real_change_desynchronizes() {
    // "1" is unmatched ("1" and "a" differ in a non-digit) but all digits,
    // so its deletion folds into the adjacent `Nop` run and the run count
    // no longer matches both cursors.
    let a = ["1", "a"];
    let b = ["a"];
    assert_eq!(diff(&a, &b, 3), None);
}

#[test]
fn empty_lines_match_and_render_as_context() {
    let a = [""];
    let b = [""];
    assert_eq!(diff(&a, &b, 3), Some(vec![ctx("")]));
}

#[test]
fn check_fits_rejects_short_and_long_scripts() {
    let ops: Vec<Op<&str>> = vec![Op::Nop(2)];
    assert!(!check_fits(&ops, 1, 2));
    assert!(!check_fits(&ops, 2, 1));
    assert!(check_fits(&ops, 2, 2));
    let zero: Vec<Op<&str>> = vec![Op::Nop(0)];
    assert!(!check_fits(&zero, 0, 0));
}
