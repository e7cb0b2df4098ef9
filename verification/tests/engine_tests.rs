use numdiff::oracle::chars_of;
use numdiff::{diff_ops, opsel_min, BareOp, CharPolicy, Op};

#[test]
fn opsel_min_prefers_del_on_triple_tie() {
    assert_eq!(opsel_min(1, 1, 1), (BareOp::Del, 1));
}

#[test]
fn opsel_min_prefers_ins_over_nop_on_tie() {
    assert_eq!(opsel_min(2, 1, 1), (BareOp::Ins, 1));
}

#[test]
fn opsel_min_picks_nop_when_strictly_cheapest() {
    assert_eq!(opsel_min(2, 2, 1), (BareOp::Nop, 1));
}

#[test]
fn opsel_min_picks_minimum_cost() {
    assert_eq!(opsel_min(1, 2, 3), (BareOp::Del, 1));
    assert_eq!(opsel_min(5, 2, 3), (BareOp::Ins, 2));
    assert_eq!(opsel_min(5, 4, 3), (BareOp::Nop, 3));
}

#[test]
fn self_diff_is_single_nop_run() {
    let a = chars_of("abc");
    let ops = diff_ops(&a, &a, &CharPolicy);
    assert_eq!(ops, vec![Op::Nop(3)]);
}

#[test]
fn self_diff_of_empty_is_empty_script() {
    let a: Vec<char> = Vec::new();
    let ops = diff_ops(&a, &a, &CharPolicy);
    assert!(ops.is_empty());
}

#[test]
fn empty_left_yields_inserts_in_order() {
    let a: Vec<char> = Vec::new();
    let b = chars_of("xyz");
    let ops = diff_ops(&a, &b, &CharPolicy);
    assert_eq!(ops, vec![Op::Ins('x'), Op::Ins('y'), Op::Ins('z')]);
}

#[test]
fn tie_break_is_deterministic() {
    let a = chars_of("ab");
    let b = chars_of("ba");
    let first = diff_ops(&a, &b, &CharPolicy);
    let second = diff_ops(&a, &b, &CharPolicy);
    assert_eq!(first, second);
    assert_eq!(first, vec![Op::Ins('b'), Op::Nop(1), Op::Del('b')]);
}

#[test]
fn digit_only_differences_fold_into_one_nop_run() {
    let a = chars_of("a1");
    let b = chars_of("a2");
    let ops = diff_ops(&a, &b, &CharPolicy);
    assert_eq!(ops, vec![Op::Nop(3)]);
}

#[test]
fn replaying_script_rebuilds_right_sequence() {
    let a = chars_of("kitten");
    let b = chars_of("sitting");
    let ops = diff_ops(&a, &b, &CharPolicy);
    let mut ai = 0;
    let mut bi = 0;
    let mut rebuilt: Vec<char> = Vec::new();
    for op in &ops {
        match op {
            Op::Del(x) => {
                assert_eq!(*x, a[ai]);
                ai += 1;
            }
            Op::Ins(x) => {
                assert_eq!(*x, b[bi]);
                rebuilt.push(*x);
                bi += 1;
            }
            Op::Nop(n) => {
                assert!(*n >= 1);
                for _ in 0..*n {
                    assert_eq!(a[ai], b[bi]);
                    rebuilt.push(b[bi]);
                    ai += 1;
                    bi += 1;
                }
            }
        }
    }
    assert_eq!(ai, a.len());
    assert_eq!(bi, b.len());
    assert_eq!(rebuilt, b);
}

#[test]
fn no_two_adjacent_nop_runs() {
    let a = chars_of("a1x2b");
    let b = chars_of("a9y8b");
    let ops = diff_ops(&a, &b, &CharPolicy);
    for w in ops.windows(2) {
        assert!(!(matches!(w[0], Op::Nop(_)) && matches!(w[1], Op::Nop(_))));
    }
}
