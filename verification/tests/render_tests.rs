use numdiff::{render, ContextBuffer, Op, Tag, TaggedLine};

#[test]
fn buffer_keeps_window_and_evicts_oldest() {
    // Capacity 2 * radius with radius 3: pushing 7 lines keeps the last 6.
    let mut cb: ContextBuffer<&str> = ContextBuffer::new(6);
    let lines = ["l0", "l1", "l2", "l3", "l4", "l5", "l6"];
    for line in lines {
        cb.push(line);
    }
    let mut out: Vec<TaggedLine<&str>> = Vec::new();
    cb.flush_into(&mut out);
    assert_eq!(out.len(), 6);
    for (k, tagged) in out.iter().enumerate() {
        assert_eq!(tagged.tag, Tag::Context);
        assert_eq!(tagged.text, lines[k + 1]);
    }
}

#[test]
fn buffer_flush_empties() {
    let mut cb: ContextBuffer<&str> = ContextBuffer::new(4);
    cb.push("a");
    let mut out: Vec<TaggedLine<&str>> = Vec::new();
    cb.flush_into(&mut out);
    assert_eq!(out.len(), 1);
    cb.flush_into(&mut out);
    assert_eq!(out.len(), 1);
}

#[test]
fn buffer_with_zero_capacity_holds_nothing() {
    let mut cb: ContextBuffer<&str> = ContextBuffer::new(0);
    cb.push("a");
    cb.push("b");
    let mut out: Vec<TaggedLine<&str>> = Vec::new();
    cb.flush_into(&mut out);
    assert!(out.is_empty());
}

#[test]
fn render_flushes_context_before_each_change() {
    let a = ["k1", "k2", "old"];
    let b = ["k1", "k2", "new"];
    let ops = vec![Op::Nop(2), Op::Del("old"), Op::Ins("new")];
    let out = render(&ops, &a, &b, 3);
    assert_eq!(
        out,
        vec![
            TaggedLine { tag: Tag::Context, text: "k1" },
            TaggedLine { tag: Tag::Context, text: "k2" },
            TaggedLine { tag: Tag::Removed, text: "old" },
            TaggedLine { tag: Tag::Added, text: "new" },
        ]
    );
}

#[test]
fn render_trailing_context_is_flushed_at_end() {
    let a = ["x", "t1"];
    let b = ["y", "t1"];
    let ops = vec![Op::Del("x"), Op::Ins("y"), Op::Nop(1)];
    let out = render(&ops, &a, &b, 3);
    assert_eq!(
        out,
        vec![
            TaggedLine { tag: Tag::Removed, text: "x" },
            TaggedLine { tag: Tag::Added, text: "y" },
            TaggedLine { tag: Tag::Context, text: "t1" },
        ]
    );
}
