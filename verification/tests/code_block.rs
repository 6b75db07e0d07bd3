use parser::code_block::{ColorCodeBlocks, Span};

fn spans(input: &str) -> Vec<(usize, usize)> {
    ColorCodeBlocks::new(input).spans().iter().map(|s| (s.start, s.end)).collect()
}

#[test]
fn text_without_backticks_has_no_code() {
    assert_eq!(spans(""), vec![]);
    assert_eq!(spans("just some text\nover two lines"), vec![]);
}

#[test]
fn inline_span() {
    assert_eq!(spans("a `b` c"), vec![(2, 5)]);
    assert_eq!(spans("`@bot modify labels: +bug.`"), vec![(0, 27)]);
}

#[test]
fn inline_span_is_closed_by_a_run_of_the_same_length() {
    assert_eq!(spans("``a`b``"), vec![(0, 7)]);
    assert_eq!(spans("`a``b`"), vec![(0, 6)]);
    assert_eq!(spans("``a` b"), vec![]);
}

#[test]
fn unmatched_run_is_text() {
    assert_eq!(spans("a ` b"), vec![]);
    assert_eq!(spans("a ` b `` c"), vec![]);
    assert_eq!(spans("a `` b ` c ` d"), vec![(7, 12)]);
}

#[test]
fn two_inline_spans() {
    assert_eq!(spans("`a` and `b`"), vec![(0, 3), (8, 11)]);
}

#[test]
fn inline_span_may_cross_lines() {
    assert_eq!(spans("x ```\n@bot claim\n```"), vec![(2, 20)]);
}

#[test]
fn fenced_block() {
    assert_eq!(spans("```\ncode\n```\nafter"), vec![(0, 12)]);
    assert_eq!(spans("before\n```rust\nlet x;\n```\nafter `y`"), vec![(7, 25), (32, 35)]);
}

#[test]
fn fenced_block_in_the_manner_of_a_comment() {
    let input = "```
    @bot modify labels: +bug.
    ```";
    assert_eq!(spans(input), vec![(0, input.len())]);
}

#[test]
fn fence_may_be_indented() {
    assert_eq!(spans("  ```\nx\n \t```"), vec![(2, 13)]);
}

#[test]
fn unterminated_fence_runs_to_the_end() {
    assert_eq!(spans("text\n```\n@bot claim"), vec![(5, 19)]);
    assert_eq!(spans("```"), vec![(0, 3)]);
}

#[test]
fn fence_is_closed_by_a_run_at_least_as_long() {
    assert_eq!(spans("````\n```\n````"), vec![(0, 13)]);
    assert_eq!(spans("```\n`````\nafter"), vec![(0, 9)]);
}

#[test]
fn two_backticks_open_no_fence() {
    assert_eq!(spans("``\ncode\n``"), vec![(0, 10)]);
    assert_eq!(spans("``\ncode\n"), vec![]);
}

#[test]
fn backticks_inside_a_fence_open_nothing() {
    assert_eq!(spans("```\na `b\n```\nc ` d"), vec![(0, 12)]);
}

#[test]
fn overlap_is_of_half_open_ranges() {
    let code = ColorCodeBlocks::new("a `b` c");
    assert_eq!(code.overlaps_code(0, 2), None);
    assert_eq!(code.overlaps_code(0, 3), Some(Span { start: 2, end: 5 }));
    assert_eq!(code.overlaps_code(4, 5), Some(Span { start: 2, end: 5 }));
    assert_eq!(code.overlaps_code(3, 4), Some(Span { start: 2, end: 5 }));
    assert_eq!(code.overlaps_code(5, 7), None);
    assert_eq!(code.overlaps_code(0, 7), Some(Span { start: 2, end: 5 }));
}

#[test]
fn empty_range_overlaps_nothing() {
    let code = ColorCodeBlocks::new("a `b` c");
    assert_eq!(code.overlaps_code(3, 3), None);
    assert_eq!(code.overlaps_code(4, 3), None);
}

#[test]
fn overlap_reports_the_first_range() {
    let code = ColorCodeBlocks::new("`a` and `b`");
    assert_eq!(code.overlaps_code(0, 11), Some(Span { start: 0, end: 3 }));
    assert_eq!(code.overlaps_code(3, 11), Some(Span { start: 8, end: 11 }));
    assert_eq!(code.overlaps_code(3, 8), None);
}

#[test]
fn index_is_the_same_each_time() {
    let input = "a `b` c\n```\n@bot claim\n```\n`d`";
    let one = ColorCodeBlocks::new(input);
    let two = ColorCodeBlocks::new(input);
    assert_eq!(one.spans(), two.spans());
    for start in 0..input.len() {
        for end in start..input.len() + 1 {
            assert_eq!(one.overlaps_code(start, end), two.overlaps_code(start, end));
            assert_eq!(one.overlaps_code(start, end), one.overlaps_code(start, end));
        }
    }
}

#[test]
fn tildes_make_a_fence() {
    assert_eq!(spans("~~~\n@bot claim\n~~~"), vec![(0, 18)]);
    assert_eq!(spans("a ~~~ b ~~~ c"), vec![]);
}

#[test]
fn fence_is_closed_by_its_own_character() {
    assert_eq!(spans("~~~\ncode\n```\nmore\n~~~~"), vec![(0, 22)]);
    assert_eq!(spans("```\n~~~\n```"), vec![(0, 11)]);
    assert_eq!(spans("~~~\n```"), vec![(0, 7)]);
}
