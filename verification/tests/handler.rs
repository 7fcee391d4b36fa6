use nil::base::FileId;
use nil::base::FileRange;
use nil::handler::encode_semantic_tokens;
use nil::handler::goto_definition;
use nil::handler::selection_range;
use nil::handler::NavigationTarget;
use nil::handler::SelectionRange;
use nil::handler::SemanticToken;
use nil::handler::TokenSpan;
use nil::position::Position;
use nil::text::TextRange;
use nil::text::TextSize;

fn range(start: u32, end: u32) -> TextRange {
    TextRange::new(TextSize::new(start), TextSize::new(end))
}

fn chain(mut sel: &SelectionRange) -> Vec<TextRange> {
    let mut out = vec![sel.range];
    while let Some(parent) = &sel.parent {
        sel = parent;
        out.push(sel.range);
    }
    out
}

#[test]
fn goto_definition_points_at_the_name() {
    // `let x = 1; in x + x`: the binding is `x = 1;`, its name the `x` at 4.
    let targets = vec![
        NavigationTarget { file_id: FileId(0), full_range: range(4, 10), focus_range: range(4, 5) },
        NavigationTarget { file_id: FileId(2), full_range: range(0, 9), focus_range: range(7, 8) },
    ];
    assert_eq!(
        goto_definition(targets),
        vec![FileRange::new(FileId(0), range(4, 5)), FileRange::new(FileId(2), range(7, 8))]
    );
    assert_eq!(goto_definition(Vec::new()), Vec::new());
}

#[test]
fn selection_grows_from_the_smallest_range() {
    let found = vec![range(4, 5), range(4, 10), range(0, 19)];
    let sel = selection_range(TextSize::new(4), Some(found.clone()));
    assert_eq!(chain(&sel), found);
}

#[test]
fn selection_of_one_range_has_no_parent() {
    let sel = selection_range(TextSize::new(1), Some(vec![range(0, 3)]));
    assert_eq!(sel.range, range(0, 3));
    assert!(sel.parent.is_none());
}

#[test]
fn selection_without_ranges_is_the_position() {
    let sel = selection_range(TextSize::new(7), None);
    assert_eq!(chain(&sel), vec![TextRange::empty(TextSize::new(7))]);
    let sel = selection_range(TextSize::new(7), Some(Vec::new()));
    assert_eq!(chain(&sel), vec![range(7, 7)]);
}

fn span(line: u32, character: u32, length: u32, token_type: u32) -> TokenSpan {
    TokenSpan { start: Position { line, character }, length, token_type, token_modifiers_bitset: 0 }
}

fn token(delta_line: u32, delta_start: u32, length: u32, token_type: u32) -> SemanticToken {
    SemanticToken { delta_line, delta_start, length, token_type, token_modifiers_bitset: 0 }
}

#[test]
fn semantic_tokens_are_relative_to_the_token_before() {
    let spans = vec![span(2, 5, 3, 0), span(2, 10, 4, 1), span(5, 2, 7, 2), span(5, 2, 1, 3)];
    assert_eq!(
        encode_semantic_tokens(&spans),
        Some(vec![token(2, 5, 3, 0), token(0, 5, 4, 1), token(3, 2, 7, 2), token(0, 0, 1, 3)])
    );
    assert_eq!(encode_semantic_tokens(&Vec::new()), Some(Vec::new()));
}

#[test]
fn semantic_tokens_keep_kind_and_modifiers() {
    let spans = vec![TokenSpan {
        start: Position { line: 0, character: 4 },
        length: 1,
        token_type: 6,
        token_modifiers_bitset: 5,
    }];
    assert_eq!(
        encode_semantic_tokens(&spans),
        Some(vec![SemanticToken {
            delta_line: 0,
            delta_start: 4,
            length: 1,
            token_type: 6,
            token_modifiers_bitset: 5,
        }])
    );
}

#[test]
fn semantic_tokens_out_of_order_are_refused() {
    assert_eq!(encode_semantic_tokens(&vec![span(2, 5, 3, 0), span(1, 9, 1, 0)]), None);
    assert_eq!(encode_semantic_tokens(&vec![span(2, 5, 3, 0), span(2, 4, 1, 0)]), None);
    assert_eq!(
        encode_semantic_tokens(&vec![span(0, 0, 1, 0), span(0, 1, 1, 0), span(0, 0, 1, 0)]),
        None
    );
}
