//! Scenario tests for the flattening traversal, driven through the public
//! surface of the library: documents are built as the two-level model and
//! traversed to completion.

use eds_lsp::eds::{ChildNode, EDS, EDSNode, NodeKind, Point, Span, TopNode};

fn span_on_row(row: usize, start_byte: usize, end_byte: usize, row_offset: usize) -> Span {
    Span {
        start_byte,
        end_byte,
        start_point: Point { row, column: start_byte - row_offset },
        end_point: Point { row, column: end_byte - row_offset },
    }
}

fn sp(start_byte: usize, end_byte: usize) -> Span {
    span_on_row(0, start_byte, end_byte, 0)
}

fn child(kind: NodeKind, span: Span) -> ChildNode {
    ChildNode { kind, span }
}

fn section(span: Span, children: Vec<ChildNode>) -> TopNode {
    TopNode {
        kind: NodeKind::Section,
        span,
        children,
    }
}

fn doc(text: &str, tops: Vec<TopNode>) -> EDS {
    EDS::new(text.as_bytes().to_vec(), NodeKind::SourceFile, tops)
}

fn item(items: &[EDSNode], i: usize) -> (NodeKind, &[u8]) {
    (items[i].kind, items[i].content.as_slice())
}

/// `"[A] x=1 x=2 [B] y=3"`: two sections holding two and one statements.
fn two_section_doc() -> EDS {
    let text = "[A] x=1 x=2 [B] y=3";
    doc(
        text,
        vec![
            section(
                sp(0, 11),
                vec![
                    child(NodeKind::Extra, sp(0, 1)),
                    child(NodeKind::SectionName, sp(1, 2)),
                    child(NodeKind::Extra, sp(2, 3)),
                    child(NodeKind::Statement, sp(4, 7)),
                    child(NodeKind::Statement, sp(8, 11)),
                ],
            ),
            section(
                sp(12, 19),
                vec![
                    child(NodeKind::Extra, sp(12, 13)),
                    child(NodeKind::SectionName, sp(13, 14)),
                    child(NodeKind::Extra, sp(14, 15)),
                    child(NodeKind::Statement, sp(16, 19)),
                ],
            ),
        ],
    )
}

#[test]
fn two_sections_yield_all_units_in_order() {
    let d = two_section_doc();
    let items = d.flatten();
    assert_eq!(items.len(), 5);
    assert_eq!(item(&items, 0), (NodeKind::SectionName, b"A".as_slice()));
    assert_eq!(item(&items, 1), (NodeKind::Statement, b"x=1".as_slice()));
    assert_eq!(item(&items, 2), (NodeKind::Statement, b"x=2".as_slice()));
    assert_eq!(item(&items, 3), (NodeKind::SectionName, b"B".as_slice()));
    assert_eq!(item(&items, 4), (NodeKind::Statement, b"y=3".as_slice()));
}

#[test]
fn yield_count_is_sections_plus_statements() {
    let d = two_section_doc();
    assert_eq!(d.flatten().len(), 2 + (2 + 1));
}

#[test]
fn empty_document_yields_nothing() {
    let d = doc("", vec![]);
    assert_eq!(d.flatten().len(), 0);
}

#[test]
fn empty_first_section_hides_later_sections() {
    // "[A] [B] z=1": section A holds no statement, so only its name is
    // yielded; B and its statement are never reached.
    let text = "[A] [B] z=1";
    let d = doc(
        text,
        vec![
            section(
                sp(0, 3),
                vec![
                    child(NodeKind::Extra, sp(0, 1)),
                    child(NodeKind::SectionName, sp(1, 2)),
                    child(NodeKind::Extra, sp(2, 3)),
                ],
            ),
            section(
                sp(4, 11),
                vec![
                    child(NodeKind::Extra, sp(4, 5)),
                    child(NodeKind::SectionName, sp(5, 6)),
                    child(NodeKind::Extra, sp(6, 7)),
                    child(NodeKind::Statement, sp(8, 11)),
                ],
            ),
        ],
    );
    let items = d.flatten();
    assert_eq!(items.len(), 1);
    assert_eq!(item(&items, 0), (NodeKind::SectionName, b"A".as_slice()));
}

#[test]
fn section_without_name_yields_nothing() {
    // "[A]" parsed into a section that exposes no name token: the very
    // first structural expectation fails and the sequence is empty.
    let d = doc(
        "[A]",
        vec![section(sp(0, 3), vec![child(NodeKind::Extra, sp(0, 1))])],
    );
    assert_eq!(d.flatten().len(), 0);
}

#[test]
fn wrong_kind_in_name_slot_yields_nothing() {
    let d = doc(
        "[A]",
        vec![section(
            sp(0, 3),
            vec![
                child(NodeKind::Extra, sp(0, 1)),
                child(NodeKind::Extra, sp(1, 2)),
            ],
        )],
    );
    assert_eq!(d.flatten().len(), 0);
}

#[test]
fn non_source_root_yields_nothing() {
    let mut d = two_section_doc();
    d.root_kind = NodeKind::Extra;
    assert_eq!(d.flatten().len(), 0);
}

#[test]
fn traversal_is_deterministic_and_restartable() {
    let d = two_section_doc();
    let first = d.flatten();
    let second = d.flatten();
    assert_eq!(first, second);
}

#[test]
fn iterator_steps_agree_with_flatten() {
    let d = two_section_doc();
    let items = d.flatten();
    let mut it = d.iter();
    let mut stepped: Vec<EDSNode> = Vec::new();
    while let Some(node) = it.next(&d) {
        stepped.push(node);
    }
    assert_eq!(stepped, items);
    // Once the traversal has stopped, it stays stopped.
    assert!(it.next(&d).is_none());
    assert!(it.next(&d).is_none());
}

#[test]
fn yielded_text_matches_spanned_source() {
    let text = "[A] x=1 x=2 [B] y=3";
    let d = two_section_doc();
    for node in d.flatten() {
        let expected = &text.as_bytes()[node.span.start_byte..node.span.end_byte];
        assert_eq!(node.content.as_slice(), expected);
    }
}

#[test]
fn invalid_statement_span_stops_the_traversal() {
    // The first statement's byte range reaches past the end of the text:
    // its slice cannot be decoded, so the name is the last item yielded.
    let d = doc(
        "[A] x=1",
        vec![section(
            sp(0, 7),
            vec![
                child(NodeKind::Extra, sp(0, 1)),
                child(NodeKind::SectionName, sp(1, 2)),
                child(NodeKind::Extra, sp(2, 3)),
                child(NodeKind::Statement, sp(4, 99)),
            ],
        )],
    );
    let items = d.flatten();
    assert_eq!(items.len(), 1);
    assert_eq!(item(&items, 0), (NodeKind::SectionName, b"A".as_slice()));
}

#[test]
fn statement_slot_holding_other_kind_stops_before_it() {
    // A non-statement where the first statement is expected ends the
    // sequence right after the section name.
    let d = doc(
        "[A] ! x=1",
        vec![section(
            sp(0, 9),
            vec![
                child(NodeKind::Extra, sp(0, 1)),
                child(NodeKind::SectionName, sp(1, 2)),
                child(NodeKind::Extra, sp(2, 3)),
                child(NodeKind::Extra, sp(4, 5)),
                child(NodeKind::Statement, sp(6, 9)),
            ],
        )],
    );
    let items = d.flatten();
    assert_eq!(items.len(), 1);
    assert_eq!(item(&items, 0), (NodeKind::SectionName, b"A".as_slice()));
}

/// `"[A] x=1\n[B] y=2"`: one section per row.
fn two_row_doc() -> EDS {
    let text = "[A] x=1\n[B] y=2";
    doc(
        text,
        vec![
            section(
                span_on_row(0, 0, 7, 0),
                vec![
                    child(NodeKind::Extra, span_on_row(0, 0, 1, 0)),
                    child(NodeKind::SectionName, span_on_row(0, 1, 2, 0)),
                    child(NodeKind::Extra, span_on_row(0, 2, 3, 0)),
                    child(NodeKind::Statement, span_on_row(0, 4, 7, 0)),
                ],
            ),
            section(
                span_on_row(1, 8, 15, 8),
                vec![
                    child(NodeKind::Extra, span_on_row(1, 8, 9, 8)),
                    child(NodeKind::SectionName, span_on_row(1, 9, 10, 8)),
                    child(NodeKind::Extra, span_on_row(1, 10, 11, 8)),
                    child(NodeKind::Statement, span_on_row(1, 12, 15, 8)),
                ],
            ),
        ],
    )
}

#[test]
fn statements_in_rows_selects_by_row_overlap() {
    let d = two_row_doc();
    let first = d.statements_in_rows(0, 0);
    assert_eq!(first.len(), 1);
    assert_eq!(item(&first, 0), (NodeKind::Statement, b"x=1".as_slice()));

    let second = d.statements_in_rows(1, 1);
    assert_eq!(second.len(), 1);
    assert_eq!(item(&second, 0), (NodeKind::Statement, b"y=2".as_slice()));

    let both = d.statements_in_rows(0, 5);
    assert_eq!(both.len(), 2);
    assert_eq!(item(&both, 0), (NodeKind::Statement, b"x=1".as_slice()));
    assert_eq!(item(&both, 1), (NodeKind::Statement, b"y=2".as_slice()));
}

#[test]
fn statements_in_rows_never_yields_names() {
    let d = two_row_doc();
    for node in d.statements_in_rows(0, 5) {
        assert_eq!(node.kind, NodeKind::Statement);
    }
}
