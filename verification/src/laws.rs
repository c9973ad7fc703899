//! Proved laws of the flattening traversal.
//!
//! Each public proof function states one guarantee of the traversal over
//! the mathematical yield sequence `spec_items`; together they pin down
//! what a complete, a truncated and an empty traversal look like.

use vstd::prelude::*;

use crate::eds::{
    ChildNode, GDoc, GItem, GTop, NodeKind, item_of, items_after_name, items_after_stmt,
    items_entering, span_ok, spec_items,
};

verus! {

/// Shape of a well-formed section holding `m` statements: an opening
/// marker, the name, a closing marker, then exactly the statements, every
/// inspected span valid against the text.
pub open spec fn wf_section(content: Seq<u8>, t: GTop, m: nat) -> bool {
    &&& t.kind == NodeKind::Section
    &&& t.children.len() == 3 + m
    &&& t.children[1].kind == NodeKind::SectionName
    &&& span_ok(content, t.children[1].span)
    &&& forall|j: int|
        3 <= j < t.children.len() ==> (#[trigger] t.children[j]).kind == NodeKind::Statement
            && span_ok(content, t.children[j].span)
}

/// Shape of a fully well-formed document: a source-file root whose
/// children are well-formed sections with the given statement counts.
pub open spec fn wf_doc(d: GDoc, counts: Seq<nat>) -> bool {
    &&& d.root_kind == NodeKind::SourceFile
    &&& d.tops.len() == counts.len()
    &&& forall|i: int|
        0 <= i < d.tops.len() ==> wf_section(d.content, #[trigger] d.tops[i], counts[i])
}

/// The items one well-formed section contributes: its name, then each of
/// its statements in order.
pub open spec fn section_items(content: Seq<u8>, t: GTop) -> Seq<GItem> {
    seq![item_of(content, t.children[1])] + t.children.subrange(
        3,
        t.children.len() as int,
    ).map_values(|c: ChildNode| item_of(content, c))
}

/// The items of every section from index `sec` on, in document order.
pub open spec fn doc_items_from(d: GDoc, sec: int) -> Seq<GItem>
    decreases d.tops.len() - sec
        when 0 <= sec <= d.tops.len()
{
    if sec < d.tops.len() {
        section_items(d.content, d.tops[sec]) + doc_items_from(d, sec + 1)
    } else {
        Seq::empty()
    }
}

/// How many statements the sections from index `sec` on hold together.
pub open spec fn count_from(counts: Seq<nat>, sec: int) -> nat
    decreases counts.len() - sec
        when 0 <= sec <= counts.len()
{
    if sec < counts.len() {
        counts[sec] + count_from(counts, sec + 1)
    } else {
        0
    }
}

proof fn lemma_doc_items_len(d: GDoc, counts: Seq<nat>, sec: int)
    requires
        wf_doc(d, counts),
        0 <= sec <= d.tops.len(),
    ensures
        doc_items_from(d, sec).len() == (d.tops.len() - sec) + count_from(counts, sec),
    decreases d.tops.len() - sec,
{
    if sec < d.tops.len() {
        lemma_doc_items_len(d, counts, sec + 1);
    }
}

proof fn lemma_entering_wf(d: GDoc, counts: Seq<nat>, sec: int)
    requires
        wf_doc(d, counts),
        forall|i: int| 0 <= i < counts.len() ==> #[trigger] counts[i] >= 1,
        0 <= sec <= d.tops.len(),
    ensures
        items_entering(d, sec) == doc_items_from(d, sec),
    decreases d.tops.len() - sec, d.tops[sec].children.len() + 1,
{
    if sec < d.tops.len() {
        let ch = d.tops[sec].children;
        assert(wf_section(d.content, d.tops[sec], counts[sec]));
        assert(ch[3].kind == NodeKind::Statement && span_ok(d.content, ch[3].span));
        lemma_stmts_wf(d, counts, sec, 3);
        assert(seq![item_of(d.content, ch[3])] + ch.subrange(4, ch.len() as int).map_values(
            |c: ChildNode| item_of(d.content, c),
        ) =~= ch.subrange(3, ch.len() as int).map_values(|c: ChildNode| item_of(d.content, c)));
        assert(items_entering(d, sec) =~= doc_items_from(d, sec));
    }
}

proof fn lemma_stmts_wf(d: GDoc, counts: Seq<nat>, sec: int, idx: int)
    requires
        wf_doc(d, counts),
        forall|i: int| 0 <= i < counts.len() ==> #[trigger] counts[i] >= 1,
        0 <= sec < d.tops.len(),
        3 <= idx < d.tops[sec].children.len(),
    ensures
        items_after_stmt(d, sec, idx) == d.tops[sec].children.subrange(
            idx + 1,
            d.tops[sec].children.len() as int,
        ).map_values(|c: ChildNode| item_of(d.content, c)) + doc_items_from(d, sec + 1),
    decreases d.tops.len() - sec, d.tops[sec].children.len() - idx,
{
    let ch = d.tops[sec].children;
    if idx + 1 < ch.len() {
        assert(ch[idx + 1].kind == NodeKind::Statement && span_ok(d.content, ch[idx + 1].span));
        lemma_stmts_wf(d, counts, sec, idx + 1);
        assert(seq![item_of(d.content, ch[idx + 1])] + ch.subrange(
            idx + 2,
            ch.len() as int,
        ).map_values(|c: ChildNode| item_of(d.content, c)) =~= ch.subrange(
            idx + 1,
            ch.len() as int,
        ).map_values(|c: ChildNode| item_of(d.content, c)));
        assert(items_after_stmt(d, sec, idx) =~= ch.subrange(idx + 1, ch.len() as int).map_values(
            |c: ChildNode| item_of(d.content, c),
        ) + doc_items_from(d, sec + 1));
    } else {
        lemma_entering_wf(d, counts, sec + 1);
        assert(items_after_stmt(d, sec, idx) =~= ch.subrange(idx + 1, ch.len() as int).map_values(
            |c: ChildNode| item_of(d.content, c),
        ) + doc_items_from(d, sec + 1));
    }
}

/// LAW: over a well-formed document whose sections hold at least one
/// statement each, the traversal is complete — it yields every section's
/// name followed by that section's statements, section after section in
/// document order, N + m1 + .. + mN items in all.
pub proof fn lemma_traversal_complete(d: GDoc, counts: Seq<nat>)
    requires
        wf_doc(d, counts),
        forall|i: int| 0 <= i < counts.len() ==> #[trigger] counts[i] >= 1,
    ensures
        spec_items(d) == doc_items_from(d, 0),
        spec_items(d).len() == counts.len() + count_from(counts, 0),
{
    lemma_entering_wf(d, counts, 0);
    lemma_doc_items_len(d, counts, 0);
}

/// LAW: a document without sections yields the empty sequence.
pub proof fn lemma_empty_document(d: GDoc)
    requires
        d.tops.len() == 0,
    ensures
        spec_items(d) == Seq::<GItem>::empty(),
{
}

/// LAW: when the first section exposes its name but holds no statement,
/// the traversal yields that name alone — later sections are never
/// reached, however well formed they may be.
pub proof fn lemma_empty_first_section(d: GDoc)
    requires
        d.root_kind == NodeKind::SourceFile,
        d.tops.len() >= 1,
        d.tops[0].kind == NodeKind::Section,
        d.tops[0].children.len() >= 2,
        d.tops[0].children[1].kind == NodeKind::SectionName,
        span_ok(d.content, d.tops[0].children[1].span),
        d.tops[0].children.len() < 4 || d.tops[0].children[3].kind != NodeKind::Statement,
    ensures
        spec_items(d) == seq![item_of(d.content, d.tops[0].children[1])],
{
    assert(items_after_name(d, 0) == Seq::<GItem>::empty());
    assert(spec_items(d) =~= seq![item_of(d.content, d.tops[0].children[1])]);
}

/// LAW: the traversal is deterministic and restartable — its yield is a
/// function of the document value alone, so two complete runs over the
/// same unmodified document give the same sequence.
pub proof fn lemma_traversal_deterministic(d: GDoc, r1: Seq<GItem>, r2: Seq<GItem>)
    requires
        r1 == spec_items(d),
        r2 == spec_items(d),
    ensures
        r1 == r2,
{
}

/// One yielded item agrees with the source: its span lies within the text
/// and its content is exactly the bytes that span bounds.
pub open spec fn item_matches_source(content: Seq<u8>, it: GItem) -> bool {
    span_ok(content, it.span) && it.content == content.subrange(
        it.span.start_byte as int,
        it.span.end_byte as int,
    )
}

proof fn lemma_entering_matches(d: GDoc, sec: int)
    requires
        0 <= sec <= d.tops.len(),
    ensures
        forall|k: int|
            0 <= k < items_entering(d, sec).len() ==> item_matches_source(
                d.content,
                #[trigger] items_entering(d, sec)[k],
            ),
    decreases d.tops.len() - sec, 2int, 0int,
{
    if sec < d.tops.len() && d.tops[sec].kind == NodeKind::Section && d.tops[sec].children.len()
        >= 2 && d.tops[sec].children[1].kind == NodeKind::SectionName && span_ok(
        d.content,
        d.tops[sec].children[1].span,
    ) {
        lemma_after_name_matches(d, sec);
        assert forall|k: int| 0 <= k < items_entering(d, sec).len() implies item_matches_source(
            d.content,
            #[trigger] items_entering(d, sec)[k],
        ) by {
            if k == 0 {
                assert(items_entering(d, sec)[0] == item_of(
                    d.content,
                    d.tops[sec].children[1],
                ));
            } else {
                assert(items_entering(d, sec)[k] == items_after_name(d, sec)[k - 1]);
            }
        }
    }
}

proof fn lemma_after_name_matches(d: GDoc, sec: int)
    requires
        0 <= sec < d.tops.len(),
    ensures
        forall|k: int|
            0 <= k < items_after_name(d, sec).len() ==> item_matches_source(
                d.content,
                #[trigger] items_after_name(d, sec)[k],
            ),
    decreases d.tops.len() - sec, 1int, 0int,
{
    let ch = d.tops[sec].children;
    if ch.len() >= 4 && ch[3].kind == NodeKind::Statement && span_ok(d.content, ch[3].span) {
        lemma_after_stmt_matches(d, sec, 3);
        assert forall|k: int| 0 <= k < items_after_name(d, sec).len() implies item_matches_source(
            d.content,
            #[trigger] items_after_name(d, sec)[k],
        ) by {
            if k == 0 {
                assert(items_after_name(d, sec)[0] == item_of(d.content, ch[3]));
            } else {
                assert(items_after_name(d, sec)[k] == items_after_stmt(d, sec, 3)[k - 1]);
            }
        }
    }
}

proof fn lemma_after_stmt_matches(d: GDoc, sec: int, idx: int)
    requires
        0 <= sec < d.tops.len(),
        0 <= idx < d.tops[sec].children.len(),
    ensures
        forall|k: int|
            0 <= k < items_after_stmt(d, sec, idx).len() ==> item_matches_source(
                d.content,
                #[trigger] items_after_stmt(d, sec, idx)[k],
            ),
    decreases d.tops.len() - sec, 0int, d.tops[sec].children.len() - idx,
{
    let ch = d.tops[sec].children;
    if idx + 1 < ch.len() && ch[idx + 1].kind == NodeKind::Statement {
        if span_ok(d.content, ch[idx + 1].span) {
            lemma_after_stmt_matches(d, sec, idx + 1);
            assert forall|k: int|
                0 <= k < items_after_stmt(d, sec, idx).len() implies item_matches_source(
                d.content,
                #[trigger] items_after_stmt(d, sec, idx)[k],
            ) by {
                if k == 0 {
                    assert(items_after_stmt(d, sec, idx)[0] == item_of(d.content, ch[idx + 1]));
                } else {
                    assert(items_after_stmt(d, sec, idx)[k] == items_after_stmt(
                        d,
                        sec,
                        idx + 1,
                    )[k - 1]);
                }
            }
        }
    } else {
        lemma_entering_matches(d, sec + 1);
        assert forall|k: int|
            0 <= k < items_after_stmt(d, sec, idx).len() implies item_matches_source(
            d.content,
            #[trigger] items_after_stmt(d, sec, idx)[k],
        ) by {
            assert(items_after_stmt(d, sec, idx)[k] == items_entering(d, sec + 1)[k]);
        }
    }
}

/// LAW: every yielded item's text equals the exact substring of the
/// original document bounded by its reported range.
pub proof fn lemma_items_match_source(d: GDoc)
    ensures
        forall|k: int|
            0 <= k < spec_items(d).len() ==> item_matches_source(
                d.content,
                #[trigger] spec_items(d)[k],
            ),
{
    if d.root_kind == NodeKind::SourceFile {
        lemma_entering_matches(d, 0);
    }
}

} // verus!
