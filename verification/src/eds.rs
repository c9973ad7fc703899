//! The parsed-document model and the flattening traversal.
//!
//! The traversal inspects only the root's kind, the root's direct children,
//! and each such child's direct children; nothing deeper ever influences
//! what is yielded. The document model therefore keeps exactly those two
//! levels, each node as plain values: a kind tag and a source location.

use vstd::prelude::*;

verus! {

/// The kind tag of a node in the parsed document tree.
///
/// `Extra` stands for every kind the traversal does not dispatch on:
/// markers, delimiters and other syntactic scaffolding.
#[derive(Clone, Copy, PartialEq, Eq, Structural, Debug)]
pub enum NodeKind {
    SourceFile,
    Section,
    SectionName,
    Statement,
    Extra,
}

/// A zero-based (row, column) position in the source text.
#[derive(Clone, Copy, PartialEq, Eq, Structural, Debug)]
pub struct Point {
    pub row: usize,
    pub column: usize,
}

/// Where a node stands in the source: its byte range and its
/// (row, column) range.
#[derive(Clone, Copy, PartialEq, Eq, Structural, Debug)]
pub struct Span {
    pub start_byte: usize,
    pub end_byte: usize,
    pub start_point: Point,
    pub end_point: Point,
}

/// A direct child of a section: its kind and location. The traversal
/// never descends below a section's children, so nothing deeper is kept.
#[derive(Clone, Copy, PartialEq, Eq, Structural, Debug)]
pub struct ChildNode {
    pub kind: NodeKind,
    pub span: Span,
}

/// A direct child of the document root — a section, when the document is
/// well formed — together with its own direct children.
#[derive(Debug)]
pub struct TopNode {
    pub kind: NodeKind,
    pub span: Span,
    pub children: Vec<ChildNode>,
}

/// Mathematical value of a `TopNode`.
pub struct GTop {
    pub kind: NodeKind,
    pub span: Span,
    pub children: Seq<ChildNode>,
}

impl View for TopNode {
    type V = GTop;

    open spec fn view(&self) -> GTop {
        GTop { kind: self.kind, span: self.span, children: self.children@ }
    }
}

/// A parsed document: the source text and the two tree levels the
/// traversal reads. Immutable once constructed; the traversal checks every
/// shape assumption itself, so no invariant is demanded of the fields.
#[derive(Debug)]
pub struct EDS {
    pub content: Vec<u8>,
    pub root_kind: NodeKind,
    pub tops: Vec<TopNode>,
}

/// Mathematical value of an `EDS` document.
pub struct GDoc {
    pub content: Seq<u8>,
    pub root_kind: NodeKind,
    pub tops: Seq<GTop>,
}

impl View for EDS {
    type V = GDoc;

    open spec fn view(&self) -> GDoc {
        GDoc {
            content: self.content@,
            root_kind: self.root_kind,
            tops: self.tops@.map_values(|t: TopNode| t@),
        }
    }
}

/// One yielded unit: a node's kind, the exact source bytes it spans, and
/// its location.
#[derive(Debug, PartialEq, Eq)]
pub struct EDSNode {
    pub kind: NodeKind,
    pub content: Vec<u8>,
    pub span: Span,
}

/// Mathematical value of an `EDSNode`.
pub struct GItem {
    pub kind: NodeKind,
    pub content: Seq<u8>,
    pub span: Span,
}

impl View for EDSNode {
    type V = GItem;

    open spec fn view(&self) -> GItem {
        GItem { kind: self.kind, content: self.content@, span: self.span }
    }
}

/// A span can be cut out of the text: its bounds are ordered and within it.
pub open spec fn span_ok(content: Seq<u8>, s: Span) -> bool {
    s.start_byte <= s.end_byte && s.end_byte <= content.len()
}

/// The item the traversal yields for child `c`: the child's kind and span,
/// and the source bytes its span bounds.
pub open spec fn item_of(content: Seq<u8>, c: ChildNode) -> GItem {
    GItem {
        kind: c.kind,
        content: content.subrange(c.span.start_byte as int, c.span.end_byte as int),
        span: c.span,
    }
}

/// Items yielded from trying to enter the root child at index `sec`: if it
/// is a section whose second child is a name with a valid span, that name
/// and then whatever follows it; otherwise nothing — the traversal ends.
pub open spec fn items_entering(d: GDoc, sec: int) -> Seq<GItem>
    decreases d.tops.len() - sec, 2int, 0int
        when 0 <= sec <= d.tops.len()
{
    if sec < d.tops.len()
        && d.tops[sec].kind == NodeKind::Section
        && d.tops[sec].children.len() >= 2
        && d.tops[sec].children[1].kind == NodeKind::SectionName
        && span_ok(d.content, d.tops[sec].children[1].span)
    {
        seq![item_of(d.content, d.tops[sec].children[1])] + items_after_name(d, sec)
    } else {
        Seq::empty()
    }
}

/// Items yielded after the name of section `sec`: its first statement —
/// expected two siblings past the name, at child index 3 — and then the
/// rest; nothing at all when that expectation fails.
pub open spec fn items_after_name(d: GDoc, sec: int) -> Seq<GItem>
    decreases d.tops.len() - sec, 1int, 0int
        when 0 <= sec < d.tops.len()
{
    let ch = d.tops[sec].children;
    if ch.len() >= 4 && ch[3].kind == NodeKind::Statement && span_ok(d.content, ch[3].span) {
        seq![item_of(d.content, ch[3])] + items_after_stmt(d, sec, 3)
    } else {
        Seq::empty()
    }
}

/// Items yielded after the statement at child index `idx` of section
/// `sec`: the next sibling when it is another statement, else whatever
/// comes of entering the next root child.
pub open spec fn items_after_stmt(d: GDoc, sec: int, idx: int) -> Seq<GItem>
    decreases d.tops.len() - sec, 0int, d.tops[sec].children.len() - idx
        when 0 <= sec < d.tops.len() && 0 <= idx < d.tops[sec].children.len()
{
    let ch = d.tops[sec].children;
    if idx + 1 < ch.len() && ch[idx + 1].kind == NodeKind::Statement {
        if span_ok(d.content, ch[idx + 1].span) {
            seq![item_of(d.content, ch[idx + 1])] + items_after_stmt(d, sec, idx + 1)
        } else {
            Seq::empty()
        }
    } else {
        items_entering(d, sec + 1)
    }
}

/// The complete sequence the flattening traversal yields for document `d`:
/// each visited section's name followed by its statements, in document
/// order, cut short at the first shape mismatch or invalid span.
pub open spec fn spec_items(d: GDoc) -> Seq<GItem> {
    if d.root_kind == NodeKind::SourceFile {
        items_entering(d, 0)
    } else {
        Seq::empty()
    }
}

/// Where a traversal stands: before the first item, on a just-yielded
/// section name or statement (by its indices in the model), or finished.
#[derive(Clone, Copy, PartialEq, Eq, Structural, Debug)]
pub enum IterState {
    Start,
    AtName { sec: usize },
    AtStmt { sec: usize, idx: usize },
    Done,
}

/// The state's indices point at an existing node of document `d`.
pub open spec fn state_inv(d: GDoc, st: IterState) -> bool {
    match st {
        IterState::Start => true,
        IterState::AtName { sec } => sec < d.tops.len(),
        IterState::AtStmt { sec, idx } => sec < d.tops.len()
            && 3 <= idx < d.tops[sec as int].children.len(),
        IterState::Done => true,
    }
}

/// The items a traversal in state `st` over document `d` has yet to yield.
pub open spec fn remaining_items(d: GDoc, st: IterState) -> Seq<GItem> {
    match st {
        IterState::Start => spec_items(d),
        IterState::AtName { sec } => items_after_name(d, sec as int),
        IterState::AtStmt { sec, idx } => items_after_stmt(d, sec as int, idx as int),
        IterState::Done => Seq::empty(),
    }
}

/// The views of a sequence of yielded items.
pub open spec fn views_of(s: Seq<EDSNode>) -> Seq<GItem> {
    s.map_values(|n: EDSNode| n@)
}

/// The item is a statement whose row range meets `first_row..=last_row`.
pub open spec fn stmt_overlaps_rows(it: GItem, first_row: int, last_row: int) -> bool {
    it.kind == NodeKind::Statement && it.span.start_point.row <= last_row && first_row
        <= it.span.end_point.row
}

/// The items of `s` that are statements meeting `first_row..=last_row`,
/// in their order in `s`.
pub open spec fn rows_selection(s: Seq<GItem>, first_row: int, last_row: int) -> Seq<GItem> {
    s.filter(|it: GItem| stmt_overlaps_rows(it, first_row, last_row))
}

/// A fresh `EDSNode` of the same value.
fn copy_node(n: &EDSNode) -> (r: EDSNode)
    ensures
        r@ == n@,
{
    let len: usize = n.content.len();
    let bytes = copy_range(&n.content, 0, len);
    proof {
        assert(n.content@.subrange(0, n.content@.len() as int) =~= n.content@);
    }
    EDSNode { kind: n.kind, content: bytes, span: n.span }
}

/// Copy of the bytes of `v` at indices `start..end`.
fn copy_range(v: &Vec<u8>, start: usize, end: usize) -> (r: Vec<u8>)
    requires
        start <= end,
        end <= v.len(),
    ensures
        r@ == v@.subrange(start as int, end as int),
{
    let mut r: Vec<u8> = Vec::new();
    let mut i: usize = start;
    while i < end
        invariant
            start <= i <= end,
            end <= v.len(),
            r@ == v@.subrange(start as int, i as int),
        decreases end - i,
    {
        r.push(v[i]);
        proof {
            assert(v@.subrange(start as int, i + 1 as int)
                =~= v@.subrange(start as int, i as int).push(v@[i as int]));
        }
        i = i + 1;
    }
    r
}

/// Try to enter the root child at index `sec`: when it is a section whose
/// second child is a name with a valid span, yield that name; otherwise
/// yield nothing. Mirrors `items_entering`.
fn try_enter(d: &EDS, sec: usize) -> (r: Option<EDSNode>)
    requires
        sec <= d@.tops.len(),
    ensures
        match r {
            Some(node) => sec < d@.tops.len()
                && items_entering(d@, sec as int)
                    == seq![node@] + items_after_name(d@, sec as int),
            None => items_entering(d@, sec as int) == Seq::<GItem>::empty(),
        },
{
    if sec < d.tops.len() {
        let t: &TopNode = &d.tops[sec];
        proof {
            assert(d@.tops[sec as int] == t@);
        }
        if t.kind == NodeKind::Section && t.children.len() >= 2 {
            let c: ChildNode = t.children[1];
            if c.kind == NodeKind::SectionName
                && c.span.start_byte <= c.span.end_byte
                && c.span.end_byte <= d.content.len()
            {
                let bytes = copy_range(&d.content, c.span.start_byte, c.span.end_byte);
                let node = EDSNode { kind: c.kind, content: bytes, span: c.span };
                proof {
                    assert(node@ == item_of(d@.content, d@.tops[sec as int].children[1]));
                }
                return Some(node);
            }
        }
    }
    None
}

/// Try to read the child at index `idx` of section `sec` as a statement
/// with a valid span, yielding it on success.
fn try_statement(d: &EDS, sec: usize, idx: usize) -> (r: Option<EDSNode>)
    requires
        sec < d@.tops.len(),
        idx < d@.tops[sec as int].children.len(),
    ensures
        match r {
            Some(node) => d@.tops[sec as int].children[idx as int].kind == NodeKind::Statement
                && span_ok(d@.content, d@.tops[sec as int].children[idx as int].span)
                && node@ == item_of(d@.content, d@.tops[sec as int].children[idx as int]),
            None => d@.tops[sec as int].children[idx as int].kind != NodeKind::Statement
                || !span_ok(d@.content, d@.tops[sec as int].children[idx as int].span),
        },
{
    let t: &TopNode = &d.tops[sec];
    proof {
        assert(d@.tops[sec as int] == t@);
    }
    let c: ChildNode = t.children[idx];
    if c.kind == NodeKind::Statement
        && c.span.start_byte <= c.span.end_byte
        && c.span.end_byte <= d.content.len()
    {
        let bytes = copy_range(&d.content, c.span.start_byte, c.span.end_byte);
        Some(EDSNode { kind: c.kind, content: bytes, span: c.span })
    } else {
        None
    }
}

/// A forward-only traversal over one document. It holds nothing but its
/// position; the document is passed to each step read-only, so a document
/// may be traversed many times, each pass independent.
pub struct EDSIterator {
    pub state: IterState,
}

impl EDSIterator {
    /// Advance one step: yield the next unit of the document, or yield
    /// nothing and stop for good — at the end of the document as much as
    /// at the first shape the traversal does not expect.
    pub fn next(&mut self, d: &EDS) -> (r: Option<EDSNode>)
        requires
            state_inv(d@, old(self).state),
        ensures
            state_inv(d@, final(self).state),
            match r {
                Some(node) => remaining_items(d@, old(self).state).len() > 0
                    && node@ == remaining_items(d@, old(self).state)[0]
                    && remaining_items(d@, final(self).state)
                        == remaining_items(d@, old(self).state).drop_first(),
                None => remaining_items(d@, old(self).state).len() == 0
                    && final(self).state == IterState::Done,
            },
    {
        match self.state {
            IterState::Start => {
                if d.root_kind == NodeKind::SourceFile {
                    match try_enter(d, 0) {
                        Some(node) => {
                            self.state = IterState::AtName { sec: 0 };
                            proof {
                                assert(remaining_items(d@, IterState::AtName { sec: 0 })
                                    =~= remaining_items(d@, IterState::Start).drop_first());
                            }
                            Some(node)
                        }
                        None => {
                            self.state = IterState::Done;
                            None
                        }
                    }
                } else {
                    self.state = IterState::Done;
                    None
                }
            }
            IterState::AtName { sec } => {
                let t_len: usize = d.tops[sec].children.len();
                if t_len >= 4 {
                    match try_statement(d, sec, 3) {
                        Some(node) => {
                            self.state = IterState::AtStmt { sec, idx: 3 };
                            proof {
                                assert(remaining_items(d@, IterState::AtStmt { sec, idx: 3 })
                                    =~= remaining_items(d@, IterState::AtName { sec })
                                        .drop_first());
                            }
                            Some(node)
                        }
                        None => {
                            self.state = IterState::Done;
                            None
                        }
                    }
                } else {
                    self.state = IterState::Done;
                    None
                }
            }
            IterState::AtStmt { sec, idx } => {
                let t_len: usize = d.tops[sec].children.len();
                if idx + 1 < t_len {
                    match try_statement(d, sec, idx + 1) {
                        Some(node) => {
                            self.state = IterState::AtStmt { sec, idx: idx + 1 };
                            proof {
                                assert(remaining_items(
                                    d@,
                                    IterState::AtStmt { sec, idx: (idx + 1) as usize },
                                ) =~= remaining_items(d@, IterState::AtStmt { sec, idx })
                                    .drop_first());
                            }
                            Some(node)
                        }
                        None => {
                            // The next sibling is no statement, or cannot be
                            // decoded: in the first case the traversal steps
                            // back up and tries the next section.
                            if d.tops[sec].children[idx + 1].kind == NodeKind::Statement {
                                self.state = IterState::Done;
                                return None;
                            }
                            self.cross_section(d, sec)
                        }
                    }
                } else {
                    self.cross_section(d, sec)
                }
            }
            IterState::Done => None,
        }
    }

    /// Step from the end of section `sec`'s statements to the name of the
    /// next section, when it has the expected shape.
    fn cross_section(&mut self, d: &EDS, sec: usize) -> (r: Option<EDSNode>)
        requires
            sec < d@.tops.len(),
            state_inv(d@, old(self).state),
            remaining_items(d@, old(self).state) == items_entering(d@, sec + 1),
        ensures
            state_inv(d@, final(self).state),
            match r {
                Some(node) => remaining_items(d@, old(self).state).len() > 0
                    && node@ == remaining_items(d@, old(self).state)[0]
                    && remaining_items(d@, final(self).state)
                        == remaining_items(d@, old(self).state).drop_first(),
                None => remaining_items(d@, old(self).state).len() == 0
                    && final(self).state == IterState::Done,
            },
    {
        proof {
            // The section count fits in usize, so stepping one past the
            // current section cannot overflow.
            vstd::std_specs::vec::axiom_spec_len(&d.tops);
        }
        match try_enter(d, sec + 1) {
            Some(node) => {
                self.state = IterState::AtName { sec: sec + 1 };
                proof {
                    assert(remaining_items(d@, IterState::AtName { sec: (sec + 1) as usize })
                        =~= items_entering(d@, sec + 1).drop_first());
                }
                Some(node)
            }
            None => {
                self.state = IterState::Done;
                None
            }
        }
    }
}

impl EDS {
    /// Wrap source text and its two tree levels as a parsed document. The
    /// traversal checks every shape assumption itself, so any tree shape
    /// is accepted here.
    pub fn new(content: Vec<u8>, root_kind: NodeKind, tops: Vec<TopNode>) -> (d: EDS)
        ensures
            d@.content == content@,
            d@.root_kind == root_kind,
            d@.tops == tops@.map_values(|t: TopNode| t@),
    {
        EDS { content, root_kind, tops }
    }

    /// A fresh traversal over this document, standing before its first item.
    pub fn iter(&self) -> (it: EDSIterator)
        ensures
            it.state == IterState::Start,
            remaining_items(self@, it.state) == spec_items(self@),
    {
        EDSIterator { state: IterState::Start }
    }

    /// Run a fresh traversal to completion and collect every yielded item:
    /// the flat, document-ordered outline of this document.
    pub fn flatten(&self) -> (r: Vec<EDSNode>)
        ensures
            views_of(r@) == spec_items(self@),
    {
        let mut it = self.iter();
        let mut out: Vec<EDSNode> = Vec::new();
        loop
            invariant
                state_inv(self@, it.state),
                views_of(out@) + remaining_items(self@, it.state) == spec_items(self@),
            ensures
                views_of(out@) == spec_items(self@),
            decreases remaining_items(self@, it.state).len(),
        {
            let ghost prev_out = out@;
            let ghost prev_rem = remaining_items(self@, it.state);
            match it.next(self) {
                Some(node) => {
                    out.push(node);
                    proof {
                        assert(views_of(prev_out.push(node))
                            =~= views_of(prev_out).push(node@));
                        assert(views_of(prev_out).push(prev_rem[0]) + prev_rem.drop_first()
                            =~= views_of(prev_out) + prev_rem);
                    }
                }
                None => {
                    proof {
                        assert(views_of(out@) + remaining_items(self@, it.state)
                            =~= views_of(out@));
                    }
                    break;
                }
            }
        }
        out
    }

    /// Run the traversal and keep the statements whose row range meets
    /// `first_row..=last_row`: the document-derived content behind a
    /// request for inline values over that range.
    pub fn statements_in_rows(&self, first_row: usize, last_row: usize) -> (r: Vec<EDSNode>)
        ensures
            views_of(r@) == rows_selection(spec_items(self@), first_row as int, last_row as int),
    {
        let items = self.flatten();
        let ghost s = views_of(items@);
        let mut out: Vec<EDSNode> = Vec::new();
        let mut i: usize = 0;
        proof {
            assert(s.take(0) =~= Seq::<GItem>::empty());
        }
        while i < items.len()
            invariant
                i <= items.len(),
                s == views_of(items@),
                views_of(items@) == spec_items(self@),
                views_of(out@) == rows_selection(
                    s.take(i as int),
                    first_row as int,
                    last_row as int,
                ),
            decreases items.len() - i,
        {
            let ghost prev_out = out@;
            let node = &items[i];
            let keep: bool = node.kind == NodeKind::Statement
                && node.span.start_point.row <= last_row
                && first_row <= node.span.end_point.row;
            if keep {
                let copied = copy_node(node);
                out.push(copied);
                proof {
                    assert(views_of(out@) =~= views_of(prev_out).push(node@));
                }
            }
            proof {
                reveal_with_fuel(Seq::<GItem>::filter, 2);
                let t = s.take(i as int + 1);
                assert(t.drop_last() =~= s.take(i as int));
                assert(t.last() == node@);
                assert(keep == stmt_overlaps_rows(node@, first_row as int, last_row as int));
                if keep {
                    assert(rows_selection(t, first_row as int, last_row as int)
                        == rows_selection(s.take(i as int), first_row as int, last_row as int)
                            .push(node@));
                } else {
                    assert(rows_selection(t, first_row as int, last_row as int)
                        == rows_selection(s.take(i as int), first_row as int, last_row as int));
                }
            }
            i = i + 1;
        }
        proof {
            assert(s.take(items@.len() as int) =~= s);
        }
        out
    }
}

} // verus!
