use crate::json::{
    children_json, colon, field, head_json, items_json, json_quoted, line_break, node_json,
    serialized,
};
use crate::node::{NodeKind, PathNode};
use crate::tree::FsTree;
use indextree::NodeId;
use vstd::prelude::*;

verus! {

/// A piece of a document: its text, and whether it is layout whitespace.
pub type Piece = (Seq<char>, bool);

/// The text of `ps`, with its layout pieces where `keep_layout` holds and without them
/// otherwise.
pub open spec fn render(ps: Seq<Piece>, keep_layout: bool) -> Seq<char>
    decreases ps.len(),
{
    if ps.len() == 0 {
        Seq::empty()
    } else {
        let last = ps.last();
        render(ps.drop_last(), keep_layout) + if keep_layout || !last.1 {
            last.0
        } else {
            Seq::empty()
        }
    }
}

pub open spec fn is_spaces(s: Seq<char>) -> bool {
    forall|i: int| 0 <= i < s.len() ==> s[i] == ' '
}

/// JSON whitespace made of spaces and line feeds.
pub open spec fn is_whitespace(s: Seq<char>) -> bool {
    forall|i: int| 0 <= i < s.len() ==> s[i] == ' ' || s[i] == '\n'
}

/// One of JSON's six structural characters.
pub open spec fn is_structural(s: Seq<char>) -> bool {
    s == "{"@ || s == "}"@ || s == "["@ || s == "]"@ || s == ","@ || s == ":"@
}

/// Every layout piece is whitespace next to a structural piece, where JSON ignores it.
pub open spec fn layout_ok(ps: Seq<Piece>) -> bool {
    forall|i: int|
        #![trigger ps[i]]
        0 <= i < ps.len() && ps[i].1 ==> is_whitespace(ps[i].0) && ((0 < i && !ps[i - 1].1
            && is_structural(ps[i - 1].0)) || (i + 1 < ps.len() && !ps[i + 1].1 && is_structural(
            ps[i + 1].0,
        )))
}

pub open spec fn brk(indent: Seq<char>) -> Piece {
    ("\n"@ + indent, true)
}

/// A key and its colon, after the punctuation that precedes them.
pub open spec fn key_pieces(punct: Seq<char>, inner: Seq<char>, key: Seq<char>) -> Seq<Piece> {
    seq![(punct, false), brk(inner), (key, false), (":"@, false), (" "@, true)]
}

/// A key and its value, after the punctuation that precedes them.
pub open spec fn field_pieces(punct: Seq<char>, inner: Seq<char>, key: Seq<char>, value: Seq<char>) -> Seq<Piece> {
    key_pieces(punct, inner, key) + seq![(value, false)]
}

pub open spec fn head_pieces(d: PathNode, inner: Seq<char>) -> Seq<Piece> {
    field_pieces("{"@, inner, "\"name\""@, json_quoted(d.name@)) + field_pieces(
        ","@,
        inner,
        "\"relative_path\""@,
        json_quoted(d.relative_path@),
    ) + field_pieces(","@, inner, "\"absolute_path\""@, json_quoted(d.absolute_path@))
        + field_pieces(","@, inner, "\"node_type\""@, "\""@ + d.kind.spec_label() + "\""@)
}

/// The pieces of the object for node `id`.
pub open spec fn node_pieces(t: FsTree, id: NodeId, indent: Seq<char>) -> Seq<Piece>
    decreases t.height(id), t.children_of(id).len() + 2,
{
    let d = t.data_of(id);
    let inner = indent + "  "@;
    let body = if d.kind == NodeKind::Directory {
        key_pieces(","@, inner, "\"children\""@) + children_pieces(t, id, t.children_of(id), inner)
    } else {
        Seq::empty()
    };
    head_pieces(d, inner) + body + seq![brk(indent), ("}"@, false)]
}

/// The pieces of the array of `kids`.
pub open spec fn children_pieces(t: FsTree, parent: NodeId, kids: Seq<NodeId>, indent: Seq<char>) -> Seq<Piece>
    decreases t.height(parent), kids.len() + 1,
{
    if kids.len() == 0 {
        seq![("["@, false), ("]"@, false)]
    } else {
        items_pieces(t, parent, kids, indent + "  "@) + seq![brk(indent), ("]"@, false)]
    }
}

/// The pieces of the elements of the array of `kids`, the opening bracket included.
pub open spec fn items_pieces(t: FsTree, parent: NodeId, kids: Seq<NodeId>, indent: Seq<char>) -> Seq<Piece>
    decreases t.height(parent), kids.len(),
{
    if kids.len() == 0 {
        Seq::empty()
    } else {
        let last = kids.last();
        let punct = if kids.len() > 1 {
            ","@
        } else {
            "["@
        };
        let item = if t.height(last) < t.height(parent) {
            node_pieces(t, last, indent)
        } else {
            Seq::empty()
        };
        items_pieces(t, parent, kids.drop_last(), indent) + seq![(punct, false), brk(indent)] + item
    }
}

/// The pieces of the document for a whole tree.
pub open spec fn document_pieces(t: FsTree) -> Seq<Piece> {
    node_pieces(t, t.spec_root(), Seq::empty())
}

pub proof fn lemma_render_add(a: Seq<Piece>, b: Seq<Piece>, keep_layout: bool)
    ensures
        render(a + b, keep_layout) == render(a, keep_layout) + render(b, keep_layout),
    decreases b.len(),
{
    if b.len() == 0 {
        assert(a + b =~= a);
    } else {
        lemma_render_add(a, b.drop_last(), keep_layout);
        assert((a + b).drop_last() =~= a + b.drop_last());
    }
}

pub proof fn lemma_layout_ok_add(a: Seq<Piece>, b: Seq<Piece>)
    requires
        layout_ok(a),
        layout_ok(b),
    ensures
        layout_ok(a + b),
{
    let c = a + b;
    assert forall|i: int|
        #![trigger c[i]]
        0 <= i < c.len() && c[i].1 implies is_whitespace(c[i].0) && ((0 < i && !c[i - 1].1
            && is_structural(c[i - 1].0)) || (i + 1 < c.len() && !c[i + 1].1 && is_structural(
            c[i + 1].0,
        ))) by {
        if i < a.len() {
            assert(c[i] == a[i]);
            if 0 < i {
                assert(c[i - 1] == a[i - 1]);
            }
            if i + 1 < a.len() {
                assert(c[i + 1] == a[i + 1]);
            }
        } else {
            let j = i - a.len();
            assert(c[i] == b[j]);
            if 0 < j {
                assert(c[i - 1] == b[j - 1]);
            }
            if j + 1 < b.len() {
                assert(c[i + 1] == b[j + 1]);
            }
        }
    }
}


pub proof fn lemma_key_pieces(punct: Seq<char>, inner: Seq<char>, key: Seq<char>, pretty: bool)
    requires
        is_spaces(inner),
        is_structural(punct),
    ensures
        render(key_pieces(punct, inner, key), pretty) == punct + line_break(pretty, inner) + key
            + colon(pretty),
        layout_ok(key_pieces(punct, inner, key)),
{
    let ps = key_pieces(punct, inner, key);
    reveal_with_fuel(render, 6);
    reveal_strlit(":");
    reveal_strlit(" ");
    reveal_strlit(": ");
    reveal_strlit("\n");
    assert(ps.drop_last().drop_last().drop_last().drop_last().drop_last().len() == 0);
    assert(render(ps, pretty) =~= punct + line_break(pretty, inner) + key + colon(pretty));
    assert forall|i: int|
        #![trigger ps[i]]
        0 <= i < ps.len() && ps[i].1 implies is_whitespace(ps[i].0) && ((0 < i && !ps[i - 1].1
            && is_structural(ps[i - 1].0)) || (i + 1 < ps.len() && !ps[i + 1].1 && is_structural(
            ps[i + 1].0,
        ))) by {
        if i == 1 {
            assert(ps[i].0 == "\n"@ + inner);
            assert forall|k: int| 0 <= k < ps[i].0.len() implies ps[i].0[k] == ' ' || ps[i].0[k] == '\n' by {
                if k > 0 {
                    assert(ps[i].0[k] == inner[k - 1]);
                }
            }
        } else {
            assert(i == 4);
        }
    }
}

/// A single token renders as itself and holds no layout.
pub proof fn lemma_token(text: Seq<char>, pretty: bool)
    ensures
        render(seq![(text, false)], pretty) == text,
        layout_ok(seq![(text, false)]),
{
    reveal_with_fuel(render, 2);
    assert(seq![(text, false)].drop_last().len() == 0);
    assert(render(seq![(text, false)], pretty) =~= text);
}

pub proof fn lemma_field_pieces(punct: Seq<char>, inner: Seq<char>, key: Seq<char>, value: Seq<char>, pretty: bool)
    requires
        is_spaces(inner),
        is_structural(punct),
    ensures
        render(field_pieces(punct, inner, key, value), pretty) == punct + field(
            pretty,
            inner,
            key,
            value,
        ),
        layout_ok(field_pieces(punct, inner, key, value)),
{
    lemma_key_pieces(punct, inner, key, pretty);
    lemma_token(value, pretty);
    lemma_render_add(key_pieces(punct, inner, key), seq![(value, false)], pretty);
    lemma_layout_ok_add(key_pieces(punct, inner, key), seq![(value, false)]);
    assert(render(field_pieces(punct, inner, key, value), pretty) =~= punct + field(pretty, inner, key, value));
}

pub proof fn lemma_head_pieces(d: PathNode, inner: Seq<char>, pretty: bool)
    requires
        is_spaces(inner),
    ensures
        render(head_pieces(d, inner), pretty) == head_json(d, pretty, inner),
        layout_ok(head_pieces(d, inner)),
{
    let f1 = field_pieces("{"@, inner, "\"name\""@, json_quoted(d.name@));
    let f2 = field_pieces(","@, inner, "\"relative_path\""@, json_quoted(d.relative_path@));
    let f3 = field_pieces(","@, inner, "\"absolute_path\""@, json_quoted(d.absolute_path@));
    let f4 = field_pieces(","@, inner, "\"node_type\""@, "\""@ + d.kind.spec_label() + "\""@);
    lemma_field_pieces("{"@, inner, "\"name\""@, json_quoted(d.name@), pretty);
    lemma_field_pieces(","@, inner, "\"relative_path\""@, json_quoted(d.relative_path@), pretty);
    lemma_field_pieces(","@, inner, "\"absolute_path\""@, json_quoted(d.absolute_path@), pretty);
    lemma_field_pieces(","@, inner, "\"node_type\""@, "\""@ + d.kind.spec_label() + "\""@, pretty);
    lemma_render_add(f1, f2, pretty);
    lemma_render_add(f1 + f2, f3, pretty);
    lemma_render_add(f1 + f2 + f3, f4, pretty);
    lemma_layout_ok_add(f1, f2);
    lemma_layout_ok_add(f1 + f2, f3);
    lemma_layout_ok_add(f1 + f2 + f3, f4);
    reveal(head_json);
    assert(render(head_pieces(d, inner), pretty) =~= head_json(d, pretty, inner));
}

pub proof fn lemma_spaces_grow(indent: Seq<char>)
    requires
        is_spaces(indent),
    ensures
        is_spaces(indent + "  "@),
{
    reveal_strlit("  ");
    let s = indent + "  "@;
    assert forall|i: int| 0 <= i < s.len() implies s[i] == ' ' by {
        if i >= indent.len() {
            assert(s[i] == "  "@[i - indent.len()]);
        }
    }
}

/// The closing pieces: a line break at `indent` and a structural character.
pub proof fn lemma_closing(indent: Seq<char>, close: Seq<char>, pretty: bool)
    requires
        is_spaces(indent),
        is_structural(close),
    ensures
        render(seq![brk(indent), (close, false)], pretty) == line_break(pretty, indent) + close,
        layout_ok(seq![brk(indent), (close, false)]),
{
    let ps = seq![brk(indent), (close, false)];
    reveal_with_fuel(render, 3);
    reveal_strlit("\n");
    assert(ps.drop_last().drop_last().len() == 0);
    assert(render(ps, pretty) =~= line_break(pretty, indent) + close);
    assert forall|k: int| 0 <= k < ps[0].0.len() implies ps[0].0[k] == ' ' || ps[0].0[k] == '\n' by {
        if k > 0 {
            assert(ps[0].0[k] == indent[k - 1]);
        }
    }
}

/// The opening of an array element: its punctuation and a line break at `indent`.
pub proof fn lemma_opening(punct: Seq<char>, indent: Seq<char>, pretty: bool)
    requires
        is_spaces(indent),
        is_structural(punct),
    ensures
        render(seq![(punct, false), brk(indent)], pretty) == punct + line_break(pretty, indent),
        layout_ok(seq![(punct, false), brk(indent)]),
{
    let ps = seq![(punct, false), brk(indent)];
    reveal_with_fuel(render, 3);
    reveal_strlit("\n");
    assert(ps.drop_last().drop_last().len() == 0);
    assert(render(ps, pretty) =~= punct + line_break(pretty, indent));
    assert forall|k: int| 0 <= k < ps[1].0.len() implies ps[1].0[k] == ' ' || ps[1].0[k] == '\n' by {
        if k > 0 {
            assert(ps[1].0[k] == indent[k - 1]);
        }
    }
}


/// Every handle of `kids` names a node below `parent`.
pub open spec fn kids_below(t: FsTree, parent: NodeId, kids: Seq<NodeId>) -> bool {
    forall|i: int|
        0 <= i < kids.len() ==> t.has(#[trigger] kids[i]) && t.height(kids[i]) < t.height(parent)
}

pub proof fn lemma_node_pieces(t: FsTree, id: NodeId, indent: Seq<char>, pretty: bool)
    requires
        t.wf(),
        t.has(id),
        is_spaces(indent),
    ensures
        render(node_pieces(t, id, indent), pretty) == node_json(t, id, pretty, indent),
        layout_ok(node_pieces(t, id, indent)),
    decreases t.height(id), t.children_of(id).len() + 2,
{
    let d = t.data_of(id);
    let inner = indent + "  "@;
    lemma_spaces_grow(indent);
    lemma_head_pieces(d, inner, pretty);
    reveal_strlit("}");
    lemma_closing(indent, "}"@, pretty);
    let head = head_pieces(d, inner);
    let close = seq![brk(indent), ("}"@, false)];
    if d.kind == NodeKind::Directory {
        let kids = t.children_of(id);
        assert forall|i: int| 0 <= i < kids.len() implies t.has(#[trigger] kids[i]) && t.height(kids[i]) < t.height(id) by {
            t.lemma_children_ranked(id, i);
        }
        reveal_strlit(",");
        let key = key_pieces(","@, inner, "\"children\""@);
        lemma_key_pieces(","@, inner, "\"children\""@, pretty);
        lemma_children_pieces(t, id, kids, inner, pretty);
        let body = key + children_pieces(t, id, kids, inner);
        lemma_render_add(key, children_pieces(t, id, kids, inner), pretty);
        lemma_layout_ok_add(key, children_pieces(t, id, kids, inner));
        lemma_render_add(head, body, pretty);
        lemma_layout_ok_add(head, body);
        lemma_render_add(head + body, close, pretty);
        lemma_layout_ok_add(head + body, close);
        assert(node_pieces(t, id, indent) == head + body + close);
        let cj = children_json(t, id, kids, pretty, inner);
        assert(render(body, pretty) =~= ","@ + field(pretty, inner, "\"children\""@, cj));
        assert(render(node_pieces(t, id, indent), pretty) =~= head_json(d, pretty, inner) + (","@
            + field(pretty, inner, "\"children\""@, cj)) + (line_break(pretty, indent) + "}"@));
    } else {
        lemma_render_add(head, close, pretty);
        lemma_layout_ok_add(head, close);
        assert(node_pieces(t, id, indent) =~= head + close);
        assert(render(node_pieces(t, id, indent), pretty) =~= node_json(t, id, pretty, indent));
    }
}

pub proof fn lemma_children_pieces(t: FsTree, parent: NodeId, kids: Seq<NodeId>, indent: Seq<char>, pretty: bool)
    requires
        t.wf(),
        kids_below(t, parent, kids),
        is_spaces(indent),
    ensures
        render(children_pieces(t, parent, kids, indent), pretty) == children_json(
            t,
            parent,
            kids,
            pretty,
            indent,
        ),
        layout_ok(children_pieces(t, parent, kids, indent)),
    decreases t.height(parent), kids.len() + 1,
{
    reveal_strlit("[");
    reveal_strlit("]");
    reveal_strlit("[]");
    if kids.len() == 0 {
        let ps = seq![("["@, false), ("]"@, false)];
        reveal_with_fuel(render, 3);
        assert(ps.drop_last().drop_last().len() == 0);
        assert(render(ps, pretty) =~= "[]"@);
    } else {
        let inner = indent + "  "@;
        lemma_spaces_grow(indent);
        lemma_items_pieces(t, parent, kids, inner, pretty);
        lemma_closing(indent, "]"@, pretty);
        let items = items_pieces(t, parent, kids, inner);
        let close = seq![brk(indent), ("]"@, false)];
        lemma_render_add(items, close, pretty);
        lemma_layout_ok_add(items, close);
        assert(render(children_pieces(t, parent, kids, indent), pretty) =~= children_json(
            t,
            parent,
            kids,
            pretty,
            indent,
        ));
    }
}

pub proof fn lemma_items_pieces(t: FsTree, parent: NodeId, kids: Seq<NodeId>, indent: Seq<char>, pretty: bool)
    requires
        t.wf(),
        kids_below(t, parent, kids),
        is_spaces(indent),
    ensures
        render(items_pieces(t, parent, kids, indent), pretty) == if kids.len() == 0 {
            Seq::empty()
        } else {
            "["@ + items_json(t, parent, kids, pretty, indent)
        },
        layout_ok(items_pieces(t, parent, kids, indent)),
    decreases t.height(parent), kids.len(),
{
    if kids.len() > 0 {
        reveal_strlit("[");
        reveal_strlit(",");
        let last = kids.last();
        let rest = kids.drop_last();
        assert(kids_below(t, parent, rest)) by {
            assert forall|i: int| 0 <= i < rest.len() implies t.has(#[trigger] rest[i]) && t.height(rest[i]) < t.height(parent) by {
                assert(rest[i] == kids[i]);
            }
        }
        assert(t.has(kids[kids.len() - 1]));
        lemma_items_pieces(t, parent, rest, indent, pretty);
        lemma_node_pieces(t, last, indent, pretty);
        let punct = if kids.len() > 1 {
            ","@
        } else {
            "["@
        };
        lemma_opening(punct, indent, pretty);
        let a = items_pieces(t, parent, rest, indent);
        let b = seq![(punct, false), brk(indent)];
        let c = node_pieces(t, last, indent);
        lemma_render_add(a, b, pretty);
        lemma_layout_ok_add(a, b);
        lemma_render_add(a + b, c, pretty);
        lemma_layout_ok_add(a + b, c);
        assert(items_pieces(t, parent, kids, indent) == a + b + c);
        if kids.len() == 1 {
            assert(rest.len() == 0);
            assert(render(a, pretty) == Seq::<char>::empty());
            assert(items_json(t, parent, rest, pretty, indent) == Seq::<char>::empty());
        }
        assert(render(items_pieces(t, parent, kids, indent), pretty) =~= "["@ + items_json(
            t,
            parent,
            kids,
            pretty,
            indent,
        ));
    } else {
        assert(items_pieces(t, parent, kids, indent) =~= Seq::<Piece>::empty());
    }
}

/// The pretty and the compact documents of a tree are one sequence of pieces, rendered
/// with and without its layout pieces; each layout piece is whitespace next to a
/// structural character, where JSON ignores it. So both parse to the same value.
pub proof fn lemma_layouts_agree(t: FsTree)
    requires
        t.wf(),
    ensures
        render(document_pieces(t), true) == serialized(t, true),
        render(document_pieces(t), false) == serialized(t, false),
        layout_ok(document_pieces(t)),
{
    t.lemma_root_present();
    assert(is_spaces(Seq::<char>::empty()));
    lemma_node_pieces(t, t.spec_root(), Seq::empty(), true);
    lemma_node_pieces(t, t.spec_root(), Seq::empty(), false);
}

} // verus!
