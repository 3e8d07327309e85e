use crate::node::{NodeKind, PathNode};
use crate::tree::FsTree;
use indextree::NodeId;
use vstd::prelude::*;

verus! {

/// A string written as a JSON string literal, quotes and escapes included.
pub uninterp spec fn json_quoted(s: Seq<char>) -> Seq<char>;

/// Relies on serde_json::to_string applied to a `str`: the JSON string literal for `s`.
/// Serializing a `str` into memory does not fail, so the error arm is never taken.
#[verifier::external_body]
fn quote(s: &str) -> (r: String)
    ensures
        r@ == json_quoted(s@),
{
    match serde_json::to_string(s) {
        Ok(q) => q,
        Err(_) => String::new(),
    }
}

/// What separates two tokens: nothing when compact, a line break and the indentation
/// when pretty.
pub open spec fn line_break(pretty: bool, indent: Seq<char>) -> Seq<char> {
    if pretty {
        "\n"@ + indent
    } else {
        Seq::empty()
    }
}

pub open spec fn colon(pretty: bool) -> Seq<char> {
    if pretty {
        ": "@
    } else {
        ":"@
    }
}

/// One key of an object on its own line, with its value.
pub open spec fn field(pretty: bool, indent: Seq<char>, key: Seq<char>, value: Seq<char>) -> Seq<
    char,
> {
    line_break(pretty, indent) + key + colon(pretty) + value
}

/// The opening brace of a node's object and its four attributes, each at `inner`.
#[verifier::opaque]
pub open spec fn head_json(d: PathNode, pretty: bool, inner: Seq<char>) -> Seq<char> {
    "{"@ + field(pretty, inner, "\"name\""@, json_quoted(d.name@)) + ","@ + field(
        pretty,
        inner,
        "\"relative_path\""@,
        json_quoted(d.relative_path@),
    ) + ","@ + field(pretty, inner, "\"absolute_path\""@, json_quoted(d.absolute_path@)) + ","@
        + field(pretty, inner, "\"node_type\""@, "\""@ + d.kind.spec_label() + "\""@)
}

/// The JSON object for node `id` and its descendants, its closing brace at `indent`.
/// Every directory carries a `children` array, empty where it has no children; a file
/// carries no `children` key.
pub open spec fn node_json(t: FsTree, id: NodeId, pretty: bool, indent: Seq<char>) -> Seq<char>
    decreases t.height(id), t.children_of(id).len() + 2,
{
    let d = t.data_of(id);
    let inner = indent + "  "@;
    let head = head_json(d, pretty, inner);
    let body = if d.kind == NodeKind::Directory {
        ","@ + field(
            pretty,
            inner,
            "\"children\""@,
            children_json(t, id, t.children_of(id), pretty, inner),
        )
    } else {
        Seq::empty()
    };
    head + body + line_break(pretty, indent) + "}"@
}

/// The JSON array of the nodes `kids`, its closing bracket at `indent`.
pub open spec fn children_json(
    t: FsTree,
    parent: NodeId,
    kids: Seq<NodeId>,
    pretty: bool,
    indent: Seq<char>,
) -> Seq<char>
    decreases t.height(parent), kids.len() + 1,
{
    if kids.len() == 0 {
        "[]"@
    } else {
        "["@ + items_json(t, parent, kids, pretty, indent + "  "@) + line_break(pretty, indent)
            + "]"@
    }
}

/// The elements of the array of `kids`, each at `indent`, separated by commas.
pub open spec fn items_json(
    t: FsTree,
    parent: NodeId,
    kids: Seq<NodeId>,
    pretty: bool,
    indent: Seq<char>,
) -> Seq<char>
    decreases t.height(parent), kids.len(),
{
    if kids.len() == 0 {
        Seq::empty()
    } else {
        let last = kids.last();
        let sep = if kids.len() > 1 {
            ","@
        } else {
            Seq::empty()
        };
        let item = if t.height(last) < t.height(parent) {
            node_json(t, last, pretty, indent)
        } else {
            Seq::empty()
        };
        items_json(t, parent, kids.drop_last(), pretty, indent) + sep + line_break(pretty, indent)
            + item
    }
}

/// The document for a whole tree.
pub open spec fn serialized(t: FsTree, pretty: bool) -> Seq<char> {
    node_json(t, t.spec_root(), pretty, Seq::empty())
}

/// Serializing one tree twice, in one layout, gives the same text.
pub proof fn lemma_serialize_deterministic(t: FsTree, pretty: bool, a: Seq<char>, b: Seq<char>)
    requires
        a == serialized(t, pretty),
        b == serialized(t, pretty),
    ensures
        a == b,
{
}

/// A File node's object holds its four attributes and no `children` key, and the node
/// has no children in the tree.
pub proof fn lemma_file_object_has_no_children(t: FsTree, id: NodeId, pretty: bool, indent: Seq<char>)
    requires
        t.wf(),
        t.has(id),
        t.data_of(id).kind == NodeKind::File,
    ensures
        t.children_of(id).len() == 0,
        node_json(t, id, pretty, indent) == head_json(t.data_of(id), pretty, indent + "  "@)
            + line_break(pretty, indent) + "}"@,
{
    t.lemma_files_are_leaves(id);
    assert(node_json(t, id, pretty, indent) =~= head_json(t.data_of(id), pretty, indent + "  "@)
        + line_break(pretty, indent) + "}"@);
}

fn put(out: &mut String, s: &str)
    ensures
        final(out)@ == old(out)@ + s@,
{
    out.append(s);
}

fn put_line_break(out: &mut String, pretty: bool, indent: &str)
    ensures
        final(out)@ == old(out)@ + line_break(pretty, indent@),
{
    if pretty {
        proof {
            reveal_strlit("\n");
        }
        put(out, "\n");
        put(out, indent);
        assert(final(out)@ =~= old(out)@ + line_break(pretty, indent@));
    } else {
        assert(out@ =~= out@ + line_break(pretty, indent@));
    }
}

/// Appends one key and its value, which the caller then writes.
fn put_key(out: &mut String, pretty: bool, indent: &str, key: &str)
    ensures
        final(out)@ == old(out)@ + line_break(pretty, indent@) + key@ + colon(pretty),
{
    put_line_break(out, pretty, indent);
    put(out, key);
    if pretty {
        proof {
            reveal_strlit(": ");
        }
        put(out, ": ");
    } else {
        proof {
            reveal_strlit(":");
        }
        put(out, ":");
    }
}


/// Appends the opening brace of a node's object and its four attributes.
fn write_head(d: &PathNode, pretty: bool, inner: &str, out: &mut String)
    ensures
        final(out)@ == old(out)@ + head_json(*d, pretty, inner@),
{
    let ghost start = out@;
    proof {
        reveal_strlit("{");
        reveal_strlit(",");
        reveal_strlit("\"");
        reveal_strlit("\"name\"");
        reveal_strlit("\"relative_path\"");
        reveal_strlit("\"absolute_path\"");
        reveal_strlit("\"node_type\"");
    }
    put(out, "{");
    put_key(out, pretty, inner, "\"name\"");
    put(out, quote(d.name.as_str()).as_str());
    put(out, ",");
    put_key(out, pretty, inner, "\"relative_path\"");
    put(out, quote(d.relative_path.as_str()).as_str());
    put(out, ",");
    put_key(out, pretty, inner, "\"absolute_path\"");
    put(out, quote(d.absolute_path.as_str()).as_str());
    put(out, ",");
    put_key(out, pretty, inner, "\"node_type\"");
    put(out, "\"");
    put(out, d.kind.label());
    put(out, "\"");
    reveal(head_json);
    assert(out@ =~= start + head_json(*d, pretty, inner@));
}

/// Appends the JSON array of the children of `id`.
fn write_children(t: &FsTree, id: NodeId, pretty: bool, indent: &str, out: &mut String)
    requires
        t.wf(),
        t.has(id),
    ensures
        final(out)@ == old(out)@ + children_json(*t, id, t.children_of(id), pretty, indent@),
    decreases t.height(id), 0nat,
{
    let kids = t.children(id);
    if kids.len() == 0 {
        proof {
            reveal_strlit("[]");
        }
        put(out, "[]");
        return;
    }
    let ghost start = out@;
    proof {
        reveal_strlit("[");
        reveal_strlit("]");
        reveal_strlit(",");
        reveal_strlit("  ");
    }
    put(out, "[");
    let item_indent = indent.to_string().concat("  ");
    let ghost open_at = out@;
    let mut i: usize = 0;
    while i < kids.len()
        invariant
            t.wf(),
            t.has(id),
            kids@ == t.children_of(id),
            i <= kids@.len(),
            out@ == open_at + items_json(*t, id, kids@.take(i as int), pretty, item_indent@),
        decreases kids.len() - i,
    {
        let ghost pre = out@;
        if i > 0 {
            put(out, ",");
        }
        put_line_break(out, pretty, item_indent.as_str());
        proof {
            t.lemma_children_ranked(id, i as int);
        }
        write_node(t, kids[i], pretty, item_indent.as_str(), out);
        proof {
            let k1 = kids@.take(i + 1);
            assert(k1.drop_last() =~= kids@.take(i as int));
            assert(k1.last() == kids@[i as int]);
            let sep = if k1.len() > 1 {
                ","@
            } else {
                Seq::<char>::empty()
            };
            assert(out@ =~= pre + sep + line_break(pretty, item_indent@) + node_json(
                *t,
                kids@[i as int],
                pretty,
                item_indent@,
            ));
            assert(out@ =~= open_at + items_json(*t, id, k1, pretty, item_indent@));
        }
        i = i + 1;
    }
    put_line_break(out, pretty, indent);
    put(out, "]");
    proof {
        assert(kids@.take(kids@.len() as int) =~= kids@);
    }
    assert(out@ =~= start + children_json(*t, id, t.children_of(id), pretty, indent@));
}

/// Appends the JSON object of node `id` and its descendants.
fn write_node(t: &FsTree, id: NodeId, pretty: bool, indent: &str, out: &mut String)
    requires
        t.wf(),
        t.has(id),
    ensures
        final(out)@ == old(out)@ + node_json(*t, id, pretty, indent@),
    decreases t.height(id), 1nat,
{
    let ghost start = out@;
    let d = t.data(id);
    let inner = indent.to_string().concat("  ");
    proof {
        reveal_strlit("  ");
        reveal_strlit(",");
        reveal_strlit("}");
        reveal_strlit("\"children\"");
    }
    write_head(d, pretty, inner.as_str(), out);
    if d.kind == NodeKind::Directory {
        put(out, ",");
        put_key(out, pretty, inner.as_str(), "\"children\"");
        write_children(t, id, pretty, inner.as_str(), out);
    }
    put_line_break(out, pretty, indent);
    put(out, "}");
    assert(out@ =~= start + node_json(*t, id, pretty, indent@));
}

/// Renders the whole tree as one JSON document: pretty is indented over many lines,
/// compact is a single line.
pub fn serialize(tree: &FsTree, pretty: bool) -> (r: String)
    requires
        tree.wf(),
    ensures
        r@ == serialized(*tree, pretty),
{
    let mut out = String::new();
    proof {
        tree.lemma_root_present();
        reveal_strlit("");
    }
    write_node(tree, tree.root(), pretty, "", &mut out);
    assert(out@ =~= serialized(*tree, pretty));
    out
}

} // verus!
