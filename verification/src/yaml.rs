//! The structured configuration tree, its mathematical view, and a faithful
//! block-style re-serializer.
//!
//! A `Node` is a parsed configuration value: a scalar kept losslessly as
//! text, a sequence, or a mapping whose entries keep their declaration
//! order.  The serializer reproduces the block-style text layout that the
//! external composition tool reads back, so a definition can be carried
//! into a synthesized overlay without changing its meaning.

use vstd::prelude::*;
use crate::strutil::push_str;

verus! {

broadcast use vstd::std_specs::vec::group_vec_axioms;

/// One parsed configuration value.
#[derive(Debug)]
pub enum Node {
    /// A literal value, kept losslessly as text.
    Scalar(String),
    /// An ordered sequence of values.
    Sequence(Vec<Node>),
    /// An ordered mapping from keys to values.
    Mapping(Vec<MapEntry>),
}

/// One entry of a mapping node.
#[derive(Debug)]
pub struct MapEntry {
    pub key: Node,
    pub value: Node,
}

/// The mathematical shape of a `Node`.
pub enum NodeView {
    Scalar(Seq<char>),
    Sequence(Seq<NodeView>),
    Mapping(Seq<EntryView>),
}

/// The mathematical shape of a `MapEntry`.
pub struct EntryView {
    pub key: NodeView,
    pub value: NodeView,
}

/// The views of the first `i` nodes of `els`, in order.
pub open spec fn node_views(els: Seq<Node>, i: nat) -> Seq<NodeView>
    decreases els, i, 1nat,
        when i <= els.len()
{
    if i == 0 {
        Seq::empty()
    } else {
        node_views(els, (i - 1) as nat).push(node_view(els[i as int - 1]))
    }
}

/// The views of the first `i` entries of `es`, in order.
pub open spec fn entry_views(es: Seq<MapEntry>, i: nat) -> Seq<EntryView>
    decreases es, i, 1nat,
        when i <= es.len()
{
    if i == 0 {
        Seq::empty()
    } else {
        entry_views(es, (i - 1) as nat).push(
            EntryView {
                key: node_view(es[i as int - 1].key),
                value: node_view(es[i as int - 1].value),
            },
        )
    }
}

pub open spec fn node_view(n: Node) -> NodeView
    decreases n, 0nat, 0nat,
{
    match n {
        Node::Scalar(s) => NodeView::Scalar(s@),
        Node::Sequence(els) => NodeView::Sequence(node_views(els@, els@.len())),
        Node::Mapping(es) => NodeView::Mapping(entry_views(es@, es@.len())),
    }
}

impl View for Node {
    type V = NodeView;

    open spec fn view(&self) -> NodeView {
        node_view(*self)
    }
}

impl View for MapEntry {
    type V = EntryView;

    open spec fn view(&self) -> EntryView {
        EntryView { key: node_view(self.key), value: node_view(self.value) }
    }
}

pub proof fn lemma_node_views(els: Seq<Node>, i: nat)
    requires
        i <= els.len(),
    ensures
        node_views(els, i).len() == i,
        forall|j: int| 0 <= j < i ==> node_views(els, i)[j] == node_view(els[j]),
    decreases i,
{
    if i > 0 {
        lemma_node_views(els, (i - 1) as nat);
    }
}

pub proof fn lemma_entry_views(es: Seq<MapEntry>, i: nat)
    requires
        i <= es.len(),
    ensures
        entry_views(es, i).len() == i,
        forall|j: int|
            0 <= j < i ==> entry_views(es, i)[j] == (EntryView {
                key: node_view(es[j].key),
                value: node_view(es[j].value),
            }),
    decreases i,
{
    if i > 0 {
        lemma_entry_views(es, (i - 1) as nat);
    }
}

/// `k` space characters.
pub open spec fn spec_spaces(k: nat) -> Seq<char> {
    Seq::new(k, |i: int| ' ')
}

/// The block-style text of `n` printed at the given indentation: scalars
/// keep their text, sequence items are introduced by `-`, mapping entries
/// by `key :`, and nested values move two columns to the right.
pub open spec fn spec_ser(n: NodeView, indent: nat) -> Seq<char>
    decreases n, 0nat, 0nat,
{
    match n {
        NodeView::Scalar(s) => s,
        NodeView::Sequence(els) => spec_ser_seq(els, indent, els.len()),
        NodeView::Mapping(es) => spec_ser_map(es, indent, es.len()),
    }
}

/// The text of the first `i` items of a sequence node.
pub open spec fn spec_ser_seq(els: Seq<NodeView>, indent: nat, i: nat) -> Seq<char>
    decreases els, i, 1nat,
        when i <= els.len()
{
    if i == 0 {
        Seq::empty()
    } else {
        spec_ser_seq(els, indent, (i - 1) as nat) + spec_ser_seq_item(els[i as int - 1], indent)
    }
}

/// The text of one sequence item.
pub open spec fn spec_ser_seq_item(el: NodeView, indent: nat) -> Seq<char>
    decreases el, 1nat, 0nat,
{
    spec_spaces(indent) + "-"@ + (match el {
        NodeView::Scalar(s) => " "@ + s + "\n"@,
        _ => "\n"@ + spec_ser(el, (indent + 2) as nat),
    })
}

/// The text of the first `i` entries of a mapping node.
pub open spec fn spec_ser_map(es: Seq<EntryView>, indent: nat, i: nat) -> Seq<char>
    decreases es, i, 1nat,
        when i <= es.len()
{
    if i == 0 {
        Seq::empty()
    } else {
        spec_ser_map(es, indent, (i - 1) as nat) + spec_ser_map_entry(es[i as int - 1], indent)
    }
}

/// The text of one mapping entry.
pub open spec fn spec_ser_map_entry(e: EntryView, indent: nat) -> Seq<char>
    decreases e, 1nat, 0nat,
{
    (match e.key {
        NodeView::Scalar(s) => spec_spaces(indent) + s + " "@,
        _ => spec_ser(e.key, (indent + 2) as nat) + spec_spaces(indent),
    }) + ":"@ + (match e.value {
        NodeView::Scalar(s) => " "@ + s + "\n"@,
        _ => "\n"@ + spec_ser(e.value, (indent + 2) as nat),
    })
}

/// The block-style text of `n` printed at the leftmost column.
pub fn serialize_node(n: &Node) -> (out: String)
    ensures
        out@ == spec_ser(n@, 0),
{
    let mut out = String::new();
    let prefix = String::new();
    proof {
        assert(prefix@ =~= spec_spaces(0));
    }
    ser_node(n, &prefix, Ghost(0nat), &mut out);
    proof {
        assert(out@ =~= spec_ser(n@, 0));
    }
    out
}

fn ser_node(n: &Node, prefix: &String, Ghost(indent): Ghost<nat>, out: &mut String)
    requires
        prefix@ == spec_spaces(indent),
    ensures
        final(out)@ == old(out)@ + spec_ser(n@, indent),
    decreases n@,
{
    let ghost out0 = out@;
    match n {
        Node::Scalar(s) => {
            push_str(out, s.as_str());
            assert(out@ =~= out0 + spec_ser(n@, indent));
        },
        Node::Sequence(els) => {
            let ghost els_v = node_views(els@, els@.len());
            proof {
                lemma_node_views(els@, els@.len());
            }
            let mut child_prefix = prefix.clone();
            push_str(&mut child_prefix, "  ");
            proof {
                reveal_strlit("  ");
                assert(child_prefix@ =~= spec_spaces((indent + 2) as nat));
            }
            let mut i: usize = 0;
            while i < els.len()
                invariant
                    0 <= i <= els@.len(),
                    els_v == node_views(els@, els@.len()),
                    n@ == NodeView::Sequence(els_v),
                    els_v.len() == els@.len(),
                    forall|j: int| 0 <= j < els@.len() ==> els_v[j] == node_view(els@[j]),
                    prefix@ == spec_spaces(indent),
                    child_prefix@ == spec_spaces((indent + 2) as nat),
                    out@ == out0 + spec_ser_seq(els_v, indent, i as nat),
                decreases els@.len() - i,
            {
                let ghost before = out@;
                push_str(out, prefix.as_str());
                push_str(out, "-");
                match &els[i] {
                    Node::Scalar(s) => {
                        push_str(out, " ");
                        push_str(out, s.as_str());
                        push_str(out, "\n");
                    },
                    _ => {
                        push_str(out, "\n");
                        proof {
                            assert(n@->Sequence_0 == els_v);
                            assert(decreases_to!(n@ => n@->Sequence_0));
                            assert(decreases_to!(els_v => els_v[i as int]));
                            assert(els_v[i as int] == node_view(els@[i as int]));
                            assert(decreases_to!(n@ => node_view(els@[i as int])));
                        }
                        ser_node(&els[i], &child_prefix, Ghost((indent + 2) as nat), out);
                    },
                }
                proof {
                    assert(out@ =~= before + spec_ser_seq_item(els_v[i as int], indent));
                    assert(out@ =~= out0 + spec_ser_seq(els_v, indent, (i + 1) as nat));
                }
                i += 1;
            }
            assert(out@ =~= out0 + spec_ser(n@, indent));
        },
        Node::Mapping(es) => {
            let ghost es_v = entry_views(es@, es@.len());
            proof {
                lemma_entry_views(es@, es@.len());
            }
            let mut child_prefix = prefix.clone();
            push_str(&mut child_prefix, "  ");
            proof {
                reveal_strlit("  ");
                assert(child_prefix@ =~= spec_spaces((indent + 2) as nat));
            }
            let mut i: usize = 0;
            while i < es.len()
                invariant
                    0 <= i <= es@.len(),
                    es_v == entry_views(es@, es@.len()),
                    n@ == NodeView::Mapping(es_v),
                    es_v.len() == es@.len(),
                    forall|j: int|
                        0 <= j < es@.len() ==> es_v[j] == (EntryView {
                            key: node_view(es@[j].key),
                            value: node_view(es@[j].value),
                        }),
                    prefix@ == spec_spaces(indent),
                    child_prefix@ == spec_spaces((indent + 2) as nat),
                    out@ == out0 + spec_ser_map(es_v, indent, i as nat),
                decreases es@.len() - i,
            {
                let ghost before = out@;
                match &es[i].key {
                    Node::Scalar(s) => {
                        push_str(out, prefix.as_str());
                        push_str(out, s.as_str());
                        push_str(out, " ");
                    },
                    _ => {
                        proof {
                            assert(n@->Mapping_0 == es_v);
                            assert(decreases_to!(n@ => n@->Mapping_0));
                            assert(decreases_to!(es_v => es_v[i as int]));
                            assert(decreases_to!(es_v[i as int] => es_v[i as int].key));
                            assert(es_v[i as int].key == node_view(es@[i as int].key));
                            assert(decreases_to!(n@ => node_view(es@[i as int].key)));
                        }
                        ser_node(&es[i].key, &child_prefix, Ghost((indent + 2) as nat), out);
                        push_str(out, prefix.as_str());
                    },
                }
                push_str(out, ":");
                match &es[i].value {
                    Node::Scalar(s) => {
                        push_str(out, " ");
                        push_str(out, s.as_str());
                        push_str(out, "\n");
                    },
                    _ => {
                        push_str(out, "\n");
                        proof {
                            assert(n@->Mapping_0 == es_v);
                            assert(decreases_to!(n@ => n@->Mapping_0));
                            assert(decreases_to!(es_v => es_v[i as int]));
                            assert(decreases_to!(es_v[i as int] => es_v[i as int].value));
                            assert(es_v[i as int].value == node_view(es@[i as int].value));
                            assert(decreases_to!(n@ => node_view(es@[i as int].value)));
                        }
                        ser_node(&es[i].value, &child_prefix, Ghost((indent + 2) as nat), out);
                    },
                }
                proof {
                    assert(out@ =~= before + spec_ser_map_entry(es_v[i as int], indent));
                    assert(out@ =~= out0 + spec_ser_map(es_v, indent, (i + 1) as nat));
                }
                i += 1;
            }
            assert(out@ =~= out0 + spec_ser(n@, indent));
        },
    }
}

} // verus!
