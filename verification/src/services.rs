//! Extraction of the top-level "services" declarations from a document.

use vstd::prelude::*;
use crate::Error;
use crate::strutil::{push_str, str_eq};
use crate::yaml::{
    entry_views, lemma_entry_views, node_view, EntryView, MapEntry, Node, NodeView,
};

verus! {

/// One service declared by a document: its name and its raw definition.
#[derive(Debug)]
pub struct Service {
    pub name: String,
    pub definition: Node,
}

/// The mathematical content of a service table, in declaration order.
pub open spec fn table_view(tbl: Seq<Service>) -> Seq<(Seq<char>, NodeView)> {
    Seq::new(tbl.len(), |i: int| (tbl[i].name@, node_view(tbl[i].definition)))
}

/// The names of a service table, in declaration order.
pub open spec fn table_names(table: Seq<(Seq<char>, NodeView)>) -> Seq<Seq<char>> {
    Seq::new(table.len(), |i: int| table[i].0)
}

/// Whether a mapping entry is the top-level "services" entry.
pub open spec fn is_services_entry(e: EntryView) -> bool {
    e.key matches NodeView::Scalar(s) && s == "services"@
}

/// The first "services" entry at or after position `i`, if any.
pub open spec fn find_services_from(es: Seq<EntryView>, i: nat) -> Option<EntryView>
    decreases es.len() - i,
        when i <= es.len()
{
    if i >= es.len() {
        None
    } else if is_services_entry(es[i as int]) {
        Some(es[i as int])
    } else {
        find_services_from(es, (i + 1) as nat)
    }
}

pub open spec fn all_keys_scalar(es: Seq<EntryView>) -> bool {
    forall|i: int| 0 <= i < es.len() ==> es[i].key is Scalar
}

/// The (name, definition) pairs of a services mapping whose keys are all
/// scalars, in declaration order.
pub open spec fn entries_table(es: Seq<EntryView>) -> Seq<(Seq<char>, NodeView)> {
    Seq::new(es.len(), |i: int| (es[i].key->Scalar_0, es[i].value))
}

/// The service table declared by a document, or `None` when the document is
/// malformed.  A document whose top level is not a mapping is malformed; one
/// without a "services" entry declares no services; a "services" entry whose
/// value is not a mapping, or a services mapping with a non-scalar key, is
/// malformed.
pub open spec fn spec_extract(doc: NodeView) -> Option<Seq<(Seq<char>, NodeView)>> {
    match doc {
        NodeView::Mapping(es) => match find_services_from(es, 0) {
            None => Some(Seq::empty()),
            Some(e) => match e.value {
                NodeView::Mapping(svcs) => if all_keys_scalar(svcs) {
                    Some(entries_table(svcs))
                } else {
                    None
                },
                _ => None,
            },
        },
        _ => None,
    }
}

/// The message of a malformed-document error: it names the offending file.
pub open spec fn spec_malformed_msg(name: Seq<char>) -> Seq<char> {
    "failed to parse file "@ + name
}

fn malformed(name: &str) -> (e: Error)
    ensures
        e matches Error::Custom(m) && m@ == spec_malformed_msg(name@),
{
    let mut m = String::new();
    push_str(&mut m, "failed to parse file ");
    push_str(&mut m, name);
    proof {
        assert(m@ =~= spec_malformed_msg(name@));
    }
    Error::Custom(m)
}

/// The position of the first top-level "services" entry, if any.
fn find_services_index(entries: &Vec<MapEntry>) -> (r: Option<usize>)
    ensures
        (match r {
            Some(i) => i < entries@.len() && is_services_entry(
                entry_views(entries@, entries@.len())[i as int],
            ) && find_services_from(entry_views(entries@, entries@.len()), 0) == Some(
                entry_views(entries@, entries@.len())[i as int],
            ),
            None => find_services_from(entry_views(entries@, entries@.len()), 0) is None,
        }),
{
    let ghost es_v = entry_views(entries@, entries@.len());
    proof {
        lemma_entry_views(entries@, entries@.len());
    }
    let mut i: usize = 0;
    while i < entries.len()
        invariant
            0 <= i <= entries@.len(),
            es_v == entry_views(entries@, entries@.len()),
            es_v.len() == entries@.len(),
            forall|j: int|
                0 <= j < entries@.len() ==> es_v[j] == (EntryView {
                    key: node_view(entries@[j].key),
                    value: node_view(entries@[j].value),
                }),
            find_services_from(es_v, 0) == find_services_from(es_v, i as nat),
        decreases entries@.len() - i,
    {
        let hit = match &entries[i].key {
            Node::Scalar(s) => str_eq(s.as_str(), "services"),
            _ => false,
        };
        if hit {
            return Some(i);
        }
        i += 1;
    }
    None
}

/// Extracts the ordered service table declared under the document's
/// top-level "services" mapping.  A document without such an entry declares
/// an empty table; a document of the wrong shape is rejected with an error
/// naming the file.
pub fn extract_services(name: &str, doc: Node) -> (r: Result<Vec<Service>, Error>)
    ensures
        (match r {
            Ok(tbl) => spec_extract(doc@) == Some(table_view(tbl@)),
            Err(e) => spec_extract(doc@) is None && (e matches Error::Custom(m) && m@
                == spec_malformed_msg(name@)),
        }),
{
    match doc {
        Node::Mapping(mut entries) => {
            let ghost es_v = entry_views(entries@, entries@.len());
            proof {
                lemma_entry_views(entries@, entries@.len());
                assert(doc@ == NodeView::Mapping(es_v));
            }
            match find_services_index(&entries) {
                None => {
                    assert(spec_extract(doc@) == Some(Seq::<(Seq<char>, NodeView)>::empty()));
                    let tbl: Vec<Service> = Vec::new();
                    assert(table_view(tbl@) =~= Seq::<(Seq<char>, NodeView)>::empty());
                    Ok(tbl)
                },
                Some(i) => {
                    let entry = entries.remove(i);
                    proof {
                        assert(node_view(entry.value) == es_v[i as int].value);
                    }
                    match entry.value {
                        Node::Mapping(mut svcs) => {
                            let ghost svcs0 = svcs@;
                            let ghost sv = entry_views(svcs0, svcs0.len());
                            proof {
                                lemma_entry_views(svcs0, svcs0.len());
                                assert(es_v[i as int].value == NodeView::Mapping(sv));
                                assert(spec_extract(doc@) == (if all_keys_scalar(sv) {
                                    Some(entries_table(sv))
                                } else {
                                    Option::<Seq<(Seq<char>, NodeView)>>::None
                                }));
                            }
                            let total: usize = svcs.len();
                            let mut tbl: Vec<Service> = Vec::new();
                            let mut k: usize = 0;
                            while svcs.len() > 0
                                invariant
                                    svcs0.len() == total as nat,
                                    0 <= k <= svcs0.len(),
                                    svcs@ == svcs0.subrange(k as int, svcs0.len() as int),
                                    sv == entry_views(svcs0, svcs0.len()),
                                    sv.len() == svcs0.len(),
                                    forall|j: int|
                                        0 <= j < svcs0.len() ==> sv[j] == (EntryView {
                                            key: node_view(svcs0[j].key),
                                            value: node_view(svcs0[j].value),
                                        }),
                                    spec_extract(doc@) == (if all_keys_scalar(sv) {
                                        Some(entries_table(sv))
                                    } else {
                                        Option::<Seq<(Seq<char>, NodeView)>>::None
                                    }),
                                    tbl@.len() == k,
                                    forall|j: int| #![trigger sv[j]]
                                        0 <= j < k ==> sv[j].key is Scalar && table_view(tbl@)[j]
                                            == (sv[j].key->Scalar_0, sv[j].value),
                                decreases svcs@.len(),
                            {
                                assert(k < svcs0.len());
                                let en = svcs.remove(0);
                                let ghost tbl0 = tbl@;
                                proof {
                                    assert(en == svcs0[k as int]);
                                    assert(svcs@ =~= svcs0.subrange(k + 1, svcs0.len() as int));
                                }
                                match en.key {
                                    Node::Scalar(s) => {
                                        tbl.push(Service { name: s, definition: en.value });
                                        proof {
                                            assert(sv[k as int].key == NodeView::Scalar(s@));
                                            assert forall|j: int| #![trigger sv[j]] 0 <= j < k + 1 implies sv[j].key
                                                is Scalar && table_view(tbl@)[j] == (
                                            sv[j].key->Scalar_0,
                                            sv[j].value,
                                            ) by {
                                                if j < k {
                                                    assert(tbl@[j] == tbl0[j]);
                                                    assert(table_view(tbl0)[j] == (
                                                    sv[j].key->Scalar_0,
                                                    sv[j].value,
                                                    ));
                                                }
                                            }
                                        }
                                    },
                                    _ => {
                                        assert(!(sv[k as int].key is Scalar));
                                        assert(!all_keys_scalar(sv));
                                        return Err(malformed(name));
                                    },
                                }
                                k += 1;
                            }
                            proof {
                                assert(k == svcs0.len());
                                assert forall|j: int| 0 <= j < sv.len() implies sv[j].key
                                    is Scalar by {}
                                assert(all_keys_scalar(sv));
                                assert(table_view(tbl@) =~= entries_table(sv));
                            }
                            Ok(tbl)
                        },
                        _ => Err(malformed(name)),
                    }
                },
            }
        },
        _ => Err(malformed(name)),
    }
}

} // verus!
