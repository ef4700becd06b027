//! Selection of the services to wait on, and synthesis of the overlay
//! document that disables every non-selected service.

use vstd::prelude::*;
use crate::services::{table_names, table_view, Service};
use crate::strutil::{contains_name, push_str, seq_views, str_eq};
use crate::yaml::{serialize_node, spec_ser, NodeView};

verus! {

/// The wait set: the requested names when any were given, otherwise every
/// service name of the test document, in declaration order.
pub open spec fn spec_wait_set(
    requested: Seq<Seq<char>>,
    table: Seq<(Seq<char>, NodeView)>,
) -> Seq<Seq<char>> {
    if requested.len() == 0 {
        table_names(table)
    } else {
        requested
    }
}

/// Computes the names to wait on: the requested subset as given when it is
/// non-empty, otherwise every service declared in the test document, in
/// order.  Requested names are not validated against the document.
pub fn resolve_wait_set(requested: &Vec<String>, test_services: &Vec<Service>) -> (r: Vec<String>)
    ensures
        seq_views(r@) == spec_wait_set(seq_views(requested@), table_view(test_services@)),
{
    let mut r: Vec<String> = Vec::new();
    if requested.len() == 0 {
        let mut i: usize = 0;
        while i < test_services.len()
            invariant
                0 <= i <= test_services@.len(),
                r@.len() == i,
                forall|j: int| 0 <= j < i ==> r@[j]@ == test_services@[j].name@,
            decreases test_services@.len() - i,
        {
            r.push(test_services[i].name.clone());
            i += 1;
        }
        proof {
            assert(seq_views(r@) =~= table_names(table_view(test_services@)));
        }
    } else {
        let mut i: usize = 0;
        while i < requested.len()
            invariant
                0 <= i <= requested@.len(),
                r@.len() == i,
                forall|j: int| 0 <= j < i ==> r@[j]@ == requested@[j]@,
            decreases requested@.len() - i,
        {
            r.push(requested[i].clone());
            i += 1;
        }
        proof {
            assert(seq_views(r@) =~= seq_views(requested@));
        }
    }
    r
}

/// With no requested subset, the wait set holds exactly the test document's
/// service names: the same count, the same names at the same positions, and
/// a name is waited on exactly when the test document declares it.
pub proof fn lemma_wait_set_all(table: Seq<(Seq<char>, NodeView)>)
    ensures
        spec_wait_set(Seq::<Seq<char>>::empty(), table).len() == table.len(),
        forall|i: int|
            0 <= i < table.len() ==> spec_wait_set(Seq::<Seq<char>>::empty(), table)[i]
                == table[i].0,
        forall|x: Seq<char>|
            spec_wait_set(Seq::<Seq<char>>::empty(), table).contains(x) <==> (exists|i: int|
                0 <= i < table.len() && table[i].0 == x),
{
    let w = spec_wait_set(Seq::<Seq<char>>::empty(), table);
    assert forall|x: Seq<char>| w.contains(x) implies (exists|i: int|
        0 <= i < table.len() && table[i].0 == x) by {
        let i = choose|i: int| 0 <= i < w.len() && w[i] == x;
        assert(table[i].0 == x);
    }
    assert forall|x: Seq<char>| (exists|i: int| 0 <= i < table.len() && table[i].0 == x) implies w
        .contains(x) by {
        let i = choose|i: int| 0 <= i < table.len() && table[i].0 == x;
        assert(w[i] == x);
    }
}

/// The overlay chunk for one test-document service: a selected service
/// keeps its definition text verbatim; any other service is replaced by an
/// inert echo command that names it and always exits successfully.
pub open spec fn spec_overlay_entry(
    requested: Seq<Seq<char>>,
    name: Seq<char>,
    def: NodeView,
) -> Seq<char> {
    if requested.contains(name) {
        "  "@ + name + ":\n    "@ + spec_ser(def, 0) + "\n"@
    } else {
        "  "@ + name + ":\n    command: echo \"disabled "@ + name + "\"\n"@
    }
}

/// The chunks of the first `i` test-document services, in order.
pub open spec fn spec_overlay_body(
    requested: Seq<Seq<char>>,
    table: Seq<(Seq<char>, NodeView)>,
    i: nat,
) -> Seq<char>
    decreases i,
        when i <= table.len()
{
    if i == 0 {
        Seq::empty()
    } else {
        spec_overlay_body(requested, table, (i - 1) as nat) + spec_overlay_entry(
            requested,
            table[i as int - 1].0,
            table[i as int - 1].1,
        )
    }
}

/// The synthesized overlay document: a "services" header followed by one
/// chunk per test-document service, in declaration order.
pub open spec fn spec_overlay(
    requested: Seq<Seq<char>>,
    table: Seq<(Seq<char>, NodeView)>,
) -> Seq<char> {
    "services:\n"@ + spec_overlay_body(requested, table, table.len())
}

/// Whether the overlay disables the named service: it appears in the test
/// document and was not requested.
pub open spec fn spec_disabled(
    requested: Seq<Seq<char>>,
    table: Seq<(Seq<char>, NodeView)>,
    name: Seq<char>,
) -> bool {
    table_names(table).contains(name) && !requested.contains(name)
}

/// The first `i` names of `names` with every disabled one removed.
pub open spec fn spec_remaining(
    names: Seq<Seq<char>>,
    requested: Seq<Seq<char>>,
    table: Seq<(Seq<char>, NodeView)>,
    i: nat,
) -> Seq<Seq<char>>
    decreases i,
        when i <= names.len()
{
    if i == 0 {
        Seq::empty()
    } else {
        let prev = spec_remaining(names, requested, table, (i - 1) as nat);
        if spec_disabled(requested, table, names[i as int - 1]) {
            prev
        } else {
            prev.push(names[i as int - 1])
        }
    }
}

/// Whether the test document declares a service of the given name.
fn table_contains_name(table: &Vec<Service>, name: &str) -> (r: bool)
    ensures
        r == table_names(table_view(table@)).contains(name@),
{
    let mut i: usize = 0;
    while i < table.len()
        invariant
            0 <= i <= table@.len(),
            forall|j: int| 0 <= j < i ==> table@[j].name@ != name@,
        decreases table@.len() - i,
    {
        if str_eq(table[i].name.as_str(), name) {
            assert(table_names(table_view(table@))[i as int] == name@);
            return true;
        }
        i += 1;
    }
    assert forall|j: int| 0 <= j < table@.len() implies table_names(table_view(table@))[j]
        != name@ by {
        assert(table_names(table_view(table@))[j] == table@[j].name@);
    }
    false
}

/// Synthesizes the overlay document for a requested subset: every selected
/// service keeps its definition verbatim, every other test-document service
/// is replaced by an inert echo command, and every disabled name is removed
/// from the set of other services eligible for verbose logging.
pub fn synthesize_overlay(
    requested: &Vec<String>,
    test_services: &Vec<Service>,
    other_services: &mut Vec<String>,
) -> (overlay: String)
    ensures
        overlay@ == spec_overlay(seq_views(requested@), table_view(test_services@)),
        seq_views(final(other_services)@) == spec_remaining(
            seq_views(old(other_services)@),
            seq_views(requested@),
            table_view(test_services@),
            old(other_services)@.len() as nat,
        ),
{
    let ghost req_v = seq_views(requested@);
    let ghost tbl_v = table_view(test_services@);
    let mut out = String::new();
    push_str(&mut out, "services:\n");
    let mut i: usize = 0;
    while i < test_services.len()
        invariant
            0 <= i <= test_services@.len(),
            req_v == seq_views(requested@),
            tbl_v == table_view(test_services@),
            tbl_v.len() == test_services@.len(),
            out@ == "services:\n"@ + spec_overlay_body(req_v, tbl_v, i as nat),
        decreases test_services@.len() - i,
    {
        let ghost before = out@;
        let name = &test_services[i].name;
        if contains_name(requested, name.as_str()) {
            push_str(&mut out, "  ");
            push_str(&mut out, name.as_str());
            push_str(&mut out, ":\n    ");
            let body = serialize_node(&test_services[i].definition);
            push_str(&mut out, body.as_str());
            push_str(&mut out, "\n");
        } else {
            push_str(&mut out, "  ");
            push_str(&mut out, name.as_str());
            push_str(&mut out, ":\n    command: echo \"disabled ");
            push_str(&mut out, name.as_str());
            push_str(&mut out, "\"\n");
        }
        proof {
            assert(tbl_v[i as int] == (test_services@[i as int].name@, test_services@[i as int].definition@));
            assert(out@ =~= before + spec_overlay_entry(req_v, tbl_v[i as int].0, tbl_v[i as int].1));
            assert(out@ =~= "services:\n"@ + spec_overlay_body(req_v, tbl_v, (i + 1) as nat));
        }
        i += 1;
    }
    let ghost old_names = seq_views(other_services@);
    let mut kept: Vec<String> = Vec::new();
    let mut k: usize = 0;
    while k < other_services.len()
        invariant
            0 <= k <= other_services@.len(),
            other_services@ == old(other_services)@,
            old_names == seq_views(other_services@),
            req_v == seq_views(requested@),
            tbl_v == table_view(test_services@),
            seq_views(kept@) == spec_remaining(old_names, req_v, tbl_v, k as nat),
        decreases other_services@.len() - k,
    {
        let name = &other_services[k];
        let disabled = table_contains_name(test_services, name.as_str()) && !contains_name(
            requested,
            name.as_str(),
        );
        proof {
            assert(old_names[k as int] == other_services@[k as int]@);
            assert(disabled == spec_disabled(req_v, tbl_v, old_names[k as int]));
        }
        if !disabled {
            kept.push(name.clone());
        }
        proof {
            assert(seq_views(kept@) =~= spec_remaining(old_names, req_v, tbl_v, (k + 1) as nat));
        }
        k += 1;
    }
    *other_services = kept;
    out
}

/// The chunks of the test-document services from position `i` on, in order.
pub open spec fn spec_overlay_tail(
    requested: Seq<Seq<char>>,
    table: Seq<(Seq<char>, NodeView)>,
    i: nat,
) -> Seq<char>
    decreases table.len() - i,
        when i <= table.len()
{
    if i >= table.len() {
        Seq::empty()
    } else {
        spec_overlay_entry(requested, table[i as int].0, table[i as int].1) + spec_overlay_tail(
            requested,
            table,
            (i + 1) as nat,
        )
    }
}

proof fn lemma_overlay_body_tail(
    requested: Seq<Seq<char>>,
    table: Seq<(Seq<char>, NodeView)>,
    i: nat,
    j: nat,
)
    requires
        i <= j <= table.len(),
    ensures
        spec_overlay_body(requested, table, j) + spec_overlay_tail(requested, table, j)
            == spec_overlay_body(requested, table, i) + spec_overlay_tail(requested, table, i),
    decreases j - i,
{
    if j > i {
        lemma_overlay_body_tail(requested, table, i, (j - 1) as nat);
        assert(spec_overlay_body(requested, table, j) + spec_overlay_tail(requested, table, j)
            =~= spec_overlay_body(requested, table, (j - 1) as nat) + spec_overlay_tail(
            requested,
            table,
            (j - 1) as nat,
        ));
    }
}

/// For any test-document service, the overlay is exactly the header, the
/// chunks of the services before it, its own chunk, and the chunks of the
/// services after it: a selected service's chunk carries its serialized
/// definition verbatim, and a non-selected service's chunk is the inert
/// echo command for its name, which always exits successfully.
pub proof fn lemma_overlay_faithful(
    requested: Seq<Seq<char>>,
    table: Seq<(Seq<char>, NodeView)>,
    i: int,
)
    requires
        0 <= i < table.len(),
    ensures
        requested.contains(table[i].0) ==> spec_overlay_entry(requested, table[i].0, table[i].1)
            == "  "@ + table[i].0 + ":\n    "@ + spec_ser(table[i].1, 0) + "\n"@,
        !requested.contains(table[i].0) ==> spec_overlay_entry(requested, table[i].0, table[i].1)
            == "  "@ + table[i].0 + ":\n    command: echo \"disabled "@ + table[i].0 + "\"\n"@,
        spec_overlay(requested, table) == "services:\n"@ + spec_overlay_body(
            requested,
            table,
            i as nat,
        ) + spec_overlay_entry(requested, table[i].0, table[i].1) + spec_overlay_tail(
            requested,
            table,
            (i + 1) as nat,
        ),
{
    lemma_overlay_body_tail(requested, table, i as nat, table.len());
    assert(spec_overlay_tail(requested, table, table.len()) =~= Seq::<char>::empty());
    assert(spec_overlay_body(requested, table, table.len()) =~= spec_overlay_body(
        requested,
        table,
        i as nat,
    ) + spec_overlay_tail(requested, table, i as nat));
    assert(spec_overlay(requested, table) =~= "services:\n"@ + spec_overlay_body(
        requested,
        table,
        i as nat,
    ) + spec_overlay_entry(requested, table[i].0, table[i].1) + spec_overlay_tail(
        requested,
        table,
        (i + 1) as nat,
    ));
}

} // verus!
