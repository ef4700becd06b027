//! The run orchestrator's decision logic: the resolved run configuration,
//! the argument lists handed to the external tools, the wait/log plan, and
//! the aggregate exit status.

use vstd::prelude::*;
use crate::Error;
use crate::services::{table_view, Service};
use crate::strutil::{contains_name, push_str, seq_views};

verus! {

/// The resolved configuration of one run, immutable after construction.
pub struct Args {
    pub project_name: String,
    pub verbose: bool,
    pub files: Vec<String>,
    pub service_names: Vec<String>,
    pub docker: String,
    pub docker_compose: String,
}

/// The external name of a service's container: `{project}_{service}_1`,
/// the name the orchestration tool gives a detached single-instance
/// service.
pub open spec fn spec_service_name(project: Seq<char>, service: Seq<char>) -> Seq<char> {
    project + "_"@ + service + "_1"@
}

pub fn service_name(args: &Args, service: &str) -> (r: String)
    ensures
        r@ == spec_service_name(args.project_name@, service@),
{
    let mut r = args.project_name.clone();
    push_str(&mut r, "_");
    push_str(&mut r, service);
    push_str(&mut r, "_1");
    r
}

/// The `-f <file>` pairs for the first `i` document paths, in order.
pub open spec fn spec_file_args(files: Seq<Seq<char>>, i: nat) -> Seq<Seq<char>>
    decreases i,
        when i <= files.len()
{
    if i == 0 {
        Seq::empty()
    } else {
        spec_file_args(files, (i - 1) as nat) + seq!["-f"@, files[i as int - 1]]
    }
}

/// The flags shared by every composition-tool invocation: the project name
/// followed by every document path.
pub open spec fn spec_compose_common(project: Seq<char>, files: Seq<Seq<char>>) -> Seq<Seq<char>> {
    seq!["-p"@, project] + spec_file_args(files, files.len())
}

/// The argument list that brings the composition up detached.
pub open spec fn spec_up_args(project: Seq<char>, files: Seq<Seq<char>>) -> Seq<Seq<char>> {
    spec_compose_common(project, files) + seq!["up"@, "-d"@]
}

/// The argument list that tears the composition down with no grace period.
pub open spec fn spec_down_args(project: Seq<char>, files: Seq<Seq<char>>) -> Seq<Seq<char>> {
    spec_compose_common(project, files) + seq!["down"@, "-t"@, "0"@]
}

fn compose_common_args(args: &Args) -> (r: Vec<String>)
    ensures
        seq_views(r@) == spec_compose_common(args.project_name@, seq_views(args.files@)),
{
    let mut r: Vec<String> = Vec::new();
    r.push("-p".to_owned());
    r.push(args.project_name.clone());
    let mut i: usize = 0;
    while i < args.files.len()
        invariant
            0 <= i <= args.files@.len(),
            r@.len() == 2 + 2 * i,
            r@[0]@ == "-p"@,
            r@[1]@ == args.project_name@,
            seq_views(r@).skip(2) =~= spec_file_args(seq_views(args.files@), i as nat),
        decreases args.files@.len() - i,
    {
        r.push("-f".to_owned());
        r.push(args.files[i].clone());
        proof {
            assert(seq_views(r@).skip(2) =~= spec_file_args(seq_views(args.files@), (i + 1) as nat));
        }
        i += 1;
    }
    proof {
        assert(seq_views(r@) =~= spec_compose_common(args.project_name@, seq_views(args.files@)));
    }
    r
}

/// The full argument list for the composition tool's Up step.
pub fn up_args(args: &Args) -> (r: Vec<String>)
    ensures
        seq_views(r@) == spec_up_args(args.project_name@, seq_views(args.files@)),
{
    let mut r = compose_common_args(args);
    r.push("up".to_owned());
    r.push("-d".to_owned());
    proof {
        assert(seq_views(r@) =~= spec_up_args(args.project_name@, seq_views(args.files@)));
    }
    r
}

/// The full argument list for the composition tool's Down step.
pub fn down_args(args: &Args) -> (r: Vec<String>)
    ensures
        seq_views(r@) == spec_down_args(args.project_name@, seq_views(args.files@)),
{
    let mut r = compose_common_args(args);
    r.push("down".to_owned());
    r.push("-t".to_owned());
    r.push("0".to_owned());
    proof {
        assert(seq_views(r@) =~= spec_down_args(args.project_name@, seq_views(args.files@)));
    }
    r
}

/// The argument list for the container runtime's per-container wait.
pub fn wait_args(args: &Args, service: &str) -> (r: Vec<String>)
    ensures
        seq_views(r@) =~= seq!["wait"@, spec_service_name(args.project_name@, service@)],
{
    let mut r: Vec<String> = Vec::new();
    r.push("wait".to_owned());
    r.push(service_name(args, service));
    r
}

/// The argument list for the container runtime's log streaming.
pub fn log_args(args: &Args, service: &str) -> (r: Vec<String>)
    ensures
        seq_views(r@) =~= seq!["logs"@, spec_service_name(args.project_name@, service@)],
{
    let mut r: Vec<String> = Vec::new();
    r.push("logs".to_owned());
    r.push(service_name(args, service));
    r
}

/// Whether a byte is ASCII whitespace, as trimmed from the wait output.
pub open spec fn is_space(b: u8) -> bool {
    b == 32 || (9 <= b && b <= 13)
}

/// The bytes with all trailing whitespace removed.
pub open spec fn trim_end_ws(s: Seq<u8>) -> Seq<u8>
    decreases s.len(),
{
    if s.len() > 0 && is_space(s.last()) {
        trim_end_ws(s.drop_last())
    } else {
        s
    }
}

pub open spec fn all_digits(s: Seq<u8>) -> bool {
    forall|i: int| 0 <= i < s.len() ==> 48 <= #[trigger] s[i] <= 57
}

/// The value of a sequence of decimal digit bytes.
pub open spec fn digits_val(s: Seq<u8>) -> nat
    decreases s.len(),
{
    if s.len() == 0 {
        0nat
    } else {
        digits_val(s.drop_last()) * 10 + ((s.last() - 48) as nat)
    }
}

/// The digit bytes of the wait output: the trimmed text without its
/// leading sign, if one is present.
pub open spec fn spec_digits_part(s: Seq<u8>) -> Seq<u8> {
    let t = trim_end_ws(s);
    if t.len() > 0 && (t[0] == 45 || t[0] == 43) {
        t.drop_first()
    } else {
        t
    }
}

/// Whether the wait output carries a leading minus sign.
pub open spec fn spec_is_neg(s: Seq<u8>) -> bool {
    let t = trim_end_ws(s);
    t.len() > 0 && t[0] == 45
}

/// The exit code encoded by the wait primitive's output: optional sign,
/// then decimal digits, with trailing whitespace ignored.  Text of any
/// other shape, or a value outside the 32-bit signed range, encodes no
/// code.
pub open spec fn spec_parse_exit_code(s: Seq<u8>) -> Option<i32> {
    let neg = spec_is_neg(s);
    let ds = spec_digits_part(s);
    if ds.len() > 0 && all_digits(ds) {
        let v = digits_val(ds);
        if neg {
            if v <= 2147483648 {
                Some((-(v as int)) as i32)
            } else {
                None
            }
        } else {
            if v <= 2147483647 {
                Some(v as i32)
            } else {
                None
            }
        }
    } else {
        None
    }
}

fn is_space_byte(b: u8) -> (r: bool)
    ensures
        r == is_space(b),
{
    b == 32 || (9 <= b && b <= 13)
}

/// Parses the exit code printed by the per-container wait primitive.
pub fn parse_exit_code(s: &[u8]) -> (r: Result<i32, Error>)
    ensures
        (match r {
            Ok(code) => spec_parse_exit_code(s@) == Some(code),
            Err(e) => spec_parse_exit_code(s@) is None && e matches Error::Parse(_),
        }),
{
    let mut end: usize = s.len();
    proof {
        assert(s@.take(s@.len() as int) =~= s@);
    }
    while end > 0 && is_space_byte(s[end - 1])
        invariant
            0 <= end <= s@.len(),
            trim_end_ws(s@) == trim_end_ws(s@.take(end as int)),
        decreases end,
    {
        proof {
            assert(s@.take(end as int).drop_last() =~= s@.take(end - 1));
        }
        end -= 1;
    }
    let ghost t = trim_end_ws(s@);
    proof {
        assert(t == s@.take(end as int));
    }
    let mut start: usize = 0;
    let mut neg = false;
    if end > 0 && (s[0] == 45 || s[0] == 43) {
        start = 1;
        neg = s[0] == 45;
    }
    if start >= end {
        proof {
            assert(t.len() == end as int);
            let signed = t.len() > 0 && (t[0] == 45 || t[0] == 43);
            let empty_ds = if signed {
                t.drop_first()
            } else {
                t
            };
            if end > 0 {
                assert(t[0] == s@[0]);
                assert(signed);
            }
            assert(empty_ds.len() == 0);
            assert(spec_parse_exit_code(s@) is None);
        }
        return Err(Error::Parse("invalid exit code".to_owned()));
    }
    let ghost ds = if start == 1 {
        t.drop_first()
    } else {
        t
    };
    proof {
        assert(t[0] == s@[0]);
        assert(ds == spec_digits_part(s@));
        assert(neg == spec_is_neg(s@));
        assert(ds =~= s@.subrange(start as int, end as int));
    }
    let mut acc: u64 = 0;
    let mut i: usize = start;
    while i < end
        invariant
            start <= i <= end <= s@.len(),
            ds == s@.subrange(start as int, end as int),
            ds == spec_digits_part(s@),
            all_digits(ds.take(i - start)),
            digits_val(ds.take(i - start)) <= 4294967296 ==> acc == digits_val(
                ds.take(i - start),
            ),
            digits_val(ds.take(i - start)) > 4294967296 ==> acc == 4294967296,
            acc <= 4294967296,
        decreases end - i,
    {
        let b: u8 = s[i];
        if b < 48 || b > 57 {
            proof {
                assert(ds[i - start] == s@[i as int]);
                assert(!all_digits(ds));
            }
            return Err(Error::Parse("invalid exit code".to_owned()));
        }
        proof {
            assert(ds.take(i + 1 - start).drop_last() =~= ds.take(i - start));
            assert(ds.take(i + 1 - start).last() == s@[i as int]);
        }
        if acc >= 4294967296 {
            acc = 4294967296;
        } else {
            acc = acc * 10 + ((b - 48) as u64);
            if acc > 4294967296 {
                acc = 4294967296;
            }
        }
        i += 1;
    }
    proof {
        assert(ds.take(i - start) =~= ds);
        assert(ds.len() > 0);
    }
    if neg {
        if acc > 2147483648 {
            return Err(Error::Parse("invalid exit code".to_owned()));
        }
        let code: i32 = (-(acc as i64)) as i32;
        Ok(code)
    } else {
        if acc > 2147483647 {
            return Err(Error::Parse("invalid exit code".to_owned()));
        }
        let code: i32 = acc as i32;
        Ok(code)
    }
}

/// The aggregate status of a run: the last non-zero exit code observed
/// while walking the wait set in order, or zero when every code is zero.
pub open spec fn spec_aggregate(codes: Seq<i32>) -> i32
    decreases codes.len(),
{
    if codes.len() == 0 {
        0
    } else if codes.last() != 0 {
        codes.last()
    } else {
        spec_aggregate(codes.drop_last())
    }
}

/// The first `i` other-service names that are not already in the wait set.
pub open spec fn spec_other_logs(
    others: Seq<Seq<char>>,
    waits: Seq<Seq<char>>,
    i: nat,
) -> Seq<Seq<char>>
    decreases i,
        when i <= others.len()
{
    if i == 0 {
        Seq::empty()
    } else {
        let prev = spec_other_logs(others, waits, (i - 1) as nat);
        if waits.contains(others[i as int - 1]) {
            prev
        } else {
            prev.push(others[i as int - 1])
        }
    }
}

/// The names whose logs the run shows, in order: in verbose mode every
/// other service not already waited on, then every waited-on service.
pub open spec fn spec_log_plan(
    verbose: bool,
    waits: Seq<Seq<char>>,
    others: Seq<Seq<char>>,
) -> Seq<Seq<char>> {
    (if verbose {
        spec_other_logs(others, waits, others.len())
    } else {
        Seq::<Seq<char>>::empty()
    }) + waits
}

/// The decision core of the wait/log phase.  Given the exit code observed
/// for each waited-on service, in order, yields the run's aggregate status
/// and the ordered list of services whose logs to stream: in verbose mode
/// the remaining other services first, then always the waited-on services.
pub fn wait_and_log(
    args: &Args,
    wait_services: &Vec<String>,
    exit_codes: &Vec<i32>,
    other_services: &Vec<String>,
) -> (r: (i32, Vec<String>))
    requires
        exit_codes@.len() == wait_services@.len(),
    ensures
        r.0 == spec_aggregate(exit_codes@),
        seq_views(r.1@) == spec_log_plan(
            args.verbose,
            seq_views(wait_services@),
            seq_views(other_services@),
        ),
{
    let mut status: i32 = 0;
    let mut i: usize = 0;
    while i < exit_codes.len()
        invariant
            0 <= i <= exit_codes@.len(),
            status == spec_aggregate(exit_codes@.take(i as int)),
        decreases exit_codes@.len() - i,
    {
        proof {
            assert(exit_codes@.take(i + 1).drop_last() =~= exit_codes@.take(i as int));
        }
        if exit_codes[i] != 0 {
            status = exit_codes[i];
        }
        i += 1;
    }
    proof {
        assert(exit_codes@.take(exit_codes@.len() as int) =~= exit_codes@);
    }
    let ghost waits_v = seq_views(wait_services@);
    let ghost others_v = seq_views(other_services@);
    let mut logs: Vec<String> = Vec::new();
    if args.verbose {
        let mut k: usize = 0;
        while k < other_services.len()
            invariant
                0 <= k <= other_services@.len(),
                waits_v == seq_views(wait_services@),
                others_v == seq_views(other_services@),
                seq_views(logs@) == spec_other_logs(others_v, waits_v, k as nat),
            decreases other_services@.len() - k,
        {
            proof {
                assert(others_v[k as int] == other_services@[k as int]@);
            }
            if !contains_name(wait_services, other_services[k].as_str()) {
                logs.push(other_services[k].clone());
            }
            proof {
                assert(seq_views(logs@) =~= spec_other_logs(others_v, waits_v, (k + 1) as nat));
            }
            k += 1;
        }
    }
    let ghost head = seq_views(logs@);
    let mut k: usize = 0;
    while k < wait_services.len()
        invariant
            0 <= k <= wait_services@.len(),
            waits_v == seq_views(wait_services@),
            seq_views(logs@) == head + waits_v.take(k as int),
        decreases wait_services@.len() - k,
    {
        proof {
            assert(waits_v[k as int] == wait_services@[k as int]@);
        }
        let ghost logs0 = logs@;
        logs.push(wait_services[k].clone());
        proof {
            let lhs = seq_views(logs@);
            let rhs = head + waits_v.take(k + 1);
            assert(seq_views(logs0).len() == logs0.len());
            assert(waits_v.take(k as int).len() == k);
            assert(waits_v.take(k + 1).len() == k + 1);
            assert forall|j: int| 0 <= j < lhs.len() implies lhs[j] == rhs[j] by {
                if j < logs0.len() {
                    assert(logs@[j] == logs0[j]);
                    assert(seq_views(logs0)[j] == logs0[j]@);
                } else {
                    assert(rhs[j] == waits_v[k as int]);
                }
            }
            assert(lhs =~= rhs);
        }
        k += 1;
    }
    proof {
        assert(waits_v.take(waits_v.len() as int) =~= waits_v);
        assert(seq_views(logs@) =~= spec_log_plan(args.verbose, waits_v, others_v));
    }
    (status, logs)
}

/// The first `i` of `names`, inserted in order into `set` when absent.
pub open spec fn spec_insert_all(
    set: Seq<Seq<char>>,
    names: Seq<Seq<char>>,
    i: nat,
) -> Seq<Seq<char>>
    decreases i,
        when i <= names.len()
{
    if i == 0 {
        set
    } else {
        let prev = spec_insert_all(set, names, (i - 1) as nat);
        if prev.contains(names[i as int - 1]) {
            prev
        } else {
            prev.push(names[i as int - 1])
        }
    }
}

/// Collects the service names of a non-test document into the set of other
/// services, keeping first-seen order and skipping names already present.
pub fn add_service_names(set: &mut Vec<String>, table: &Vec<Service>)
    ensures
        seq_views(final(set)@) == spec_insert_all(
            seq_views(old(set)@),
            crate::services::table_names(table_view(table@)),
            table@.len() as nat,
        ),
{
    let ghost set0 = seq_views(set@);
    let ghost names = crate::services::table_names(table_view(table@));
    let mut i: usize = 0;
    while i < table.len()
        invariant
            0 <= i <= table@.len(),
            names == crate::services::table_names(table_view(table@)),
            names.len() == table@.len(),
            seq_views(set@) == spec_insert_all(set0, names, i as nat),
        decreases table@.len() - i,
    {
        proof {
            assert(names[i as int] == table@[i as int].name@);
        }
        if !contains_name(set, table[i].name.as_str()) {
            set.push(table[i].name.clone());
            proof {
                assert(seq_views(set@) =~= spec_insert_all(set0, names, (i + 1) as nat));
            }
        } else {
            proof {
                assert(seq_views(set@) =~= spec_insert_all(set0, names, (i + 1) as nat));
            }
        }
        i += 1;
    }
}

} // verus!
