//! One Trace Execution: the state machine that governs a single tracer child
//! process, from resolving the command line out of a definition's content to
//! completion after a fixed number of iterations.
//!
//! The machine itself is pure: spawning, waiting and timing are outside work.
//! The surrounding runtime reports events (spawn outcome, one interval
//! elapsed, a stop request, the child's exit) and this module decides the
//! next state.
use vstd::prelude::*;

use vstd::utf8::{encode_utf8, decode_utf8, is_ascii_chars, is_ascii_chars_encode_utf8};
use crate::model::{Frequency, TraceContent, strings_view, pairs_view};
use crate::store::TraceError;

verus! {

broadcast use vstd::utf8::group_utf8_lib;

/// The phases of a Trace Execution.
#[derive(Clone, Copy, PartialEq, Eq, Structural, Debug)]
pub enum ExecPhase {
    Starting,
    Running,
    Stopping,
    Completed,
    Failed,
}

/// A concrete external-process invocation resolved from a definition.
pub struct Invocation {
    pub program: String,
    pub args: Vec<String>,
    pub envs: Vec<(String, String)>,
}

/// Decimal rendering of a number, most significant digit first.
pub open spec fn spec_decimal(n: nat) -> Seq<char>
    decreases n,
{
    if n < 10 {
        seq![((n + 48) as u8) as char]
    } else {
        spec_decimal(n / 10).push((((n % 10) + 48) as u8) as char)
    }
}

/// The characters the given bytes stand for, one per byte.
pub open spec fn chars_of(s: Seq<u8>) -> Seq<char> {
    s.map_values(|b: u8| b as char)
}

/// Append the decimal digit bytes of `m`, most significant first.
fn push_decimal(out: &mut Vec<u8>, m: usize)
    ensures
        chars_of(final(out)@) == chars_of(old(out)@) + spec_decimal(m as nat),
        forall|i: int|
            old(out)@.len() <= i < final(out)@.len() ==> 48 <= #[trigger] final(out)@[i] <= 57,
        forall|i: int| 0 <= i < old(out)@.len() ==> final(out)@[i] == old(out)@[i],
    decreases m,
{
    if m < 10 {
        out.push((m as u8) + 48);
        proof {
            assert(chars_of(out@) =~= chars_of(old(out)@) + spec_decimal(m as nat));
        }
    } else {
        push_decimal(out, m / 10);
        let ghost mid = out@;
        out.push((m % 10) as u8 + 48);
        proof {
            assert(chars_of(out@) =~= chars_of(mid).push((((m % 10) + 48) as u8) as char));
            assert(chars_of(out@) =~= chars_of(old(out)@) + spec_decimal(m as nat));
        }
    }
}

/// Decimal rendering of a number, proved against [`spec_decimal`].
fn usize_to_decimal(n: usize) -> (r: String)
    ensures
        r@ == spec_decimal(n as nat),
{
    let mut bytes: Vec<u8> = Vec::new();
    push_decimal(&mut bytes, n);
    proof {
        let cs = chars_of(bytes@);
        assert(cs == spec_decimal(n as nat)) by {
            assert(chars_of(Seq::<u8>::empty()) + spec_decimal(n as nat) =~= spec_decimal(
                n as nat,
            ));
        }
        assert(is_ascii_chars(cs)) by {
            assert forall|i: int| 0 <= i < cs.len() implies '\0' <= #[trigger] cs[i]
                <= '\u{7f}' by {
                assert(48 <= bytes@[i] <= 57);
            }
        }
        is_ascii_chars_encode_utf8(cs);
        assert(encode_utf8(cs) =~= bytes@);
    }
    match String::from_utf8(bytes) {
        Ok(s) => {
            proof {
                assert(decode_utf8(encode_utf8(spec_decimal(n as nat))) == spec_decimal(
                    n as nat,
                ));
            }
            s
        },
        Err(_) => {
            // Unreachable: the bytes are a valid (ASCII) encoding.
            proof {
                assert(false);
            }
            String::new()
        },
    }
}

/// The sampling-rate arguments a frequency resolves to.
pub open spec fn spec_freq_args(f: Frequency) -> Seq<Seq<char>> {
    match f {
        Frequency::Max => seq!["-F"@, "max"@],
        Frequency::Default => Seq::<Seq<char>>::empty(),
        Frequency::Specific(n) => seq!["-F"@, spec_decimal(n as nat)],
    }
}

/// The program a content variant runs.
pub open spec fn spec_program(c: <TraceContent as View>::V) -> Seq<char> {
    match c {
        crate::model::TraceContentV::SystemTapV { .. } => "stap"@,
        crate::model::TraceContentV::PerfBranchV { .. } => "perf"@,
    }
}

/// The argument list a content variant resolves to.
pub open spec fn spec_arguments(c: <TraceContent as View>::V) -> Seq<Seq<char>> {
    match c {
        crate::model::TraceContentV::SystemTapV { function_list, process, args, .. } => seq![
            "-x"@,
            process,
        ] + function_list + args,
        crate::model::TraceContentV::PerfBranchV {
            frequency,
            absolute_path,
            additional_args,
        } => seq!["record"@, "-b"@] + spec_freq_args(frequency) + additional_args + seq![
            absolute_path,
        ],
    }
}

/// The environment a content variant resolves to.
pub open spec fn spec_environment(c: <TraceContent as View>::V) -> Seq<(Seq<char>, Seq<char>)> {
    match c {
        crate::model::TraceContentV::SystemTapV { envs, .. } => envs,
        crate::model::TraceContentV::PerfBranchV { .. } => Seq::<(Seq<char>, Seq<char>)>::empty(),
    }
}

fn push_owned(out: &mut Vec<String>, s: &str)
    ensures
        strings_view(final(out)@) == strings_view(old(out)@).push(s@),
{
    out.push(s.to_owned());
    proof {
        assert(strings_view(final(out)@) =~= strings_view(old(out)@).push(s@));
    }
}

proof fn lemma_sv_push(v: Seq<String>, x: String)
    ensures
        strings_view(v.push(x)) == strings_view(v).push(x@),
{
    assert(strings_view(v.push(x)) =~= strings_view(v).push(x@));
}

fn append_all(out: &mut Vec<String>, more: &Vec<String>)
    ensures
        strings_view(final(out)@) == strings_view(old(out)@) + strings_view(more@),
{
    let ghost base = out@;
    let mut i: usize = 0;
    while i < more.len()
        invariant
            0 <= i <= more@.len(),
            strings_view(out@) == strings_view(base) + strings_view(more@.take(i as int)),
        decreases more@.len() - i,
    {
        let ghost before = out@;
        let item = more[i].clone();
        let ghost itemv = item@;
        out.push(item);
        proof {
            assert(itemv == more@[i as int]@);
            assert(out@ == before.push(out@[before.len() as int]));
            lemma_sv_push(before, out@[before.len() as int]);
            assert(strings_view(more@.take(i + 1)) =~= strings_view(more@.take(i as int)).push(
                more@[i as int]@,
            ));
            assert(strings_view(out@) =~= strings_view(base) + strings_view(
                more@.take(i + 1),
            ));
        }
        i = i + 1;
    }
    proof {
        assert(more@.take(more@.len() as int) =~= more@);
        assert(strings_view(out@) =~~= strings_view(base) + strings_view(more@));
    }
}

fn clone_pairs(v: &Vec<(String, String)>) -> (r: Vec<(String, String)>)
    ensures
        pairs_view(r@) == pairs_view(v@),
{
    let mut out: Vec<(String, String)> = Vec::new();
    let mut i: usize = 0;
    while i < v.len()
        invariant
            0 <= i <= v@.len(),
            pairs_view(out@) == pairs_view(v@.take(i as int)),
        decreases v@.len() - i,
    {
        out.push((v[i].0.clone(), v[i].1.clone()));
        proof {
            assert(pairs_view(v@.take(i + 1)) =~= pairs_view(v@.take(i as int)).push(
                (v@[i as int].0@, v@[i as int].1@),
            ));
            assert(pairs_view(out@) =~= pairs_view(v@.take(i + 1)));
        }
        i = i + 1;
    }
    proof {
        assert(v@.take(v@.len() as int) =~= v@);
    }
    out
}

/// Resolve a definition's content into the tracer invocation it stands for.
pub fn plan_invocation(content: &TraceContent) -> (r: Invocation)
    ensures
        r.program@ == spec_program(content@),
        strings_view(r.args@) == spec_arguments(content@),
        pairs_view(r.envs@) == spec_environment(content@),
{
    match content {
        TraceContent::SystemTap { function_list, process, args, envs } => {
            let mut argv: Vec<String> = Vec::new();
            push_owned(&mut argv, "-x");
            push_owned(&mut argv, process.as_str());
            append_all(&mut argv, function_list);
            append_all(&mut argv, args);
            proof {
                assert(strings_view(argv@) =~= spec_arguments(content@));
            }
            let envs2 = clone_pairs(envs);
            proof {
                assert(pairs_view(envs2@) =~= spec_environment(content@));
            }
            Invocation { program: "stap".to_owned(), args: argv, envs: envs2 }
        },
        TraceContent::PerfBranch { frequency, absolute_path, additional_args } => {
            let mut argv: Vec<String> = Vec::new();
            push_owned(&mut argv, "record");
            push_owned(&mut argv, "-b");
            match frequency {
                Frequency::Max => {
                    push_owned(&mut argv, "-F");
                    push_owned(&mut argv, "max");
                },
                Frequency::Default => {
                },
                Frequency::Specific(n) => {
                    push_owned(&mut argv, "-F");
                    let rendered = usize_to_decimal(*n);
                    push_owned(&mut argv, rendered.as_str());
                },
            }
            append_all(&mut argv, additional_args);
            push_owned(&mut argv, absolute_path.as_str());
            proof {
                assert(strings_view(argv@) =~= spec_arguments(content@));
            }
            let envs2: Vec<(String, String)> = Vec::new();
            proof {
                assert(pairs_view(envs2@) =~= spec_environment(content@));
            }
            Invocation { program: "perf".to_owned(), args: argv, envs: envs2 }
        },
    }
}

/// The live state of one Trace Execution.
pub struct TraceExec {
    pub name: String,
    pub phase: ExecPhase,
    pub remaining: usize,
    pub interval: usize,
    pub from_remote: bool,
    /// Opaque output filter, passed through to the tracer's output handling.
    pub pattern: String,
}

/// One completed interval: the budget shrinks by one; at zero the machine
/// completes.
pub open spec fn spec_tick(s: TraceExec) -> TraceExec {
    TraceExec {
        phase: if s.remaining <= 1 {
            ExecPhase::Completed
        } else {
            ExecPhase::Running
        },
        remaining: if s.remaining >= 1 {
            (s.remaining - 1) as usize
        } else {
            0
        },
        ..s
    }
}

/// The machine after `n` completed intervals.
pub open spec fn spec_run_ticks(s: TraceExec, n: nat) -> TraceExec
    decreases n,
{
    if n == 0 {
        s
    } else {
        spec_tick(spec_run_ticks(s, (n - 1) as nat))
    }
}

impl TraceExec {
    /// A fresh execution for a definition, budgeted with `round` iterations.
    pub fn new(name: String, round: usize, interval: usize, from_remote: bool, pattern: String) -> (
        r: Self)
        ensures
            r.name == name,
            r.phase == ExecPhase::Starting,
            r.remaining == round,
            r.interval == interval,
            r.from_remote == from_remote,
            r.pattern == pattern,
    {
        TraceExec {
            name,
            phase: ExecPhase::Starting,
            remaining: round,
            interval,
            from_remote,
            pattern,
        }
    }

    /// Both ways an execution can end.
    pub open spec fn is_terminal(&self) -> bool {
        self.phase == ExecPhase::Completed || self.phase == ExecPhase::Failed
    }

    /// The child process came up.
    pub fn spawn_succeeded(&mut self)
        requires
            old(self).phase == ExecPhase::Starting,
        ensures
            *final(self) == (TraceExec { phase: ExecPhase::Running, ..*old(self) }),
    {
        self.phase = ExecPhase::Running;
    }

    /// The child process could not be spawned: terminal, no retry.
    pub fn spawn_failed(&mut self) -> (r: TraceError)
        requires
            old(self).phase == ExecPhase::Starting,
        ensures
            *final(self) == (TraceExec { phase: ExecPhase::Failed, ..*old(self) }),
            r == TraceError::ProcessSpawn,
    {
        self.phase = ExecPhase::Failed;
        TraceError::ProcessSpawn
    }

    /// One interval elapsed while running.
    pub fn tick(&mut self)
        requires
            old(self).phase == ExecPhase::Running,
        ensures
            *final(self) == spec_tick(*old(self)),
    {
        if self.remaining >= 1 {
            self.remaining = self.remaining - 1;
        }
        if self.remaining == 0 {
            self.phase = ExecPhase::Completed;
        }
    }

    /// An explicit stop request: ask the child to terminate.
    pub fn stop_requested(&mut self)
        requires
            old(self).phase == ExecPhase::Starting || old(self).phase == ExecPhase::Running,
        ensures
            *final(self) == (TraceExec { phase: ExecPhase::Stopping, ..*old(self) }),
    {
        self.phase = ExecPhase::Stopping;
    }

    /// The child exited while the machine waited for it to stop.
    pub fn child_exited(&mut self, clean: bool)
        requires
            old(self).phase == ExecPhase::Stopping,
        ensures
            clean ==> *final(self) == (TraceExec { phase: ExecPhase::Completed, ..*old(self) }),
            !clean ==> *final(self) == (TraceExec { phase: ExecPhase::Failed, ..*old(self) }),
    {
        if clean {
            self.phase = ExecPhase::Completed;
        } else {
            self.phase = ExecPhase::Failed;
        }
    }
}

proof fn lemma_ticks_shift(s: TraceExec, n: nat)
    requires
        n >= 1,
    ensures
        spec_run_ticks(s, n) == spec_run_ticks(spec_tick(s), (n - 1) as nat),
    decreases n,
{
    if n > 1 {
        lemma_ticks_shift(s, (n - 1) as nat);
        assert(spec_run_ticks(s, n) == spec_tick(spec_run_ticks(s, (n - 1) as nat)));
        assert(spec_run_ticks(spec_tick(s), (n - 1) as nat) == spec_tick(
            spec_run_ticks(spec_tick(s), (n - 2) as nat),
        ));
    } else {
        assert(spec_run_ticks(s, 1 as nat) == spec_tick(spec_run_ticks(s, 0 as nat)));
        assert(spec_run_ticks(spec_tick(s), 0 as nat) == spec_tick(s));
    }
}

/// Law: an execution that runs with a budget of `n` iterations completes
/// after exactly `n` of them — it is still running strictly before the last
/// interval, and `Completed` exactly when the budget is spent, with the
/// shared counter at zero.
pub proof fn lemma_completion(s: TraceExec, n: nat)
    requires
        s.phase == ExecPhase::Running,
        s.remaining == n,
        n >= 1,
    ensures
        forall|m: nat| m < n ==> (#[trigger] spec_run_ticks(s, m)).phase == ExecPhase::Running,
        forall|m: nat| m < n ==> (#[trigger] spec_run_ticks(s, m)).remaining == n - m,
        spec_run_ticks(s, n).phase == ExecPhase::Completed,
        spec_run_ticks(s, n).remaining == 0,
    decreases n,
{
    if n == 1 {
        assert(spec_run_ticks(s, 0) == s);
        assert(spec_run_ticks(s, 1) == spec_tick(s));
    } else {
        let s1 = spec_tick(s);
        lemma_completion(s1, (n - 1) as nat);
        lemma_ticks_shift(s, n);
        assert forall|m: nat| m < n implies (#[trigger] spec_run_ticks(s, m)).phase
            == ExecPhase::Running && spec_run_ticks(s, m).remaining == n - m by {
            if m >= 1 {
                lemma_ticks_shift(s, m);
                assert(spec_run_ticks(s1, (m - 1) as nat).phase == ExecPhase::Running);
            }
        }
    }
}

} // verus!
