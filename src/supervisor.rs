use vstd::prelude::*;

use crate::events::{
    decode_lossy, lossy_text, ChildEvent, ChildEventModel, EventModel, LifecycleEvent, StreamKind,
};
use crate::lines::{
    has_newline, lemma_line_count, lemma_pending_has_no_newline, lemma_split_append,
    lemma_split_no_newline, lines_of, newline_count, pending_of, LineSplitter,
};

verus! {

/// Where a supervisor stands. `Running` is left only for `Terminated`, and
/// neither `SpawnFailed` nor `Terminated` is ever left: a new attempt takes a
/// new supervisor.
#[derive(Clone, Copy, Debug, PartialEq, Eq, Structural)]
pub enum SupervisorState {
    NotStarted,
    Running,
    SpawnFailed,
    Terminated,
}

/// The child could not be started; the message says why.
#[derive(Debug)]
pub struct SpawnFailure {
    pub message: String,
}

/// The mathematical value of a supervisor: its state and the open, not yet
/// newline-terminated, line of each stream.
pub struct SupervisorModel {
    pub state: SupervisorState,
    pub stdout: Seq<u8>,
    pub stderr: Seq<u8>,
}

/// The events for a run of completed lines of one stream, in order.
pub open spec fn line_events(stream: StreamKind, lines: Seq<Seq<u8>>) -> Seq<EventModel> {
    lines.map_values(|l: Seq<u8>| EventModel::OutputLine { stream, text: lossy_text(l) })
}

/// One transition: the supervisor's next value and the events it emits.
/// Outside `Running` nothing is emitted and nothing changes.
pub open spec fn step(m: SupervisorModel, e: ChildEventModel) -> (SupervisorModel, Seq<EventModel>) {
    if m.state != SupervisorState::Running {
        (m, seq![])
    } else {
        match e {
            ChildEventModel::Stdout(b) => (
                SupervisorModel { stdout: pending_of(m.stdout + b), ..m },
                line_events(StreamKind::Stdout, lines_of(m.stdout + b)),
            ),
            ChildEventModel::Stderr(b) => (
                SupervisorModel { stderr: pending_of(m.stderr + b), ..m },
                line_events(StreamKind::Stderr, lines_of(m.stderr + b)),
            ),
            ChildEventModel::ReadError(msg) => (m, seq![EventModel::SpawnError { message: msg }]),
            ChildEventModel::Exited(c) => (
                SupervisorModel { state: SupervisorState::Terminated, ..m },
                seq![EventModel::Terminated { exit_code: c }],
            ),
        }
    }
}

/// A sequence of transitions: the final value and every event, in order.
pub open spec fn run(m: SupervisorModel, es: Seq<ChildEventModel>) -> (
    SupervisorModel,
    Seq<EventModel>,
)
    decreases es.len(),
{
    if es.len() == 0 {
        (m, seq![])
    } else {
        let (m1, o1) = step(m, es[0]);
        let (m2, o2) = run(m1, es.drop_first());
        (m2, o1 + o2)
    }
}

/// The child's output on one stream as an event.
pub open spec fn output(stream: StreamKind, b: Seq<u8>) -> ChildEventModel {
    match stream {
        StreamKind::Stdout => ChildEventModel::Stdout(b),
        StreamKind::Stderr => ChildEventModel::Stderr(b),
    }
}

/// Owns the supervision of one child process: turns what the host reads from
/// the child into lifecycle events.
pub struct ProcessSupervisor {
    state: SupervisorState,
    pid: Option<u32>,
    stdout: LineSplitter,
    stderr: LineSplitter,
}

impl View for ProcessSupervisor {
    type V = SupervisorModel;

    closed spec fn view(&self) -> SupervisorModel {
        SupervisorModel { state: self.state, stdout: self.stdout@, stderr: self.stderr@ }
    }
}

impl ProcessSupervisor {
    /// The open lines hold no newline, and a process id is known exactly
    /// when the child was started.
    pub closed spec fn wf(&self) -> bool {
        &&& model_wf(self@)
        &&& self.stdout.wf()
        &&& self.stderr.wf()
        &&& (self.state == SupervisorState::Running || self.state == SupervisorState::Terminated)
            <==> self.pid is Some
    }

    /// The identity of the child, once it has been started.
    pub closed spec fn spec_pid(&self) -> Option<u32> {
        self.pid
    }

    pub fn new() -> (r: ProcessSupervisor)
        ensures
            r.wf(),
            model_wf(r@),
            r@.state == SupervisorState::NotStarted,
            r@.stdout == Seq::<u8>::empty(),
            r@.stderr == Seq::<u8>::empty(),
            r.spec_pid() is None,
    {
        ProcessSupervisor {
            state: SupervisorState::NotStarted,
            pid: None,
            stdout: LineSplitter::new(),
            stderr: LineSplitter::new(),
        }
    }

    pub fn state(&self) -> (r: SupervisorState)
        ensures
            r == self@.state,
    {
        self.state
    }

    pub fn pid(&self) -> (r: Option<u32>)
        ensures
            r == self.spec_pid(),
    {
        self.pid
    }

    /// Records the outcome of the one spawn attempt: the child's process id,
    /// or the reason it could not be started. A failure is final.
    pub fn start(&mut self, spawned: Result<u32, String>) -> (r: Result<u32, SpawnFailure>)
        requires
            old(self).wf(),
            old(self)@.state == SupervisorState::NotStarted,
        ensures
            final(self).wf(),
            model_wf(final(self)@),
            final(self)@.stdout == old(self)@.stdout,
            final(self)@.stderr == old(self)@.stderr,
            match spawned {
                Ok(pid) => {
                    &&& r == Ok::<u32, SpawnFailure>(pid)
                    &&& final(self)@.state == SupervisorState::Running
                    &&& final(self).spec_pid() == Some(pid)
                },
                Err(msg) => {
                    &&& r is Err
                    &&& r->Err_0.message@ == msg@
                    &&& final(self)@.state == SupervisorState::SpawnFailed
                    &&& final(self).spec_pid() is None
                },
            },
    {
        match spawned {
            Ok(pid) => {
                self.state = SupervisorState::Running;
                self.pid = Some(pid);
                Ok(pid)
            },
            Err(message) => {
                self.state = SupervisorState::SpawnFailed;
                Err(SpawnFailure { message })
            },
        }
    }

    /// Handles one observation of the child and returns the events it gives,
    /// in order.
    pub fn handle(&mut self, event: ChildEvent) -> (out: Vec<LifecycleEvent>)
        requires
            old(self).wf(),
        ensures
            final(self).wf(),
            model_wf(final(self)@),
            final(self).spec_pid() == old(self).spec_pid(),
            final(self)@ == step(old(self)@, event@).0,
            out.deep_view() == step(old(self)@, event@).1,
    {
        if self.state != SupervisorState::Running {
            return Vec::new();
        }
        match event {
            ChildEvent::Stdout(bytes) => {
                let lines = self.stdout.push(bytes.as_slice());
                line_events_of(StreamKind::Stdout, &lines)
            },
            ChildEvent::Stderr(bytes) => {
                let lines = self.stderr.push(bytes.as_slice());
                line_events_of(StreamKind::Stderr, &lines)
            },
            ChildEvent::ReadError(message) => {
                let out = vec![LifecycleEvent::SpawnError { message }];
                proof {
                    assert(out.deep_view() =~= step(old(self)@, event@).1);
                }
                out
            },
            ChildEvent::Exited(exit_code) => {
                self.state = SupervisorState::Terminated;
                let out = vec![LifecycleEvent::Terminated { exit_code }];
                proof {
                    assert(out.deep_view() =~= step(old(self)@, event@).1);
                }
                out
            },
        }
    }
}

/// Decodes completed lines of one stream into events, in order.
fn line_events_of(stream: StreamKind, lines: &Vec<Vec<u8>>) -> (out: Vec<LifecycleEvent>)
    ensures
        out.deep_view() == line_events(stream, lines.deep_view()),
{
    let mut out: Vec<LifecycleEvent> = Vec::new();
    let mut i: usize = 0;
    while i < lines.len()
        invariant
            i <= lines@.len(),
            out.deep_view() == line_events(stream, lines.deep_view().take(i as int)),
        decreases lines@.len() - i,
    {
        let text = decode_lossy(lines[i].as_slice());
        let ghost done = out.deep_view();
        proof {
            assert(lines[i as int]@ =~= lines.deep_view()[i as int]);
        }
        out.push(LifecycleEvent::OutputLine { stream, text });
        proof {
            assert(lines.deep_view().take(i + 1) =~= lines.deep_view().take(i as int).push(
                lines.deep_view()[i as int],
            ));
            let ev = EventModel::OutputLine { stream, text: lossy_text(lines.deep_view()[i as int]) };
            assert(out.deep_view() =~= done.push(ev));
            assert(line_events(stream, lines.deep_view().take(i + 1)) =~= line_events(
                stream,
                lines.deep_view().take(i as int),
            ).push(ev));
        }
        i = i + 1;
    }
    proof {
        assert(lines.deep_view().take(lines@.len() as int) =~= lines.deep_view());
    }
    out
}

/// Once a supervisor is out of `Running` it emits nothing more and stays as it is.
pub proof fn lemma_quiet_outside_running(m: SupervisorModel, es: Seq<ChildEventModel>)
    requires
        m.state != SupervisorState::Running,
    ensures
        run(m, es).1 == Seq::<EventModel>::empty(),
        run(m, es).0 == m,
    decreases es.len(),
{
    if es.len() > 0 {
        lemma_quiet_outside_running(m, es.drop_first());
    }
}

/// How output is cut into chunks does not change the events: two chunks of a
/// stream give what their concatenation gives, and leave the same open line.
pub proof fn law_chunking_is_invisible(
    m: SupervisorModel,
    stream: StreamKind,
    a: Seq<u8>,
    b: Seq<u8>,
)
    ensures
        run(m, seq![output(stream, a), output(stream, b)]) == run(m, seq![output(stream, a + b)]),
{
    reveal_with_fuel(run, 3);
    let two = seq![output(stream, a), output(stream, b)];
    let one = seq![output(stream, a + b)];
    assert(two.drop_first() =~= seq![output(stream, b)]);
    assert(seq![output(stream, b)].drop_first() =~= Seq::<ChildEventModel>::empty());
    assert(one.drop_first() =~= Seq::<ChildEventModel>::empty());
    if m.state == SupervisorState::Running {
        let p = match stream {
            StreamKind::Stdout => m.stdout,
            StreamKind::Stderr => m.stderr,
        };
        lemma_split_append(p + a, b);
        assert(p + a + b =~= p + (a + b));
        assert(line_events(stream, lines_of(p + a) + lines_of(pending_of(p + a) + b))
            =~= line_events(stream, lines_of(p + a)) + line_events(
            stream,
            lines_of(pending_of(p + a) + b),
        ));
        let (m1, o1) = step(m, output(stream, a));
        let (m2, o2) = step(m1, output(stream, b));
        assert(o1 + o2 + Seq::<EventModel>::empty() =~= o1 + o2);
        assert(o1 + (o2 + Seq::<EventModel>::empty()) =~= o1 + o2);
        assert(step(m, output(stream, a + b)).1 + Seq::<EventModel>::empty() =~= step(
            m,
            output(stream, a + b),
        ).1);
    } else {
        lemma_quiet_outside_running(m, two);
        lemma_quiet_outside_running(m, one);
    }
}

/// Output holding `k` newline-terminated lines, followed by the exit of the
/// child, gives exactly `k` line events, in the order of the lines, and then
/// the one termination event. Bytes that are not valid UTF-8 still give their
/// line, decoded lossily.
pub proof fn law_lines_then_termination(
    m: SupervisorModel,
    stream: StreamKind,
    b: Seq<u8>,
    exit_code: Option<i32>,
)
    requires
        m.state == SupervisorState::Running,
        m.stdout == Seq::<u8>::empty(),
        m.stderr == Seq::<u8>::empty(),
    ensures
        ({
            let out = run(m, seq![output(stream, b), ChildEventModel::Exited(exit_code)]).1;
            &&& out.len() == newline_count(b) + 1
            &&& forall|i: int|
                0 <= i < newline_count(b) ==> out[i] == (EventModel::OutputLine {
                    stream,
                    text: lossy_text(lines_of(b)[i]),
                })
            &&& out[newline_count(b) as int] == (EventModel::Terminated { exit_code })
        }),
{
    reveal_with_fuel(run, 3);
    let es = seq![output(stream, b), ChildEventModel::Exited(exit_code)];
    assert(es.drop_first() =~= seq![ChildEventModel::Exited(exit_code)]);
    assert(seq![ChildEventModel::Exited(exit_code)].drop_first() =~= Seq::<
        ChildEventModel,
    >::empty());
    assert(Seq::<u8>::empty() + b =~= b);
    lemma_line_count(b);
    let (m1, o1) = step(m, output(stream, b));
    assert(m1.state == SupervisorState::Running);
    let t = seq![EventModel::Terminated { exit_code }];
    assert(t + Seq::<EventModel>::empty() =~= t);
}

/// A running supervisor emits at most one termination event, always as its
/// last event; it emits it exactly when the child's exit is among the
/// observations, and is then in `Terminated`.
pub proof fn law_single_termination(m: SupervisorModel, es: Seq<ChildEventModel>)
    requires
        m.state == SupervisorState::Running,
    ensures
        ({
            let (last, out) = run(m, es);
            &&& forall|i: int| 0 <= i < out.len() && out[i] is Terminated ==> i == out.len() - 1
            &&& (exists|k: int| 0 <= k < es.len() && es[k] is Exited) <==> (out.len() > 0
                && out.last() is Terminated)
            &&& (exists|k: int| 0 <= k < es.len() && es[k] is Exited) <==> last.state
                == SupervisorState::Terminated
        }),
    decreases es.len(),
{
    if es.len() > 0 {
        let rest = es.drop_first();
        let (m1, o1) = step(m, es[0]);
        let (m2, o2) = run(m1, rest);
        let out = o1 + o2;
        if es[0] is Exited {
            lemma_quiet_outside_running(m1, rest);
            assert(out =~= o1);
        } else {
            law_single_termination(m1, rest);
            assert(forall|i: int| 0 <= i < o1.len() ==> !(o1[i] is Terminated));
            assert forall|i: int| 0 <= i < out.len() && out[i] is Terminated implies i == out.len()
                - 1 by {
                if i >= o1.len() {
                    assert(out[i] == o2[i - o1.len()]);
                }
            }
            if exists|k: int| 0 <= k < es.len() && es[k] is Exited {
                let k = choose|k: int| 0 <= k < es.len() && es[k] is Exited;
                assert(rest[k - 1] is Exited);
            }
            if exists|k: int| 0 <= k < rest.len() && rest[k] is Exited {
                let k = choose|k: int| 0 <= k < rest.len() && rest[k] is Exited;
                assert(es[k + 1] is Exited);
            }
            if o2.len() > 0 {
                assert(out.last() == o2.last());
            } else {
                assert(out =~= o1);
            }
        }
    }
}

/// A supervisor's value is valid when no open line holds a newline.
pub open spec fn model_wf(m: SupervisorModel) -> bool {
    !has_newline(m.stdout) && !has_newline(m.stderr)
}

/// The open line that a supervisor holds for one stream.
pub open spec fn open_line(m: SupervisorModel, stream: StreamKind) -> Seq<u8> {
    match stream {
        StreamKind::Stdout => m.stdout,
        StreamKind::Stderr => m.stderr,
    }
}

/// The chunks joined end to end.
pub open spec fn joined(chunks: Seq<Seq<u8>>) -> Seq<u8>
    decreases chunks.len(),
{
    if chunks.len() == 0 {
        seq![]
    } else {
        chunks[0] + joined(chunks.drop_first())
    }
}

/// Any number of chunks of one stream give, in order, one line event for each
/// line that their bytes complete after the open line, and leave a running
/// supervisor running with the rest as its open line.
pub proof fn law_chunks_give_lines(m: SupervisorModel, stream: StreamKind, chunks: Seq<Seq<u8>>)
    requires
        m.state == SupervisorState::Running,
        model_wf(m),
    ensures
        ({
            let (last, out) = run(m, chunks.map_values(|c: Seq<u8>| output(stream, c)));
            &&& out == line_events(stream, lines_of(open_line(m, stream) + joined(chunks)))
            &&& last.state == SupervisorState::Running
            &&& open_line(last, stream) == pending_of(open_line(m, stream) + joined(chunks))
        }),
    decreases chunks.len(),
{
    let p = open_line(m, stream);
    let es = chunks.map_values(|c: Seq<u8>| output(stream, c));
    if chunks.len() == 0 {
        assert(p + joined(chunks) =~= p);
        lemma_split_no_newline(p);
        assert(line_events(stream, lines_of(p)) =~= Seq::<EventModel>::empty());
    } else {
        let c0 = chunks[0];
        let rest = chunks.drop_first();
        let (m1, o1) = step(m, es[0]);
        assert(es[0] == output(stream, c0));
        assert(es.drop_first() =~= rest.map_values(|c: Seq<u8>| output(stream, c)));
        lemma_pending_has_no_newline(p + c0);
        law_chunks_give_lines(m1, stream, rest);
        let p1 = open_line(m1, stream);
        assert(p1 == pending_of(p + c0));
        lemma_split_append(p + c0, joined(rest));
        assert(p + c0 + joined(rest) =~= p + joined(chunks));
        assert(line_events(stream, lines_of(p + c0) + lines_of(p1 + joined(rest))) =~= line_events(
            stream,
            lines_of(p + c0),
        ) + line_events(stream, lines_of(p1 + joined(rest))));
    }
}

} // verus!
