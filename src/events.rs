use vstd::prelude::*;

verus! {

/// Which output stream of the child a line came from.
#[derive(Clone, Copy, Debug, PartialEq, Eq, Structural)]
pub enum StreamKind {
    Stdout,
    Stderr,
}

/// A notification that the supervisor hands to its host.
#[derive(Debug)]
pub enum LifecycleEvent {
    OutputLine { stream: StreamKind, text: String },
    SpawnError { message: String },
    Terminated { exit_code: Option<i32> },
}

/// The mathematical value of a [`LifecycleEvent`].
pub enum EventModel {
    OutputLine { stream: StreamKind, text: Seq<char> },
    SpawnError { message: Seq<char> },
    Terminated { exit_code: Option<i32> },
}

impl DeepView for LifecycleEvent {
    type V = EventModel;

    open spec fn deep_view(&self) -> EventModel {
        match self {
            LifecycleEvent::OutputLine { stream, text } => EventModel::OutputLine {
                stream: *stream,
                text: text@,
            },
            LifecycleEvent::SpawnError { message } => EventModel::SpawnError { message: message@ },
            LifecycleEvent::Terminated { exit_code } => EventModel::Terminated {
                exit_code: *exit_code,
            },
        }
    }
}

/// What the host observed of the running child and reports to the supervisor.
/// The set of kinds is closed: a host that meets a kind of its own ignores it
/// before it gets here.
#[derive(Debug)]
pub enum ChildEvent {
    /// Bytes read from standard output, cut anywhere.
    Stdout(Vec<u8>),
    /// Bytes read from standard error, cut anywhere.
    Stderr(Vec<u8>),
    /// A read failed for a reason other than the end of the stream.
    ReadError(String),
    /// The child exited, with its exit code where the platform gives one.
    Exited(Option<i32>),
}

/// The mathematical value of a [`ChildEvent`].
pub enum ChildEventModel {
    Stdout(Seq<u8>),
    Stderr(Seq<u8>),
    ReadError(Seq<char>),
    Exited(Option<i32>),
}

impl View for ChildEvent {
    type V = ChildEventModel;

    open spec fn view(&self) -> ChildEventModel {
        match self {
            ChildEvent::Stdout(b) => ChildEventModel::Stdout(b@),
            ChildEvent::Stderr(b) => ChildEventModel::Stderr(b@),
            ChildEvent::ReadError(m) => ChildEventModel::ReadError(m@),
            ChildEvent::Exited(c) => ChildEventModel::Exited(*c),
        }
    }
}

/// The text that lossy UTF-8 decoding makes of a byte sequence: valid
/// sequences decode as they are, each invalid one becomes U+FFFD.
pub uninterp spec fn lossy_text(b: Seq<u8>) -> Seq<char>;

/// Relies on `String::from_utf8_lossy`, whose result depends on the bytes
/// alone and which never fails.
#[verifier::external_body]
pub(crate) fn decode_lossy(b: &[u8]) -> (r: String)
    ensures
        r@ == lossy_text(b@),
{
    String::from_utf8_lossy(b).into_owned()
}

} // verus!
