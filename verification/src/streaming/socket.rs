//! The decisions of a streaming-restore WebSocket connection: which frame
//! answers each client message, and what happens to the stream.

use vstd::prelude::*;
use vstd::string::StringExecFns;

use super::restorer::{fed, stream_error_code, RestorerState, StreamError, StreamManager, StreamRestorer};

verus! {

/// A client message, as the connection classifies it.
pub enum Inbound {
    /// A text frame that is not JSON.
    NotJson,
    /// A JSON message of type `open`.
    Open,
    /// A JSON message of type `chunk`: its sequence number, lane kind and
    /// text where they are present with the right JSON type.
    Chunk { seq: Option<u64>, kind: Option<String>, text: Option<String> },
    /// A JSON message of type `finish`.
    Finish,
    /// A JSON message of type `abort`.
    Abort,
    /// A JSON message of any other type, or none.
    Unknown,
    /// A close frame.
    Close,
    /// A frame that is neither text nor close.
    Ignored,
    /// The connection ended or failed.
    Ended,
}

/// Why an `open` could not get a restorer.
#[derive(Debug, Clone, Copy, PartialEq, Eq, Structural)]
pub enum OpenRefusal {
    /// The message's namespace did not parse.
    InvalidNamespace,
    /// The session could not be restored.
    SessionUnavailable,
}

/// A frame the connection sends.
#[derive(Debug, Clone, PartialEq, Eq)]
pub enum Outbound {
    Opened(String),
    Chunk(u64, String),
    Finished,
    Aborted,
    Error(String),
    Close,
}

/// What the connection does after a message.
pub enum Step {
    /// Send these frames and wait for the next message.
    Continue(Vec<Outbound>),
    /// Parse the namespace and restore the session, then call `opened`.
    PrepareOpen,
    /// Send these frames and end the connection; the stream is gone.
    End(Vec<Outbound>),
}

/// One connection's state: whether its stream was opened and finished.
#[derive(Debug, Clone, Copy, PartialEq, Eq, Structural)]
pub struct SocketState {
    pub opened: bool,
    pub finished: bool,
}

/// The frames of `step`, viewed as their codes and texts.
pub open spec fn frame_view(f: Outbound) -> (int, Seq<char>, u64) {
    match f {
        Outbound::Opened(id) => (0, id@, 0),
        Outbound::Chunk(seq, text) => (1, text@, seq),
        Outbound::Finished => (2, Seq::empty(), 0),
        Outbound::Aborted => (3, Seq::empty(), 0),
        Outbound::Error(code) => (4, code@, 0),
        Outbound::Close => (5, Seq::empty(), 0),
    }
}

pub open spec fn frames_view(fs: Seq<Outbound>) -> Seq<(int, Seq<char>, u64)> {
    Seq::new(fs.len(), |i: int| frame_view(fs[i]))
}

pub open spec fn error_view(code: Seq<char>) -> Seq<(int, Seq<char>, u64)> {
    seq![(4int, code, 0u64)]
}

fn error_frames(code: &str) -> (r: Vec<Outbound>)
    ensures
        frames_view(r@) == error_view(code@),
{
    let mut r: Vec<Outbound> = Vec::new();
    r.push(Outbound::Error(String::from_str(code)));
    assert(frames_view(r@) =~= error_view(code@));
    r
}

fn failure_frames(e: StreamError) -> (r: Vec<Outbound>)
    ensures
        frames_view(r@) == seq![(4int, stream_error_code(e), 0u64), (5int, Seq::<char>::empty(), 0u64)],
{
    let mut r: Vec<Outbound> = Vec::new();
    r.push(Outbound::Error(String::from_str(e.code())));
    r.push(Outbound::Close);
    assert(frames_view(r@) =~= seq![(4int, stream_error_code(e), 0u64), (5int, Seq::<char>::empty(), 0u64)]);
    r
}

pub open spec fn step_frames(s: Step) -> Seq<(int, Seq<char>, u64)> {
    match s {
        Step::Continue(fs) => frames_view(fs@),
        Step::End(fs) => frames_view(fs@),
        Step::PrepareOpen => Seq::empty(),
    }
}

/// The frames that end a connection after stream error `e`.
pub open spec fn failure_view(e: StreamError) -> Seq<(int, Seq<char>, u64)> {
    seq![(4int, stream_error_code(e), 0u64), (5int, Seq::<char>::empty(), 0u64)]
}

/// The lane a chunk is fed to: its kind, `text` when it has none.
pub open spec fn chunk_kind(kind: Option<String>) -> Seq<char> {
    match kind {
        Some(k) => k@,
        None => "text"@,
    }
}

/// The text a chunk carries, empty when it has none.
pub open spec fn chunk_text(text: Option<String>) -> Seq<char> {
    match text {
        Some(t) => t@,
        None => Seq::empty(),
    }
}

/// How a chunk is answered: it is fed to the stream, and the frame carries
/// what the feed gave back; an error ends the connection.
pub open spec fn chunk_answered(
    om: StreamManager,
    nm: StreamManager,
    sid: Seq<char>,
    seq: u64,
    kind: Seq<char>,
    text: Seq<char>,
    r: Step,
) -> bool {
    &&& !om.ids().contains(sid) ==> r is End && step_frames(r) == failure_view(
        StreamError::UnknownStream,
    )
    &&& om.ids().contains(sid) ==> exists|i: int, fr: Result<String, StreamError>, st: RestorerState|
        #![trigger fed(om.state(i), st, seq, kind, text, fr)]
        {
            &&& 0 <= i < om.ids().len()
            &&& om.ids()[i] == sid
            &&& fed(om.state(i), st, seq, kind, text, fr)
            &&& match fr {
                Ok(s) => {
                    &&& r is Continue
                    &&& step_frames(r) == seq![(1int, s@, seq)]
                    &&& nm.ids() == om.ids()
                    &&& nm.state(i) == st
                    &&& forall|j: int|
                        0 <= j < om.ids().len() && j != i ==> nm.state(j) == om.state(j)
                },
                Err(e) => r is End && step_frames(r) == failure_view(e),
            }
        }
}

impl SocketState {
    pub fn new() -> (r: Self)
        ensures
            !r.opened,
            !r.finished,
    {
        SocketState { opened: false, finished: false }
    }

    /// Answers one client message of the connection for stream `stream_id`.
    pub fn on_message(&mut self, manager: &mut StreamManager, stream_id: &str, msg: Inbound) -> (r:
        Step)
        requires
            old(manager).wf(),
        ensures
            final(manager).wf(),
            r is End ==> !final(manager).ids().contains(stream_id@),
            r is Continue || r is PrepareOpen ==> final(manager).ids() == old(manager).ids(),
            match msg {
                Inbound::NotJson | Inbound::Unknown => r is Continue && step_frames(r) == error_view(
                    "invalid_message"@,
                ) && *final(self) == *old(self),
                Inbound::Open => if old(self).opened {
                    r is Continue && step_frames(r) == error_view("stream_already_open"@) && *final(self) == *old(self)
                } else {
                    r is PrepareOpen && *final(self) == *old(self)
                },
                Inbound::Chunk { seq, kind, text } => if !old(self).opened || old(self).finished {
                    r is Continue && step_frames(r) == error_view("invalid_message"@) && *final(self)
                        == *old(self)
                } else if seq is None {
                    r is Continue && step_frames(r) == error_view("invalid_chunk"@) && *final(self)
                        == *old(self)
                } else {
                    &&& *final(self) == *old(self)
                    &&& chunk_answered(
                        *old(manager),
                        *final(manager),
                        stream_id@,
                        seq->0,
                        chunk_kind(kind),
                        chunk_text(text),
                        r,
                    )
                    &&& !(r is PrepareOpen)
                },
                Inbound::Finish => if !old(self).opened || old(self).finished {
                    r is Continue && step_frames(r) == error_view("invalid_message"@) && *final(self)
                        == *old(self)
                } else {
                    &&& r is Continue ==> final(self).finished && final(self).opened && step_frames(r) == seq![
                        (2int, Seq::<char>::empty(), 0u64),
                    ]
                    &&& r is End ==> *final(self) == *old(self) && step_frames(r).len() == 2
                        && step_frames(r)[0].0 == 4 && step_frames(r)[1].0 == 5
                    &&& !(r is PrepareOpen)
                },
                Inbound::Abort => r is End && step_frames(r) == seq![
                    (3int, Seq::<char>::empty(), 0u64),
                    (5int, Seq::<char>::empty(), 0u64),
                ],
                Inbound::Close | Inbound::Ended => r is End && step_frames(r) == Seq::<
                    (int, Seq<char>, u64),
                >::empty(),
                Inbound::Ignored => r is Continue && step_frames(r) == Seq::<
                    (int, Seq<char>, u64),
                >::empty() && *final(self) == *old(self),
            },
    {
        match msg {
            Inbound::NotJson | Inbound::Unknown => Step::Continue(error_frames("invalid_message")),
            Inbound::Open => {
                if self.opened {
                    Step::Continue(error_frames("stream_already_open"))
                } else {
                    Step::PrepareOpen
                }
            },
            Inbound::Chunk { seq, kind, text } => {
                if !self.opened || self.finished {
                    return Step::Continue(error_frames("invalid_message"));
                }
                let seq = match seq {
                    Some(s) => s,
                    None => return Step::Continue(error_frames("invalid_chunk")),
                };
                let kind = match kind {
                    Some(k) => k,
                    None => String::from_str("text"),
                };
                let text = match text {
                    Some(t) => t,
                    None => String::new(),
                };
                let ghost om = *manager;
                let fr = manager.feed(stream_id, seq, kind.as_str(), text.as_str());
                let ghost gfr = fr;
                let ghost mm = *manager;
                match fr {
                    Ok(restored) => {
                        let mut frames: Vec<Outbound> = Vec::new();
                        let ghost rs = restored@;
                        frames.push(Outbound::Chunk(seq, restored));
                        assert(frames_view(frames@) =~= seq![(1int, rs, seq)]);
                        proof {
                            if om.ids().contains(stream_id@) {
                                let i = choose|i: int|
                                    0 <= i < om.ids().len() && om.ids()[i] == stream_id@ && fed(
                                        om.state(i),
                                        mm.state(i),
                                        seq,
                                        kind@,
                                        text@,
                                        gfr,
                                    ) && forall|j: int|
                                        0 <= j < om.ids().len() && j != i ==> mm.state(j) == om.state(j);
                                assert(fed(om.state(i), mm.state(i), seq, kind@, text@, gfr));
                            }
                        }
                        Step::Continue(frames)
                    },
                    Err(e) => {
                        let frames = failure_frames(e);
                        let _ = manager.abort(stream_id);
                        proof {
                            if om.ids().contains(stream_id@) {
                                let i = choose|i: int|
                                    0 <= i < om.ids().len() && om.ids()[i] == stream_id@ && fed(
                                        om.state(i),
                                        mm.state(i),
                                        seq,
                                        kind@,
                                        text@,
                                        gfr,
                                    ) && forall|j: int|
                                        0 <= j < om.ids().len() && j != i ==> mm.state(j) == om.state(j);
                                assert(fed(om.state(i), mm.state(i), seq, kind@, text@, gfr));
                            }
                        }
                        Step::End(frames)
                    },
                }
            },
            Inbound::Finish => {
                if !self.opened || self.finished {
                    return Step::Continue(error_frames("invalid_message"));
                }
                match manager.finish(stream_id) {
                    Ok(()) => {
                        self.finished = true;
                        let mut frames: Vec<Outbound> = Vec::new();
                        frames.push(Outbound::Finished);
                        assert(frames_view(frames@) =~= seq![(2int, Seq::<char>::empty(), 0u64)]);
                        Step::Continue(frames)
                    },
                    Err(e) => {
                        let frames = failure_frames(e);
                        let _ = manager.abort(stream_id);
                        Step::End(frames)
                    },
                }
            },
            Inbound::Abort => {
                let _ = manager.abort(stream_id);
                let mut frames: Vec<Outbound> = Vec::new();
                frames.push(Outbound::Aborted);
                frames.push(Outbound::Close);
                assert(frames_view(frames@) =~= seq![
                    (3int, Seq::<char>::empty(), 0u64),
                    (5int, Seq::<char>::empty(), 0u64),
                ]);
                Step::End(frames)
            },
            Inbound::Close | Inbound::Ended => {
                let _ = manager.abort(stream_id);
                let frames: Vec<Outbound> = Vec::new();
                assert(frames_view(frames@) =~= Seq::<(int, Seq<char>, u64)>::empty());
                Step::End(frames)
            },
            Inbound::Ignored => {
                let frames: Vec<Outbound> = Vec::new();
                assert(frames_view(frames@) =~= Seq::<(int, Seq<char>, u64)>::empty());
                Step::Continue(frames)
            },
        }
    }

    /// Completes an `open` once the namespace was parsed and the session
    /// restored, or refused.
    pub fn opened(
        &mut self,
        manager: &mut StreamManager,
        stream_id: &str,
        prepared: Result<StreamRestorer, OpenRefusal>,
    ) -> (r: Vec<Outbound>)
        requires
            old(manager).wf(),
            prepared matches Ok(restorer) ==> restorer.wf(),
        ensures
            final(manager).wf(),
            prepared == Err::<StreamRestorer, OpenRefusal>(OpenRefusal::InvalidNamespace) ==> frames_view(r@)
                == error_view("invalid_namespace"@) && *final(self) == *old(self) && final(manager).ids() == old(manager).ids(),
            prepared == Err::<StreamRestorer, OpenRefusal>(OpenRefusal::SessionUnavailable) ==> frames_view(r@)
                == error_view("session_unavailable"@) && *final(self) == *old(self) && final(manager).ids() == old(manager).ids(),
            prepared is Ok && old(manager).ids().contains(stream_id@) ==> frames_view(r@)
                == error_view(stream_error_code(StreamError::AlreadyOpen)) && *final(self) == *old(self) && final(manager).ids() == old(manager).ids(),
            prepared is Ok && !old(manager).ids().contains(stream_id@) ==> frames_view(r@) == seq![
                (0int, stream_id@, 0u64),
            ] && final(self).opened && final(self).finished == old(self).finished && final(manager).ids() == old(manager).ids().push(stream_id@),
    {
        match prepared {
            Err(OpenRefusal::InvalidNamespace) => error_frames("invalid_namespace"),
            Err(OpenRefusal::SessionUnavailable) => error_frames("session_unavailable"),
            Ok(restorer) => match manager.open(stream_id, restorer) {
                Ok(()) => {
                    self.opened = true;
                    let mut frames: Vec<Outbound> = Vec::new();
                    frames.push(Outbound::Opened(String::from_str(stream_id)));
                    assert(frames_view(frames@) =~= seq![(0int, stream_id@, 0u64)]);
                    frames
                },
                Err(e) => error_frames(e.code()),
            },
        }
    }
}

} // verus!
