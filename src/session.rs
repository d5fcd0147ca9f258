use vstd::prelude::*;
use vstd::string::StringSliceAdditionalSpecFns;

use crate::codec::{
    encode_packet, frame_payload, header_of, packet_bytes, MAX_PAYLOAD, TYPE_AUTH,
    TYPE_EXEC_COMMAND,
};
use crate::error::RconError;
use crate::reassembly::{is_last_read, lossy_text, read_error, Reassembler};

verus! {

/// Id with which the server answers a login it refused.
pub const AUTH_FAILED_ID: i32 = -1;

/// Where a session stands.
#[derive(PartialEq, Eq, Structural, Debug, Clone, Copy)]
pub enum SessionState {
    /// The connection failed; the session cannot be used again.
    Disconnected,
    /// Connected, not logged in yet.
    AuthPending,
    /// Logged in: commands may be sent.
    Authenticated,
    /// The server refused the login; the session cannot be used again.
    AuthFailed,
}

/// The request whose response is awaited, if any.
#[derive(PartialEq, Eq, Structural, Debug, Clone, Copy)]
pub enum Pending {
    Idle,
    Login,
    Command,
}

/// What a session is, as the contracts see it.
pub ghost struct SessionView {
    pub state: SessionState,
    pub request_id: int,
    pub pending: Pending,
    /// Payload bytes gathered in the current response cycle.
    pub received: Seq<u8>,
}

/// What one read did to the session when no error ended it.
pub enum Progress {
    /// The response goes on in further reads.
    NeedMore,
    /// The login was accepted.
    LoggedIn,
    /// The text that the command returned.
    Reply(String),
}

/// The state from which a request of kind `op` may start.
pub open spec fn ready_state(op: Pending) -> SessionState {
    if op == Pending::Login {
        SessionState::AuthPending
    } else {
        SessionState::Authenticated
    }
}

/// The view of a session that was just created.
pub open spec fn fresh_view() -> SessionView {
    SessionView {
        state: SessionState::AuthPending,
        request_id: 0,
        pending: Pending::Idle,
        received: Seq::empty(),
    }
}

/// Starting a request of kind `op` (login or command) with a payload of
/// `len` bytes: the next view, or the error that refuses it.
pub open spec fn start_result(v: SessionView, op: Pending, len: nat) -> Result<
    SessionView,
    RconError,
> {
    if v.pending != Pending::Idle || v.state != ready_state(op) {
        Err(RconError::InvalidState)
    } else if len > MAX_PAYLOAD {
        Err(RconError::PayloadTooLarge)
    } else if v.request_id >= i32::MAX {
        Err(RconError::IdsExhausted)
    } else {
        Ok(
            SessionView {
                state: v.state,
                request_id: v.request_id + 1,
                pending: op,
                received: Seq::empty(),
            },
        )
    }
}

/// The view after the last read of a response whose id is `id`.
pub open spec fn after_reply(v: SessionView, id: i32) -> SessionView {
    SessionView {
        state: if v.pending == Pending::Login {
            if id == AUTH_FAILED_ID {
                SessionState::AuthFailed
            } else {
                SessionState::Authenticated
            }
        } else {
            v.state
        },
        request_id: v.request_id,
        pending: Pending::Idle,
        received: v.received,
    }
}

/// The error that a complete response with id `id` ends its request with.
pub open spec fn reply_error(v: SessionView, id: i32) -> Option<RconError> {
    if v.pending == Pending::Login && id == AUTH_FAILED_ID {
        Some(RconError::AuthenticationFailed)
    } else if v.pending == Pending::Command && id as int != v.request_id {
        Some(RconError::CorrelationMismatch { expected: v.request_id as i32, got: id })
    } else {
        None
    }
}

/// The view after a read that carried no error.
pub open spec fn with_read(v: SessionView, chunk: Seq<u8>) -> SessionView {
    SessionView { received: v.received + frame_payload(chunk), ..v }
}

/// The view after a read that ended the connection with an error.
pub open spec fn broken(v: SessionView) -> SessionView {
    SessionView { state: SessionState::Disconnected, pending: Pending::Idle, ..v }
}

/// `a` and `b` agree on state, counter and request in flight.
pub open spec fn same_control(a: SessionView, b: SessionView) -> bool {
    a.state == b.state && a.request_id == b.request_id && a.pending == b.pending
}

/// From `pre` a request of kind `op` with a payload of `len` bytes starts,
/// its response ends with id `id` and no error, and the session stands as
/// `post`.
pub open spec fn completed_round(
    pre: SessionView,
    op: Pending,
    len: nat,
    id: i32,
    post: SessionView,
) -> bool {
    &&& start_result(pre, op, len) is Ok
    &&& reply_error(start_result(pre, op, len)->Ok_0, id) is None
    &&& same_control(after_reply(start_result(pre, op, len)->Ok_0, id), post)
}

/// Request ids are consecutive from one: on a new session, after a login that
/// succeeded and `n` commands that succeeded, the counter is `n + 1`, and the
/// session is still logged in. `trace` holds the session before each round and
/// after the last; `lens` and `ids` the payload length and response id of the
/// login, then of each command.
pub proof fn lemma_request_ids(
    trace: Seq<SessionView>,
    lens: Seq<nat>,
    ids: Seq<i32>,
)
    requires
        trace.len() >= 2,
        lens.len() + 1 == trace.len(),
        ids.len() + 1 == trace.len(),
        same_control(trace[0], fresh_view()),
        completed_round(trace[0], Pending::Login, lens[0], ids[0], trace[1]),
        forall|i: int|
            1 <= i < lens.len() ==> #[trigger] completed_round(
                trace[i],
                Pending::Command,
                lens[i],
                ids[i],
                trace[i + 1],
            ),
    ensures
        trace.last().request_id == lens.len(),
        trace.last().state == SessionState::Authenticated,
        trace.last().pending == Pending::Idle,
{
    lemma_request_ids_upto(trace, lens, ids, trace.len() - 1);
}

proof fn lemma_request_ids_upto(trace: Seq<SessionView>, lens: Seq<nat>, ids: Seq<i32>, k: int)
    requires
        trace.len() >= 2,
        lens.len() + 1 == trace.len(),
        ids.len() + 1 == trace.len(),
        same_control(trace[0], fresh_view()),
        completed_round(trace[0], Pending::Login, lens[0], ids[0], trace[1]),
        forall|i: int|
            1 <= i < lens.len() ==> #[trigger] completed_round(
                trace[i],
                Pending::Command,
                lens[i],
                ids[i],
                trace[i + 1],
            ),
        1 <= k < trace.len(),
    ensures
        trace[k].request_id == k,
        trace[k].state == SessionState::Authenticated,
        trace[k].pending == Pending::Idle,
    decreases k,
{
    if k > 1 {
        lemma_request_ids_upto(trace, lens, ids, k - 1);
        assert(completed_round(trace[k - 1], Pending::Command, lens[k - 1], ids[k - 1], trace[k]));
    }
}

/// A command whose response carries another id than its own fails with both
/// ids; the counter has advanced exactly once and the session keeps its state.
pub proof fn lemma_correlation(pre: SessionView, len: nat, id: i32)
    requires
        start_result(pre, Pending::Command, len) is Ok,
        id as int != start_result(pre, Pending::Command, len)->Ok_0.request_id,
    ensures
        ({
            let mid = start_result(pre, Pending::Command, len)->Ok_0;
            &&& reply_error(mid, id) == Some(
                RconError::CorrelationMismatch { expected: mid.request_id as i32, got: id },
            )
            &&& mid.request_id == pre.request_id + 1
            &&& after_reply(mid, id).request_id == pre.request_id + 1
            &&& after_reply(mid, id).state == pre.state
            &&& after_reply(mid, id).pending == Pending::Idle
        }),
{
}

/// A login answered with the sentinel id fails and leaves the session
/// `AuthFailed`, from which neither a command nor another login can start.
pub proof fn lemma_auth_sentinel(pre: SessionView, len: nat)
    requires
        start_result(pre, Pending::Login, len) is Ok,
    ensures
        ({
            let mid = start_result(pre, Pending::Login, len)->Ok_0;
            let post = after_reply(mid, AUTH_FAILED_ID);
            &&& reply_error(mid, AUTH_FAILED_ID) == Some(RconError::AuthenticationFailed)
            &&& post.state == SessionState::AuthFailed
            &&& forall|n: nat|
                #![trigger start_result(post, Pending::Command, n)]
                start_result(post, Pending::Command, n) == Err::<SessionView, RconError>(
                    RconError::InvalidState,
                ) && start_result(post, Pending::Login, n) == Err::<SessionView, RconError>(
                    RconError::InvalidState,
                )
        }),
{
}

/// One connection's protocol state: its request counter, whether it is logged
/// in, and the response being gathered.
pub struct Session {
    state: SessionState,
    request_id: i32,
    pending: Pending,
    reassembler: Reassembler,
}

impl View for Session {
    type V = SessionView;

    closed spec fn view(&self) -> SessionView {
        SessionView {
            state: self.state,
            request_id: self.request_id as int,
            pending: self.pending,
            received: self.reassembler@.payload,
        }
    }
}

impl Session {
    /// A session for a connection that was just opened: not logged in, no
    /// request sent.
    pub fn new() -> (r: Session)
        ensures
            r@ == fresh_view(),
    {
        Session {
            state: SessionState::AuthPending,
            request_id: 0,
            pending: Pending::Idle,
            reassembler: Reassembler::new(),
        }
    }

    /// Where the session stands.
    pub fn state(&self) -> (r: SessionState)
        ensures
            r == self@.state,
    {
        self.state
    }

    /// The id of the last request sent; zero before the first.
    pub fn request_id(&self) -> (r: i32)
        ensures
            r as int == self@.request_id,
    {
        self.request_id
    }

    fn start(&mut self, op: Pending, kind: i32, payload: &str) -> (r: Result<Vec<u8>, RconError>)
        requires
            op != Pending::Idle,
            op == Pending::Login ==> kind == TYPE_AUTH,
            op == Pending::Command ==> kind == TYPE_EXEC_COMMAND,
        ensures
            match r {
                Ok(bytes) => start_result(old(self)@, op, payload.spec_bytes().len()) == Ok::<
                    SessionView,
                    RconError,
                >(final(self)@) && bytes@ == packet_bytes(
                    final(self)@.request_id as i32,
                    kind,
                    payload.spec_bytes(),
                ),
                Err(e) => start_result(old(self)@, op, payload.spec_bytes().len()) == Err::<
                    SessionView,
                    RconError,
                >(e) && final(self)@ == old(self)@,
            },
    {
        if self.pending != Pending::Idle {
            return Err(RconError::InvalidState);
        }
        let ready = if op == Pending::Login {
            SessionState::AuthPending
        } else {
            SessionState::Authenticated
        };
        if self.state != ready {
            return Err(RconError::InvalidState);
        }
        let bytes = payload.as_bytes();
        if bytes.len() > MAX_PAYLOAD {
            return Err(RconError::PayloadTooLarge);
        }
        if self.request_id == i32::MAX {
            return Err(RconError::IdsExhausted);
        }
        self.request_id = self.request_id + 1;
        self.pending = op;
        self.reassembler.reset();
        Ok(encode_packet(self.request_id, kind, bytes))
    }
    /// Starts the login: only from `AuthPending` with nothing in flight. On
    /// success the counter advances and the login packet to send is returned.
    pub fn login(&mut self, password: &str) -> (r: Result<Vec<u8>, RconError>)
        ensures
            match r {
                Ok(bytes) => start_result(
                    old(self)@,
                    Pending::Login,
                    password.spec_bytes().len(),
                ) == Ok::<SessionView, RconError>(final(self)@) && bytes@ == packet_bytes(
                    final(self)@.request_id as i32,
                    TYPE_AUTH,
                    password.spec_bytes(),
                ),
                Err(e) => start_result(old(self)@, Pending::Login, password.spec_bytes().len())
                    == Err::<SessionView, RconError>(e) && final(self)@ == old(self)@,
            },
    {
        self.start(Pending::Login, TYPE_AUTH, password)
    }

    /// Starts a command: only once logged in with nothing in flight. On
    /// success the counter advances and the command packet to send is returned.
    pub fn execute(&mut self, command: &str) -> (r: Result<Vec<u8>, RconError>)
        ensures
            match r {
                Ok(bytes) => start_result(
                    old(self)@,
                    Pending::Command,
                    command.spec_bytes().len(),
                ) == Ok::<SessionView, RconError>(final(self)@) && bytes@ == packet_bytes(
                    final(self)@.request_id as i32,
                    TYPE_EXEC_COMMAND,
                    command.spec_bytes(),
                ),
                Err(e) => start_result(old(self)@, Pending::Command, command.spec_bytes().len())
                    == Err::<SessionView, RconError>(e) && final(self)@ == old(self)@,
            },
    {
        self.start(Pending::Command, TYPE_EXEC_COMMAND, command)
    }

    /// Takes in the bytes of one transport read for the request in flight.
    /// A read error leaves the session `Disconnected`. The last read of a
    /// response decides the request: a login answered with the sentinel id
    /// leaves the session `AuthFailed`; a command answered with another id
    /// than its own fails with both ids.
    pub fn receive(&mut self, chunk: &[u8]) -> (r: Result<Progress, RconError>)
        ensures
            old(self)@.pending == Pending::Idle ==> r == Err::<Progress, RconError>(
                RconError::InvalidState,
            ) && final(self)@ == old(self)@,
            old(self)@.pending != Pending::Idle ==> match read_error(chunk@) {
                Some(e) => r == Err::<Progress, RconError>(e) && final(self)@ == broken(old(self)@),
                None => if !is_last_read(chunk@) {
                    r is Ok && r->Ok_0 is NeedMore && final(self)@ == with_read(old(self)@, chunk@)
                } else {
                    let v = with_read(old(self)@, chunk@);
                    let id = header_of(chunk@).id;
                    final(self)@ == after_reply(v, id) && match reply_error(v, id) {
                        Some(e) => r == Err::<Progress, RconError>(e),
                        None => r is Ok && if old(self)@.pending == Pending::Login {
                            r->Ok_0 is LoggedIn
                        } else {
                            r->Ok_0 is Reply && r->Ok_0->Reply_0@ == lossy_text(v.received)
                        },
                    }
                },
            },
    {
        if self.pending == Pending::Idle {
            return Err(RconError::InvalidState);
        }
        match self.reassembler.feed(chunk) {
            Err(e) => {
                self.state = SessionState::Disconnected;
                self.pending = Pending::Idle;
                Err(e)
            },
            Ok(false) => Ok(Progress::NeedMore),
            Ok(true) => {
                let response = self.reassembler.response();
                let op = self.pending;
                self.pending = Pending::Idle;
                if op == Pending::Login {
                    if response.id == AUTH_FAILED_ID {
                        self.state = SessionState::AuthFailed;
                        Err(RconError::AuthenticationFailed)
                    } else {
                        self.state = SessionState::Authenticated;
                        Ok(Progress::LoggedIn)
                    }
                } else if response.id != self.request_id {
                    Err(RconError::CorrelationMismatch { expected: self.request_id, got: response.id })
                } else {
                    Ok(Progress::Reply(response.text))
                }
            },
        }
    }
}

} // verus!
