//! The life of a capture session: one relay thread that is joined once.
use crate::capture::CaptureOutcome;
use vstd::prelude::*;

verus! {

broadcast use vstd::string::group_string_axioms;

/// What the owner of a session asks for.
#[derive(Clone, Copy, Debug, PartialEq, Eq, Structural)]
pub enum SessionRequest {
    /// Wait for the capture to stop by itself.
    Wait,
    /// Stop the capture and wait for it.
    Stop,
    /// Give the session up.
    Drop,
}

/// What becomes of the relay thread.
#[derive(Clone, Copy, Debug, PartialEq, Eq, Structural)]
pub enum JoinStep {
    /// Join the thread.
    Join,
    /// The thread was joined before: report that the capture is over.
    AlreadyFinished,
    /// The thread was joined before, and nobody asks for a report.
    Nothing,
}

/// What to do for a request: raise the stop flag or not, then join or not.
#[derive(Clone, Copy, Debug, PartialEq, Eq, Structural)]
pub struct SessionAction {
    pub signal_stop: bool,
    pub join: JoinStep,
}

/// How the relay thread of a session ended.
pub enum Joined<E> {
    /// It ended before and was joined before.
    AlreadyFinished,
    /// It panicked.
    Panicked,
    /// It ended with an outcome or with an error of its own.
    Ended(Result<CaptureOutcome, E>),
}

/// Why a session could not be started or gave no outcome.
pub enum SessionError<E> {
    /// The relay thread could not be started, for this reason.
    Spawn(String),
    ThreadPanicked,
    AlreadyFinished,
    /// The driver failed, or the file could not be written.
    Driver(E),
}

/// What to do for `request`, where the thread is still to be joined or not.
pub open spec fn session_action(attached: bool, request: SessionRequest) -> SessionAction {
    SessionAction {
        signal_stop: request is Stop || (request is Drop && attached),
        join: if attached {
            JoinStep::Join
        } else if request is Drop {
            JoinStep::Nothing
        } else {
            JoinStep::AlreadyFinished
        },
    }
}

/// The name of the relay thread.
pub const RELAY_THREAD_NAME: &'static str = "procmon-capture";

/// What there is to say of a session.
pub struct SessionModel<P> {
    /// Where the capture is written to.
    pub pml_path: P,
    /// Whether the stop flag was raised.
    pub stop_signalled: bool,
    /// Whether the relay thread is still to be joined.
    pub attached: bool,
}

/// What a request makes of a session: the flag stays up once raised, and the
/// thread is joined if it was not before.
pub open spec fn next_session<P>(m: SessionModel<P>, request: SessionRequest) -> SessionModel<P> {
    let action = session_action(m.attached, request);
    SessionModel {
        pml_path: m.pml_path,
        stop_signalled: m.stop_signalled || action.signal_stop,
        attached: m.attached && !(action.join is Join),
    }
}

/// Whether a capture is still running, given whether its thread has ended.
pub open spec fn still_running<P>(m: SessionModel<P>, thread_finished: bool) -> bool {
    m.attached && !thread_finished
}

/// A capture runs until its thread ends, and none runs after a request was served.
pub proof fn captures_run_until_their_thread_ends<P>(
    pml_path: P,
    m: SessionModel<P>,
    request: SessionRequest,
    thread_finished: bool,
)
    ensures
        still_running(new_session(pml_path), false),
        !still_running(m, true),
        !still_running(next_session(m, request), thread_finished),
{
}

/// A session whose thread has just been started.
pub open spec fn new_session<P>(pml_path: P) -> SessionModel<P> {
    SessionModel { pml_path, stop_signalled: false, attached: true }
}

/// The bookkeeping of a session. The path is carried along as it is.
pub struct SessionState<P> {
    pml_path: P,
    stop_signalled: bool,
    attached: bool,
}

impl<P> View for SessionState<P> {
    type V = SessionModel<P>;

    closed spec fn view(&self) -> SessionModel<P> {
        SessionModel {
            pml_path: self.pml_path,
            stop_signalled: self.stop_signalled,
            attached: self.attached,
        }
    }
}

impl<P> SessionState<P> {
    /// A session whose thread has just been started, and which writes to `pml_path`.
    pub fn new(pml_path: P) -> (r: SessionState<P>)
        ensures
            r@ == new_session(pml_path),
    {
        SessionState { pml_path, stop_signalled: false, attached: true }
    }

    /// The `.PML` path that the capture writes to.
    pub fn pml_path(&self) -> (r: &P)
        ensures
            *r == self@.pml_path,
    {
        &self.pml_path
    }

    /// Whether the stop flag was raised.
    pub fn stop_signalled(&self) -> (r: bool)
        ensures
            r == self@.stop_signalled,
    {
        self.stop_signalled
    }

    /// Whether the capture is still running, given whether its thread has ended.
    pub fn is_running(&self, thread_finished: bool) -> (r: bool)
        ensures
            r == (self@.attached && !thread_finished),
            r == still_running(self@, thread_finished),
    {
        self.attached && !thread_finished
    }

    /// Takes a request and says what to do. Afterwards the thread is joined.
    pub fn request(&mut self, request: SessionRequest) -> (r: SessionAction)
        ensures
            r == session_action(old(self)@.attached, request),
            final(self)@ == next_session(old(self)@, request),
    {
        let attached = self.attached;
        let signal_stop = match request {
            SessionRequest::Wait => false,
            SessionRequest::Stop => true,
            SessionRequest::Drop => attached,
        };
        let join = if attached {
            JoinStep::Join
        } else {
            match request {
                SessionRequest::Drop => JoinStep::Nothing,
                _ => JoinStep::AlreadyFinished,
            }
        };
        self.stop_signalled = self.stop_signalled || signal_stop;
        self.attached = false;
        SessionAction { signal_stop, join }
    }
}

/// What a session reports of how its thread ended.
pub open spec fn session_report<E>(joined: Joined<E>) -> Result<CaptureOutcome, SessionError<E>> {
    match joined {
        Joined::Ended(result) => match result {
            Ok(outcome) => Ok(outcome),
            Err(e) => Err(SessionError::Driver(e)),
        },
        Joined::Panicked => Err(SessionError::ThreadPanicked),
        Joined::AlreadyFinished => Err(SessionError::AlreadyFinished),
    }
}

/// A session reports an outcome exactly if its thread ended with one, and then that
/// very outcome; an error of the driver is passed on as it is; and the two failures of
/// the session itself are told apart.
pub proof fn outcomes_are_passed_on<E>(joined: Joined<E>, outcome: CaptureOutcome, e: E)
    ensures
        session_report(joined) == Ok::<CaptureOutcome, SessionError<E>>(outcome) <==> joined
            == Joined::<E>::Ended(Ok(outcome)),
        session_report(joined) == Err::<CaptureOutcome, SessionError<E>>(SessionError::Driver(e))
            <==> joined == Joined::<E>::Ended(Err(e)),
        session_report(joined) == Err::<CaptureOutcome, SessionError<E>>(
            SessionError::ThreadPanicked,
        ) <==> joined == Joined::<E>::Panicked,
        session_report(joined) == Err::<CaptureOutcome, SessionError<E>>(
            SessionError::AlreadyFinished,
        ) <==> joined == Joined::<E>::AlreadyFinished,
{
}

/// What a session reports of how its thread ended.
pub fn join_result<E>(joined: Joined<E>) -> (r: Result<CaptureOutcome, SessionError<E>>)
    ensures
        r == match joined {
            Joined::AlreadyFinished => Err(SessionError::AlreadyFinished),
            Joined::Panicked => Err(SessionError::ThreadPanicked),
            Joined::Ended(Ok(outcome)) => Ok(outcome),
            Joined::Ended(Err(e)) => Err(SessionError::Driver(e)),
        },
        r == session_report(joined),
{
    match joined {
        Joined::AlreadyFinished => Err(SessionError::AlreadyFinished),
        Joined::Panicked => Err(SessionError::ThreadPanicked),
        Joined::Ended(Ok(outcome)) => Ok(outcome),
        Joined::Ended(Err(e)) => Err(SessionError::Driver(e)),
    }
}

/// The message of a session error.
pub open spec fn session_message<E>(error: SessionError<E>) -> Option<Seq<char>> {
    match error {
        SessionError::Spawn(e) => Some("spawn capture thread: "@ + e@),
        SessionError::ThreadPanicked => Some("capture thread panicked"@),
        SessionError::AlreadyFinished => Some("capture already finished"@),
        SessionError::Driver(_) => None,
    }
}

/// The message of a thread that could not be started ends with the reason in full, so
/// different reasons give different messages.
pub proof fn spawn_message_ends_with_the_reason<E>(a: String, b: String)
    ensures
        ({
            let m = session_message(SessionError::<E>::Spawn(a))->0;
            &&& session_message(SessionError::<E>::Spawn(a)) is Some
            &&& m.len() == 22 + a@.len()
            &&& m.skip(22) == a@
            &&& m.take(22) == "spawn capture thread: "@
        }),
        session_message(SessionError::<E>::Spawn(a)) == session_message(SessionError::<E>::Spawn(b))
            ==> a@ == b@,
{
    reveal_strlit("spawn capture thread: ");
    let m = session_message(SessionError::<E>::Spawn(a))->0;
    let n = session_message(SessionError::<E>::Spawn(b))->0;
    assert(m.skip(22) =~= a@);
    assert(n.skip(22) =~= b@);
    assert(m.take(22) =~= "spawn capture thread: "@);
}

impl<E> SessionError<E> {
    /// The message of a failure of the session; a failure of the driver has its own.
    pub fn message(&self) -> (r: Option<String>)
        ensures
            match self {
                SessionError::Spawn(e) => r is Some && r->0@ == "spawn capture thread: "@ + e@,
                SessionError::ThreadPanicked => r is Some && r->0@ == "capture thread panicked"@,
                SessionError::AlreadyFinished => r is Some && r->0@
                    == "capture already finished"@,
                SessionError::Driver(_) => r is None,
            },
            r is Some <==> session_message(*self) is Some,
            r is Some ==> r->0@ == session_message(*self)->0,
    {
        match self {
            SessionError::Spawn(e) => {
                let mut message = "spawn capture thread: ".to_owned();
                message.append(e.as_str());
                Some(message)
            },
            SessionError::ThreadPanicked => Some("capture thread panicked".to_owned()),
            SessionError::AlreadyFinished => Some("capture already finished".to_owned()),
            SessionError::Driver(_) => None,
        }
    }
}

/// A session after some requests.
pub open spec fn session_after<P>(
    m: SessionModel<P>,
    requests: Seq<SessionRequest>,
) -> SessionModel<P>
    decreases requests.len(),
{
    if requests.len() == 0 {
        m
    } else {
        next_session(session_after(m, requests.drop_last()), requests.last())
    }
}

/// What a new session does for the request at `i`.
pub open spec fn action_at<P>(
    pml_path: P,
    requests: Seq<SessionRequest>,
    i: int,
) -> SessionAction {
    session_action(session_after(new_session(pml_path), requests.take(i)).attached, requests[i])
}

proof fn lemma_session_after<P>(pml_path: P, requests: Seq<SessionRequest>)
    ensures
        session_after(new_session(pml_path), requests).attached == (requests.len() == 0),
        session_after(new_session(pml_path), requests).pml_path == pml_path,
    decreases requests.len(),
{
    if requests.len() > 0 {
        lemma_session_after(pml_path, requests.drop_last());
    }
}

/// What a request does, written out: the stop flag is raised by stopping, and by
/// giving up a session whose thread is not joined yet; the thread is joined if it was
/// not yet, and after that waiting and stopping report so, while giving up does not.
pub proof fn requests_written_out<P>(m: SessionModel<P>, request: SessionRequest)
    ensures
        ({
            let action = session_action(m.attached, request);
            let after = next_session(m, request);
            &&& action.signal_stop <==> request == SessionRequest::Stop || (request
                == SessionRequest::Drop && m.attached)
            &&& action.join == JoinStep::Join <==> m.attached
            &&& action.join == JoinStep::AlreadyFinished <==> !m.attached && request
                != SessionRequest::Drop
            &&& action.join == JoinStep::Nothing <==> !m.attached && request
                == SessionRequest::Drop
            &&& after.pml_path == m.pml_path
            &&& !after.attached
            &&& after.stop_signalled <==> m.stop_signalled || request == SessionRequest::Stop || (
            request == SessionRequest::Drop && m.attached)
        }),
{
}

/// A session starts with its path, the stop flag down and a thread to join, and each
/// further request acts on what the ones before it left.
pub proof fn sessions_go_request_by_request<P>(
    pml_path: P,
    m: SessionModel<P>,
    requests: Seq<SessionRequest>,
    request: SessionRequest,
)
    ensures
        new_session(pml_path).pml_path == pml_path,
        !new_session(pml_path).stop_signalled,
        new_session(pml_path).attached,
        session_after(m, Seq::<SessionRequest>::empty()) == m,
        session_after(m, requests.push(request)) == next_session(
            session_after(m, requests),
            request,
        ),
{
    assert(requests.push(request).drop_last() == requests);
}

/// The thread is joined exactly once, by the first request: every later one finds
/// it joined, and giving the session up then does nothing at all.
pub proof fn thread_is_joined_once<P>(pml_path: P, requests: Seq<SessionRequest>, i: int)
    requires
        0 <= i < requests.len(),
    ensures
        action_at(pml_path, requests, i).join is Join <==> i == 0,
        i > 0 && requests[i] is Drop ==> action_at(pml_path, requests, i) == (SessionAction {
            signal_stop: false,
            join: JoinStep::Nothing,
        }),
        i > 0 && !(requests[i] is Drop) ==> action_at(pml_path, requests, i).join
            is AlreadyFinished,
{
    lemma_session_after(pml_path, requests.take(i));
}

/// A session keeps its path through every request.
pub proof fn path_stays_the_same<P>(pml_path: P, requests: Seq<SessionRequest>)
    ensures
        session_after(new_session(pml_path), requests).pml_path == pml_path,
{
    lemma_session_after(pml_path, requests);
}

/// Giving up a running capture stops it before its thread is joined, as stopping it
/// does, while waiting for it lets it run on.
pub proof fn dropped_capture_is_stopped<P>(m: SessionModel<P>, request: SessionRequest)
    requires
        m.attached,
        !m.stop_signalled,
    ensures
        session_action(m.attached, request).join is Join,
        next_session(m, request).stop_signalled <==> !(request is Wait),
        !next_session(m, request).attached,
{
}

} // verus!
