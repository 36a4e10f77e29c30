//! What holds of a session over all requests that it has handled.

use crate::bytes::{le32_at, le64, le64_at};
use crate::clock::Clock;
use crate::server::create::{
    ask_create, create_body, create_name, create_step, file_attributes, inhibitor_attr, opened,
    opened_pipe, NEW_FILE_FLAGS,
};
use crate::server::dispatch::{
    command_step, law_every_request_is_answered, law_waiting_requests_are_answered, message_step,
    resume_step,
};
use crate::server::info::{query_info_step, set_data, set_info_step};
use crate::server::stat::{goal_step, stat_step};
use crate::server::state::{
    counted, forgotten, learnt, looked_up, new_session, noted, remote_path, resolved, told, Lookup,
    SessionModel, SAME_HANDLE,
};
use crate::server::step::{answered, error_body, refused, Goal, Moment, StepView, ThenOf, ThenView};
use crate::sftp::call::ReplyView;
use crate::smb2::{
    filetime, header_of, law_response_echoes_request, response, Smb2Header, FILE_ATTRIBUTE_NORMAL,
    FILE_DIRECTORY_FILE, SMB2_CREATE, SMB2_HEADER_SIZE, STATUS_ACCESS_DENIED,
    STATUS_INVALID_PARAMETER, STATUS_OBJECT_NAME_COLLISION, STATUS_OBJECT_NAME_NOT_FOUND,
    STATUS_SUCCESS,
};
use crate::wire::FileAttr;
use vstd::prelude::*;

verus! {

/// Something that a session handles.
pub enum Event {
    /// A message of the client.
    Message(Seq<u8>, Moment),
    /// A reply of the remote side, for a request that has waited for it.
    Replied(Smb2Header, ThenView, ReplyView, Moment),
}

/// How a session handles an event.
pub open spec fn event_step(m: SessionModel, e: Event) -> (SessionModel, StepView) {
    match e {
        Event::Message(msg, t) => message_step(m, msg, t),
        Event::Replied(hdr, next, reply, t) => resume_step(m, hdr, next, reply, t),
    }
}

/// The session after a history of events.
pub open spec fn after_history(m: SessionModel, events: Seq<Event>) -> SessionModel
    decreases events.len(),
{
    if events.len() == 0 {
        m
    } else {
        event_step(after_history(m, events.drop_last()), events.last()).0
    }
}

/// What asks for the attributes of a path in order to open it.
pub open spec fn opens(goal: Goal) -> bool {
    goal is Existing || goal is OpenOrCreate || goal is CreateNew
}

/// What a CREATE waits for.
pub open spec fn is_for_create(next: ThenView) -> bool {
    match next {
        ThenOf::Stat { goal, .. } => opens(goal),
        ThenOf::Made { .. } => true,
        ThenOf::Opened { .. } => true,
        ThenOf::Created { .. } => true,
        _ => false,
    }
}

/// A request waits for what its command can wait for.
pub open spec fn belongs(hdr: Smb2Header, next: ThenView) -> bool {
    is_for_create(next) == (hdr.command == SMB2_CREATE)
}

/// A message is any bytes; a reply is for a request that can wait for it.
pub open spec fn is_sensible(e: Event) -> bool {
    match e {
        Event::Message(..) => true,
        Event::Replied(hdr, next, _, _) => belongs(hdr, next),
    }
}

/// A step that answers a CREATE.
pub open spec fn answers_create(s: StepView) -> bool {
    &&& s matches StepView::Reply(r)
    &&& r.len() >= 4 + SMB2_HEADER_SIZE
    &&& header_of(r.skip(4)) matches Some(h)
    &&& h.command == SMB2_CREATE
}

/// A step that answers a CREATE with success.
pub open spec fn grants_create(s: StepView) -> bool {
    answers_create(s) && (s matches StepView::Reply(r) && le32_at(r.skip(4), 8) == STATUS_SUCCESS)
}

/// The two halves of the file number in the answer to a CREATE.
pub open spec fn file_id(r: Seq<u8>) -> (u64, u64) {
    let body = r.skip(4 + SMB2_HEADER_SIZE as int);
    (le64_at(body, 64), le64_at(body, 72))
}

/// How many CREATEs of a history were answered with success.
pub open spec fn creates_in(m: SessionModel, events: Seq<Event>) -> nat
    decreases events.len(),
{
    if events.len() == 0 {
        0
    } else {
        let before = after_history(m, events.drop_last());
        creates_in(m, events.drop_last()) + if grants_create(event_step(before, events.last()).1) {
            1nat
        } else {
            0nat
        }
    }
}

/// The numbers and handles of the session are as they were.
pub open spec fn untouched(a: SessionModel, b: SessionModel) -> bool {
    b.next_handle == a.next_handle && b.last_create_handle == a.last_create_handle && b.handles
        == a.handles
}

/// The numbers of the session are as they were.
pub open spec fn no_new_handle(a: SessionModel, b: SessionModel) -> bool {
    b.next_handle == a.next_handle && b.last_create_handle == a.last_create_handle
}

/// The session has gained one handle, under the next number.
pub open spec fn one_more_handle(a: SessionModel, b: SessionModel) -> bool {
    &&& b.next_handle == a.next_handle + 1
    &&& b.last_create_handle == a.next_handle
    &&& b.handles.dom() == a.handles.dom().insert(a.next_handle)
    &&& forall|id: u64|
        a.handles.contains_key(id) && id != a.next_handle ==> #[trigger] b.handles[id]
            == a.handles[id]
}

/// What a step of a CREATE does to the session.
#[verifier::opaque]
spec fn create_holds(a: SessionModel, b: SessionModel, s: StepView) -> bool {
    match s {
        StepView::Ask(_, _, next) => untouched(a, b) && is_for_create(next),
        StepView::Reply(r) => if grants_create(s) {
            one_more_handle(a, b) && file_id(r) == (a.next_handle, a.next_handle)
        } else {
            untouched(a, b)
        },
    }
}

proof fn lemma_answered(hdr: Smb2Header, status: u32, body: Seq<u8>)
    ensures
        ({
            let s = StepView::Reply(response(hdr, status, body));
            &&& answers_create(s) == (hdr.command == SMB2_CREATE)
            &&& grants_create(s) == (hdr.command == SMB2_CREATE && status == STATUS_SUCCESS)
            &&& response(hdr, status, body).skip(4 + SMB2_HEADER_SIZE as int) == body
        }),
{
    law_response_echoes_request(hdr, status, body);
}

proof fn lemma_ids_in(written: u64, accessed: u64, size: u64, attributes: u32, id: u64, tail: Seq<u8>)
    ensures
        ({
            let b = create_body(written, accessed, size, attributes, id) + tail;
            le64_at(b, 64) == id && le64_at(b, 72) == id
        }),
{
    let b = create_body(written, accessed, size, attributes, id) + tail;
    crate::bytes::law_le64_round_trip(id);
    assert forall|k: int| 0 <= k < 8 implies b[64 + k] == le64(id)[k] && b[72 + k] == le64(
        id,
    )[k] by {}
}

proof fn lemma_granted(m: SessionModel, o: SessionModel, hdr: Smb2Header, body: Seq<u8>)
    requires
        hdr.command == SMB2_CREATE,
        one_more_handle(m, o),
        le64_at(body, 64) == m.next_handle,
        le64_at(body, 72) == m.next_handle,
    ensures
        create_holds(m, o, answered(hdr, STATUS_SUCCESS, body)),
{
    reveal(create_holds);
    lemma_answered(hdr, STATUS_SUCCESS, body);
}

proof fn lemma_opened(
    m: SessionModel,
    hdr: Smb2Header,
    path: Seq<char>,
    attr: FileAttr,
    is_dir: bool,
)
    requires
        hdr.command == SMB2_CREATE,
        m.next_handle < u64::MAX,
    ensures
        create_holds(
            m,
            opened(m, hdr, path, attr, is_dir).0,
            opened(m, hdr, path, attr, is_dir).1,
        ),
{
    let written = filetime(attr.mtime as u64);
    let accessed = filetime(attr.atime as u64);
    let attributes = file_attributes(is_dir);
    let body = create_body(written, accessed, attr.size, attributes, m.next_handle) + seq![0u8];
    lemma_ids_in(written, accessed, attr.size, attributes, m.next_handle, seq![0u8]);
    let o = opened(m, hdr, path, attr, is_dir).0;
    assert(o.handles.dom() =~= m.handles.dom().insert(m.next_handle));
    lemma_granted(m, o, hdr, body);
}

proof fn lemma_opened_pipe(m: SessionModel, hdr: Smb2Header, wall: u64)
    requires
        hdr.command == SMB2_CREATE,
        m.next_handle < u64::MAX,
    ensures
        create_holds(m, opened_pipe(m, hdr, wall).0, opened_pipe(m, hdr, wall).1),
{
    let time = filetime(wall);
    let body = create_body(time, time, 0, FILE_ATTRIBUTE_NORMAL, m.next_handle);
    lemma_ids_in(time, time, 0, FILE_ATTRIBUTE_NORMAL, m.next_handle, Seq::empty());
    assert(body + Seq::<u8>::empty() =~= body);
    let o = opened_pipe(m, hdr, wall).0;
    assert(o.handles.dom() =~= m.handles.dom().insert(m.next_handle));
    lemma_granted(m, o, hdr, body);
}

proof fn lemma_refused(m: SessionModel, o: SessionModel, hdr: Smb2Header, status: u32)
    requires
        hdr.command == SMB2_CREATE,
        status != STATUS_SUCCESS,
        untouched(m, o),
    ensures
        create_holds(m, o, refused(hdr, status)),
{
    reveal(create_holds);
    lemma_answered(hdr, status, error_body());
}

proof fn lemma_waits(m: SessionModel, o: SessionModel, s: StepView)
    requires
        untouched(m, o),
        s matches StepView::Ask(_, _, next) && is_for_create(next),
    ensures
        create_holds(m, o, s),
{
    reveal(create_holds);
}

proof fn lemma_holds_before(m: SessionModel, n: SessionModel, o: SessionModel, s: StepView)
    requires
        untouched(m, n),
        create_holds(n, o, s),
    ensures
        create_holds(m, o, s),
{
    reveal(create_holds);
}

proof fn lemma_goal(
    m: SessionModel,
    n: SessionModel,
    hdr: Smb2Header,
    goal: Goal,
    path: Seq<char>,
    found: Result<(FileAttr, bool), u32>,
)
    requires
        hdr.command == SMB2_CREATE,
        opens(goal),
        m.next_handle < u64::MAX,
        untouched(m, n),
        found matches Err(status) ==> status != STATUS_SUCCESS,
    ensures
        create_holds(
            m,
            goal_step(n, hdr, goal, path, found).0,
            goal_step(n, hdr, goal, path, found).1,
        ),
{
    let (o, s) = goal_step(n, hdr, goal, path, found);
    match found {
        Ok((attr, is_dir)) => {
            lemma_refused(m, n, hdr, STATUS_OBJECT_NAME_COLLISION);
            lemma_opened(n, hdr, path, attr, is_dir);
            let (p, q) = opened(n, hdr, path, attr, is_dir);
            lemma_holds_before(m, n, p, q);
        },
        Err(status) => {
            lemma_refused(m, n, hdr, status);
            if s is Ask {
                lemma_waits(m, o, s);
            }
        },
    }
}

proof fn lemma_stat(
    m: SessionModel,
    n: SessionModel,
    hdr: Smb2Header,
    goal: Goal,
    path: Seq<char>,
    t: Moment,
)
    requires
        hdr.command == SMB2_CREATE,
        opens(goal),
        m.next_handle < u64::MAX,
        untouched(m, n),
    ensures
        create_holds(
            m,
            stat_step(n, hdr, goal, path, t).0,
            stat_step(n, hdr, goal, path, t).1,
        ),
{
    let seen = noted(n, path, t.now);
    match looked_up(n, path, t) {
        Lookup::Known(attr, is_dir) => lemma_goal(m, seen, hdr, goal, path, Ok((attr, is_dir))),
        Lookup::Absent => lemma_goal(
            m,
            seen,
            hdr,
            goal,
            path,
            Err(STATUS_OBJECT_NAME_NOT_FOUND),
        ),
        Lookup::Unknown => {
            lemma_waits(m, n, stat_step(n, hdr, goal, path, t).1);
        },
    }
}

proof fn lemma_create(m: SessionModel, n: SessionModel, hdr: Smb2Header, body: Seq<u8>, t: Moment)
    requires
        hdr.command == SMB2_CREATE,
        m.next_handle < u64::MAX,
        untouched(m, n),
    ensures
        create_holds(m, create_step(n, hdr, body, t).0, create_step(n, hdr, body, t).1),
{
    let path = remote_path(n.root, create_name(body));
    let want_dir = le32_at(body, 40) & FILE_DIRECTORY_FILE != 0;
    lemma_refused(m, n, hdr, STATUS_INVALID_PARAMETER);
    lemma_refused(m, n, hdr, STATUS_OBJECT_NAME_NOT_FOUND);
    let attr = inhibitor_attr(t.wall);
    lemma_opened(n, hdr, path, attr, false);
    lemma_opened_pipe(n, hdr, t.wall);
    let (o, s) = opened(n, hdr, path, attr, false);
    lemma_holds_before(m, n, o, s);
    let (o, s) = opened_pipe(n, hdr, t.wall);
    lemma_holds_before(m, n, o, s);
    let ask = ask_create(hdr, path, false, NEW_FILE_FLAGS);
    lemma_waits(m, n, ask);
    lemma_stat(m, n, hdr, Goal::Existing, path, t);
    lemma_stat(m, n, hdr, Goal::OpenOrCreate { want_dir }, path, t);
    lemma_stat(m, n, hdr, Goal::CreateNew { want_dir }, path, t);
}

proof fn lemma_create_goes_on(
    m: SessionModel,
    hdr: Smb2Header,
    next: ThenView,
    reply: ReplyView,
    t: Moment,
)
    requires
        hdr.command == SMB2_CREATE,
        is_for_create(next),
        m.next_handle < u64::MAX,
    ensures
        create_holds(
            m,
            resume_step(m, hdr, next, reply, t).0,
            resume_step(m, hdr, next, reply, t).1,
        ),
{
    lemma_refused(m, m, hdr, STATUS_ACCESS_DENIED);
    match next {
        ThenOf::Stat { goal, path } => {
            lemma_goal(m, learnt(m, path, reply, t.now), hdr, goal, path, told(reply));
        },
        ThenOf::Made { path } => {
            lemma_stat(m, forgotten(m, path), hdr, Goal::Existing, path, t);
        },
        ThenOf::Created { path } => {
            lemma_stat(m, forgotten(m, path), hdr, Goal::Existing, path, t);
        },
        _ => {
            let (o, s) = resume_step(m, hdr, next, reply, t);
            if s is Ask {
                lemma_waits(m, o, s);
            }
        },
    }
}

/// What a step of any other request does to the session.
spec fn other_holds(a: SessionModel, b: SessionModel, s: StepView) -> bool {
    no_new_handle(a, b) && (s matches StepView::Ask(_, _, next) ==> !is_for_create(next))
}

proof fn lemma_other_stat(
    m: SessionModel,
    hdr: Smb2Header,
    goal: Goal,
    path: Seq<char>,
    t: Moment,
)
    requires
        !opens(goal),
    ensures
        other_holds(m, stat_step(m, hdr, goal, path, t).0, stat_step(m, hdr, goal, path, t).1),
{
}

proof fn lemma_other_command(m: SessionModel, hdr: Smb2Header, body: Seq<u8>, t: Moment)
    requires
        hdr.command != SMB2_CREATE,
    ensures
        other_holds(m, command_step(m, hdr, body, t).0, command_step(m, hdr, body, t).1),
{
    let a = resolved(m, le64_at(body, 24));
    lemma_other_stat(
        m,
        hdr,
        Goal::QueryInfo { info_type: body[2], class: body[3], is_dir: m.handles[a].is_dir },
        m.handles[a].path,
        t,
    );
    let b = resolved(m, le64_at(body, 16));
    let data = set_data(body);
    lemma_other_stat(
        m,
        hdr,
        Goal::SetTimes { atime: le64_at(data, 8), mtime: le64_at(data, 16) },
        m.handles[b].path,
        t,
    );
    let q = query_info_step(m, hdr, body, t);
    assert(other_holds(m, q.0, q.1));
    let s = set_info_step(m, hdr, body, t);
    assert(other_holds(m, s.0, s.1));
}

/// A CREATE that is answered with success takes the next number: both halves of
/// the file number in the answer are that number, the handles gain it and no
/// other, and the next request of the compound can name it. No other step gives
/// out a number or changes what the compound names, and a CREATE that waits or
/// is refused leaves the handles as they were.
pub proof fn law_creates_take_the_next_number(m: SessionModel, e: Event)
    requires
        is_sensible(e),
        m.next_handle < u64::MAX,
    ensures
        ({
            let (o, s) = event_step(m, e);
            &&& match s {
                StepView::Ask(_, hdr, next) => {
                    &&& belongs(hdr, next)
                    &&& no_new_handle(m, o)
                    &&& is_for_create(next) ==> untouched(m, o)
                },
                StepView::Reply(r) => if grants_create(s) {
                    one_more_handle(m, o) && file_id(r) == (m.next_handle, m.next_handle)
                } else {
                    no_new_handle(m, o) && (answers_create(s) ==> untouched(m, o))
                },
            }
        }),
{
    reveal(create_holds);
    match e {
        Event::Message(msg, t) => {
            law_every_request_is_answered(m, msg, t);
            let c = counted(m, t.now);
            if let Some(hdr) = header_of(msg) {
                let body = msg.skip(SMB2_HEADER_SIZE as int);
                if hdr.command == SMB2_CREATE {
                    lemma_create(m, c, hdr, body, t);
                } else {
                    lemma_other_command(c, hdr, body, t);
                }
            }
        },
        Event::Replied(hdr, next, reply, t) => {
            law_waiting_requests_are_answered(m, hdr, next, reply, t);
            if hdr.command == SMB2_CREATE {
                lemma_create_goes_on(m, hdr, next, reply, t);
            } else {
                let (o, s) = resume_step(m, hdr, next, reply, t);
                assert(other_holds(m, o, s));
            }
        },
    }
}

/// The handle numbers of a session count its CREATEs: after a history of
/// requests the last number that was given out is that of the CREATEs that were
/// answered with success, and it is what a compound means by the handle that it
/// has just made, closed or not. Where there was none, that is 0.
pub proof fn law_numbers_count_creates(
    root: Seq<char>,
    share: Seq<char>,
    clock: Clock,
    events: Seq<Event>,
    fid: u64,
)
    requires
        forall|i: int| 0 <= i < events.len() ==> is_sensible(#[trigger] events[i]),
        creates_in(new_session(root, share, clock), events) < u64::MAX - 1,
    ensures
        ({
            let start = new_session(root, share, clock);
            let m = after_history(start, events);
            let k = creates_in(start, events);
            &&& m.next_handle == k + 1
            &&& m.last_create_handle == k
            &&& resolved(m, SAME_HANDLE) == k
            &&& fid != SAME_HANDLE ==> resolved(m, fid) == fid
        }),
    decreases events.len(),
{
    let start = new_session(root, share, clock);
    if events.len() > 0 {
        let before = events.drop_last();
        assert forall|i: int| 0 <= i < before.len() implies is_sensible(#[trigger] before[i]) by {
            assert(before[i] == events[i]);
        }
        law_numbers_count_creates(root, share, clock, before, fid);
        assert(is_sensible(events[events.len() - 1]));
        law_creates_take_the_next_number(after_history(start, before), events.last());
    }
}

} // verus!
