//! A pool of conversations with one host: which of them an operation goes to,
//! when it is tried again, and what is known of the connection as a whole.

use crate::bytes::{copy_range, put_all};
use crate::sftp::call::{
    failed, failed_reply, fault_of, is_broken, reply_is_broken, want_of, wanted, CallOf, CallView,
    ReplyView, SftpCall, SftpReply,
};
use crate::text::{own_text, owned_text, text_of};
use crate::wire::{Fault, FileAttr, SftpError, SftpResult};
use vstd::prelude::*;

verus! {

pub const CONN_STATE_CONNECTED: u8 = 0;

pub const CONN_STATE_RECONNECTING: u8 = 1;

pub const CONN_STATE_DISCONNECTED: u8 = 2;

/// So many failures in a row and the connection counts as lost.
pub const MAX_RECONNECT_FAILURES: u8 = 3;

/// How many conversations a pool holds.
pub const NUM_CONNECTIONS: usize = 4;

// ── Routing ─────────────────────────────────────────────────────────

/// A handle as the pool gives it out: the place of the conversation that it
/// belongs to, then the server's own handle.
pub open spec fn tagged(index: int, raw: Seq<u8>) -> Seq<u8> {
    seq![index as u8] + raw
}

/// The conversation that a pool handle belongs to.
pub open spec fn place_in_pool(handle: Seq<u8>) -> int {
    handle[0] as int % NUM_CONNECTIONS as int
}

/// The server's own part of a pool handle.
pub open spec fn raw_handle(handle: Seq<u8>) -> Seq<u8> {
    handle.skip(1)
}

/// A handle finds its way back: what the pool tags with a place leads to that
/// place, and the server gets its own handle back.
pub proof fn law_handles_find_their_session(index: int, raw: Seq<u8>)
    requires
        0 <= index < NUM_CONNECTIONS,
    ensures
        tagged(index, raw).len() > 0,
        place_in_pool(tagged(index, raw)) == index,
        raw_handle(tagged(index, raw)) == raw,
{
    assert(tagged(index, raw).skip(1) =~= raw);
}

/// The pool handles that cannot belong to any conversation.
pub open spec fn has_place(call: CallView) -> bool {
    match call {
        CallOf::Close { handle } => handle.len() > 0,
        CallOf::Read { handle, .. } => handle.len() > 0,
        CallOf::Write { handle, .. } => handle.len() > 0,
        _ => true,
    }
}

/// Operations on an open handle. They go to the conversation that opened it
/// and are not tried again.
pub open spec fn is_routed(call: CallView) -> bool {
    call is Close || call is Read || call is Write
}

/// Operations that are tried again, once, over a new connection.
pub open spec fn is_retried(call: CallView) -> bool {
    !is_routed(call) && !(call is Open)
}

/// The operation as the server is to see it.
pub open spec fn raw_call(call: CallView) -> CallView {
    match call {
        CallOf::Close { handle } => CallOf::Close { handle: raw_handle(handle) },
        CallOf::Read { handle, offset, len } => CallOf::Read {
            handle: raw_handle(handle),
            offset,
            len,
        },
        CallOf::Write { handle, offset, data } => CallOf::Write {
            handle: raw_handle(handle),
            offset,
            data,
        },
        _ => call,
    }
}

/// Where an operation goes: to the conversation of its handle, for an `open`
/// to the next one in turn, and else to the first.
pub open spec fn place_for(next_session: u32, call: CallView) -> int {
    match call {
        CallOf::Close { handle } => place_in_pool(handle),
        CallOf::Read { handle, .. } => place_in_pool(handle),
        CallOf::Write { handle, .. } => place_in_pool(handle),
        CallOf::Open { .. } => next_session as int % NUM_CONNECTIONS as int,
        _ => 0,
    }
}

/// How often a conversation was picked in turn, once this operation was started
/// too.
pub open spec fn next_pick(next_session: u32, call: CallView) -> u32 {
    if call is Open {
        next_session.wrapping_add(1)
    } else {
        next_session
    }
}

// ── One operation ───────────────────────────────────────────────────

/// An operation on its way through the pool.
pub struct PoolJob {
    /// The conversation that is to perform it.
    pub index: usize,
    /// The operation as the server is to see it.
    pub call: SftpCall,
    /// Whether this is the second attempt.
    pub again: bool,
}

/// A [`PoolJob`] in terms of sequences.
pub struct JobView {
    pub index: int,
    pub call: CallView,
    pub again: bool,
}

impl View for PoolJob {
    type V = JobView;

    open spec fn view(&self) -> JobView {
        JobView { index: self.index as int, call: self.call@, again: self.again }
    }
}

/// What came of a job's last turn.
pub enum PoolEvent {
    /// The conversation performed the operation.
    Ran(SftpReply),
    /// There is no conversation at that place.
    Absent,
    /// The place cannot be used any more.
    Poisoned,
    /// The conversation was opened anew, or could not be.
    Reconnected(bool),
}

/// A [`PoolEvent`] in terms of sequences.
pub enum EventView {
    Ran(ReplyView),
    Absent,
    Poisoned,
    Reconnected(bool),
}

impl View for PoolEvent {
    type V = EventView;

    open spec fn view(&self) -> EventView {
        match self {
            PoolEvent::Ran(r) => EventView::Ran(r@),
            PoolEvent::Absent => EventView::Absent,
            PoolEvent::Poisoned => EventView::Poisoned,
            PoolEvent::Reconnected(ok) => EventView::Reconnected(*ok),
        }
    }
}

/// What to do next for an operation.
pub enum PoolTurn {
    /// Perform the job's operation.
    Run(PoolJob),
    /// Open the job's conversation anew.
    Reconnect(PoolJob),
    /// Hand back the reply.
    Finish(SftpReply),
}

/// A [`PoolTurn`] in terms of sequences.
pub enum PoolTurnView {
    Run(JobView),
    Reconnect(JobView),
    Finish(ReplyView),
}

impl View for PoolTurn {
    type V = PoolTurnView;

    open spec fn view(&self) -> PoolTurnView {
        match self {
            PoolTurn::Run(j) => PoolTurnView::Run(j@),
            PoolTurn::Reconnect(j) => PoolTurnView::Reconnect(j@),
            PoolTurn::Finish(r) => PoolTurnView::Finish(r@),
        }
    }
}

/// What is answered where no conversation can be reached.
pub open spec fn unreachable_reply(call: CallView) -> ReplyView {
    failed(wanted(call), Fault::Disconnected)
}

/// What is answered to an operation on a handle whose conversation is not
/// there: a handle that is gone counts as closed.
pub open spec fn gone_reply(call: CallView) -> ReplyView {
    if call is Close {
        ReplyView::Nothing(Ok(()))
    } else {
        unreachable_reply(call)
    }
}

/// How an operation starts, given how often a conversation was picked so far.
pub open spec fn job_start(next_session: u32, call: CallView) -> PoolTurnView {
    if has_place(call) {
        PoolTurnView::Run(
            JobView {
                index: place_for(next_session, call),
                call: raw_call(call),
                again: false,
            },
        )
    } else {
        PoolTurnView::Finish(gone_reply(call))
    }
}

/// The reply as the caller is to see it: a new handle carries its place.
pub open spec fn tagged_reply(job: JobView, reply: ReplyView) -> ReplyView {
    match (job.call, reply) {
        (CallOf::Open { .. }, ReplyView::Handle(Ok(raw))) => ReplyView::Handle(
            Ok(tagged(job.index, raw)),
        ),
        _ => reply,
    }
}

/// How an operation goes on.
pub open spec fn job_step(job: JobView, event: EventView) -> PoolTurnView {
    match event {
        EventView::Poisoned => PoolTurnView::Finish(unreachable_reply(job.call)),
        EventView::Absent => if is_routed(job.call) {
            PoolTurnView::Finish(gone_reply(job.call))
        } else if job.again {
            PoolTurnView::Finish(unreachable_reply(job.call))
        } else {
            PoolTurnView::Reconnect(job)
        },
        EventView::Ran(reply) => if !job.again && is_retried(job.call) && (fault_of(
            reply,
        ) matches Some(e) && is_broken(e)) {
            PoolTurnView::Reconnect(job)
        } else {
            PoolTurnView::Finish(tagged_reply(job, reply))
        },
        EventView::Reconnected(ok) => if ok {
            PoolTurnView::Run(JobView { again: true, ..job })
        } else {
            PoolTurnView::Finish(unreachable_reply(job.call))
        },
    }
}

/// No operation is performed more than twice: a second attempt ends the job,
/// whatever comes of it.
pub proof fn law_at_most_two_attempts(job: JobView, event: EventView)
    requires
        job.again,
        !(event is Reconnected),
    ensures
        job_step(job, event) is Finish,
{
}

/// An operation on an open handle is performed at most once and never opens a
/// connection: its first event ends it.
pub proof fn law_handle_operations_run_once(job: JobView, event: EventView)
    requires
        is_routed(job.call),
        !(event is Reconnected),
    ensures
        job_step(job, event) is Finish,
{
}

/// A handle that was opened through the pool is read, written and closed through
/// the conversation that opened it and no other, with the handle that its server
/// gave out.
pub proof fn law_handles_are_used_where_they_were_opened(
    index: int,
    raw: Seq<u8>,
    next: u32,
    offset: u64,
    len: u32,
    data: Seq<u8>,
)
    requires
        0 <= index < NUM_CONNECTIONS,
    ensures
        ({
            let handle = tagged(index, raw);
            &&& job_start(next, CallOf::Read { handle, offset, len }) == PoolTurnView::Run(
                JobView { index, call: CallOf::Read { handle: raw, offset, len }, again: false },
            )
            &&& job_start(next, CallOf::Write { handle, offset, data }) == PoolTurnView::Run(
                JobView { index, call: CallOf::Write { handle: raw, offset, data }, again: false },
            )
            &&& job_start(next, CallOf::Close { handle }) == PoolTurnView::Run(
                JobView { index, call: CallOf::Close { handle: raw }, again: false },
            )
        }),
{
    law_handles_find_their_session(index, raw);
}

/// How often a conversation was picked in turn, once these operations were
/// started too.
pub open spec fn picked_after(next_session: u32, calls: Seq<CallView>) -> u32
    decreases calls.len(),
{
    if calls.len() == 0 {
        next_session
    } else {
        next_pick(picked_after(next_session, calls.drop_last()), calls.last())
    }
}

/// How many of these operations open a file.
pub open spec fn opens_in(calls: Seq<CallView>) -> nat
    decreases calls.len(),
{
    if calls.len() == 0 {
        0
    } else {
        opens_in(calls.drop_last()) + if calls.last() is Open {
            1nat
        } else {
            0nat
        }
    }
}

proof fn lemma_picked(calls: Seq<CallView>)
    ensures
        picked_after(0, calls) == opens_in(calls) % 0x1_0000_0000,
    decreases calls.len(),
{
    if calls.len() > 0 {
        lemma_picked(calls.drop_last());
    }
}

/// Files are opened in turn: whatever else a pool has done, the one that is
/// opened after `k` others goes to the place that `k` leaves over, divided by
/// the number of places. Its handle carries that place, whether or not the
/// conversation had to be opened anew first. A refusal is handed on as it is, and
/// nothing is tried again.
pub proof fn law_opens_take_turns(
    calls: Seq<CallView>,
    path: Seq<char>,
    flags: u32,
    mode: u32,
    raw: Seq<u8>,
    fault: Fault,
)
    ensures
        ({
            let index = opens_in(calls) as int % NUM_CONNECTIONS as int;
            let call = CallOf::Open { path, flags, mode };
            let job = JobView { index, call, again: false };
            let second = JobView { index, call, again: true };
            let given = EventView::Ran(ReplyView::Handle(Ok(raw)));
            let refused = EventView::Ran(ReplyView::Handle(Err(fault)));
            let done = PoolTurnView::Finish(ReplyView::Handle(Ok(tagged(index, raw))));
            let failed = PoolTurnView::Finish(ReplyView::Handle(Err(fault)));
            &&& 0 <= index < NUM_CONNECTIONS
            &&& job_start(picked_after(0, calls), call) == PoolTurnView::Run(job)
            &&& job_step(job, given) == done
            &&& job_step(job, refused) == failed
            &&& job_step(job, EventView::Absent) == PoolTurnView::Reconnect(job)
            &&& job_step(job, EventView::Reconnected(true)) == PoolTurnView::Run(second)
            &&& job_step(second, given) == done
            &&& job_step(second, refused) == failed
        }),
{
    lemma_picked(calls);
}

fn split_handle(handle: &Vec<u8>) -> (r: (usize, Vec<u8>))
    requires
        handle@.len() > 0,
    ensures
        r.0 as int == place_in_pool(handle@),
        r.1@ == raw_handle(handle@),
{
    let raw = copy_range(handle, 1, handle.len());
    assert(raw@ =~= raw_handle(handle@));
    (handle[0] as usize % NUM_CONNECTIONS, raw)
}

fn give_up(call: &SftpCall) -> (t: PoolTurn)
    ensures
        t@ == PoolTurnView::Finish(unreachable_reply(call@)),
{
    PoolTurn::Finish(failed_reply(want_of(call), SftpError::Disconnected))
}

fn call_gone(call: &SftpCall) -> (t: PoolTurn)
    ensures
        t@ == PoolTurnView::Finish(gone_reply(call@)),
{
    match call {
        CallOf::Close { .. } => PoolTurn::Finish(SftpReply::Nothing(Ok(()))),
        _ => give_up(call),
    }
}

fn call_is_routed(call: &SftpCall) -> (r: bool)
    ensures
        r == is_routed(call@),
{
    match call {
        CallOf::Close { .. } => true,
        CallOf::Read { .. } => true,
        CallOf::Write { .. } => true,
        _ => false,
    }
}

fn call_is_open(call: &SftpCall) -> (r: bool)
    ensures
        r == (call@ is Open),
{
    match call {
        CallOf::Open { .. } => true,
        _ => false,
    }
}

impl PoolJob {
    /// Takes an event and says what to do next.
    pub fn on_event(self, event: PoolEvent) -> (t: PoolTurn)
        requires
            self.index < NUM_CONNECTIONS,
        ensures
            t@ == job_step(self@, event@),
    {
        match event {
            PoolEvent::Poisoned => give_up(&self.call),
            PoolEvent::Absent => {
                if call_is_routed(&self.call) {
                    call_gone(&self.call)
                } else if self.again {
                    give_up(&self.call)
                } else {
                    PoolTurn::Reconnect(self)
                }
            },
            PoolEvent::Ran(reply) => {
                let opening = call_is_open(&self.call);
                let retried = !call_is_routed(&self.call) && !opening;
                if !self.again && retried && reply_is_broken(&reply) {
                    return PoolTurn::Reconnect(self);
                }
                match reply {
                    SftpReply::Handle(Ok(raw)) => {
                        if opening {
                            let mut handle: Vec<u8> = Vec::new();
                            handle.push(self.index as u8);
                            put_all(&mut handle, &raw);
                            assert(handle@ =~= tagged(self.index as int, raw@));
                            PoolTurn::Finish(SftpReply::Handle(Ok(handle)))
                        } else {
                            PoolTurn::Finish(SftpReply::Handle(Ok(raw)))
                        }
                    },
                    other => PoolTurn::Finish(other),
                }
            },
            PoolEvent::Reconnected(ok) => {
                if ok {
                    PoolTurn::Run(PoolJob { index: self.index, call: self.call, again: true })
                } else {
                    give_up(&self.call)
                }
            },
        }
    }
}

// ── The pool ────────────────────────────────────────────────────────

/// What the pool knows: how to reach the host, which conversations are there,
/// and how the last attempts to reconnect went.
pub struct ReconnectingSftp {
    pub next_session: u32,
    pub host: String,
    pub port: u16,
    pub user: Option<String>,
    pub identity: Option<String>,
    pub live: Vec<bool>,
    pub state: u8,
    pub fail_count: u8,
}

/// The state after so many failures in a row.
pub open spec fn state_after_failures(count: int) -> u8 {
    if count >= MAX_RECONNECT_FAILURES {
        CONN_STATE_DISCONNECTED
    } else {
        CONN_STATE_RECONNECTING
    }
}

/// The pool once an attempt to open a conversation anew has ended.
pub open spec fn after_attempt(pool: ReconnectingSftp, index: int, ok: bool) -> (
    Seq<bool>,
    u8,
    u8,
) {
    if ok {
        (pool.live@.update(index, true), CONN_STATE_CONNECTED, 0)
    } else {
        (
            pool.live@.update(index, false),
            state_after_failures(pool.fail_count + 1),
            (pool.fail_count + 1) as u8,
        )
    }
}

/// A run over all places of the pool, each to be opened anew.
#[derive(Debug, Clone, Copy)]
pub struct Sweep {
    /// The place to open next.
    pub index: usize,
    /// Whether any attempt has succeeded so far.
    pub any_ok: bool,
}

/// How a [`Sweep`] goes on.
#[derive(Debug, Clone, Copy)]
pub enum SweepTurn {
    /// Open the conversation at `index` anew.
    Reconnect(Sweep),
    /// All places were tried; says whether any of them works.
    Done(bool),
}

impl Sweep {
    /// Takes the outcome of one attempt.
    pub fn record(self, ok: bool) -> (t: SweepTurn)
        requires
            self.index < NUM_CONNECTIONS,
        ensures
            t == (if self.index + 1 < NUM_CONNECTIONS {
                SweepTurn::Reconnect(
                    Sweep { index: (self.index + 1) as usize, any_ok: self.any_ok || ok },
                )
            } else {
                SweepTurn::Done(self.any_ok || ok)
            }),
    {
        let any_ok = self.any_ok || ok;
        if self.index + 1 < NUM_CONNECTIONS {
            SweepTurn::Reconnect(Sweep { index: self.index + 1, any_ok })
        } else {
            SweepTurn::Done(any_ok)
        }
    }
}

impl ReconnectingSftp {
    /// There is one flag for each place.
    pub open spec fn well_formed(self) -> bool {
        self.live@.len() == NUM_CONNECTIONS
    }

    /// The fields that tell how to reach the host.
    pub open spec fn same_target(self, other: ReconnectingSftp) -> bool {
        self.host@ == other.host@ && self.port == other.port && owned_text(self.user) == owned_text(
            other.user,
        ) && owned_text(self.identity) == owned_text(other.identity)
    }

    /// A pool whose first conversation is there, for a host named `test`.
    pub fn dummy() -> (p: Self)
        ensures
            p.well_formed(),
            p.next_session == 0,
            p.host@ == "test"@,
            p.port == 22,
            p.user is None,
            p.identity is None,
            p.live@ == seq![true, false, false, false],
            p.state == CONN_STATE_CONNECTED,
            p.fail_count == 0,
    {
        let mut live: Vec<bool> = Vec::new();
        live.push(true);
        live.push(false);
        live.push(false);
        live.push(false);
        assert(live@ =~= seq![true, false, false, false]);
        ReconnectingSftp {
            next_session: 0,
            host: String::from_str("test"),
            port: 22,
            user: None,
            identity: None,
            live,
            state: CONN_STATE_CONNECTED,
            fail_count: 0,
        }
    }

    /// A pool for a host, once its conversations have been tried. The first has
    /// to be there; the others may be missing.
    pub fn connect(
        host: &str,
        port: u16,
        user: Option<&str>,
        identity: Option<&str>,
        primary: SftpResult<()>,
        others: &[bool],
    ) -> (r: SftpResult<Self>)
        requires
            others@.len() + 1 == NUM_CONNECTIONS,
        ensures
            match (primary, r) {
                (Ok(_), Ok(p)) => {
                    &&& p.well_formed()
                    &&& p.next_session == 0
                    &&& p.host@ == host@
                    &&& p.port == port
                    &&& owned_text(p.user) == text_of(user)
                    &&& owned_text(p.identity) == text_of(identity)
                    &&& p.live@ == seq![true] + others@
                    &&& p.state == CONN_STATE_CONNECTED
                    &&& p.fail_count == 0
                },
                (Err(e), Err(f)) => f == e,
                _ => false,
            },
    {
        match primary {
            Ok(_) => {},
            Err(e) => return Err(e),
        }
        let mut live: Vec<bool> = Vec::new();
        live.push(true);
        let mut i: usize = 0;
        assert(live@ =~= seq![true] + others@.take(0));
        while i < others.len()
            invariant
                i <= others@.len(),
                live@ == seq![true] + others@.take(i as int),
            decreases others@.len() - i,
        {
            live.push(others[i]);
            i += 1;
            assert(live@ =~= seq![true] + others@.take(i as int));
        }
        assert(others@.take(i as int) =~= others@);
        Ok(
            ReconnectingSftp {
                next_session: 0,
                host: String::from_str(host),
                port,
                user: own_text(user),
                identity: own_text(identity),
                live,
                state: CONN_STATE_CONNECTED,
                fail_count: 0,
            },
        )
    }

    /// The state of the connection as a whole.
    pub fn state(&self) -> (s: u8)
        ensures
            s == self.state,
    {
        self.state
    }

    /// Says whether the first conversation is there.
    pub fn is_connected(&self) -> (r: bool)
        requires
            self.well_formed(),
        ensures
            r == self.live@[0],
    {
        self.live[0]
    }

    /// Picks the next conversation in turn.
    pub fn pick_session(&mut self) -> (index: usize)
        requires
            old(self).well_formed(),
        ensures
            final(self).well_formed(),
            index as int == old(self).next_session as int % NUM_CONNECTIONS as int,
            *final(self) == (ReconnectingSftp {
                next_session: old(self).next_session.wrapping_add(1),
                ..*old(self)
            }),
    {
        let n = self.next_session;
        self.next_session = n.wrapping_add(1);
        n as usize % NUM_CONNECTIONS
    }

    /// Notes that the conversation at `index` is about to be opened anew. Until
    /// that has happened it is not there.
    pub fn reconnect_session(&mut self, index: usize)
        requires
            old(self).well_formed(),
            index < NUM_CONNECTIONS,
        ensures
            final(self).well_formed(),
            final(self).same_target(*old(self)),
            final(self).next_session == old(self).next_session,
            final(self).live@ == old(self).live@.update(index as int, false),
            final(self).state == CONN_STATE_RECONNECTING,
            final(self).fail_count == old(self).fail_count,
    {
        self.state = CONN_STATE_RECONNECTING;
        self.live[index] = false;
    }

    /// Notes that a place cannot be used any more.
    pub fn session_poisoned(&mut self)
        requires
            old(self).well_formed(),
        ensures
            final(self).well_formed(),
            *final(self) == (ReconnectingSftp { state: CONN_STATE_DISCONNECTED, ..*old(self) }),
    {
        self.state = CONN_STATE_DISCONNECTED;
    }

    /// Notes how the attempt to open the conversation at `index` ended.
    pub fn reconnect_done(&mut self, index: usize, ok: bool)
        requires
            old(self).well_formed(),
            index < NUM_CONNECTIONS,
            !ok ==> old(self).fail_count < u8::MAX,
        ensures
            final(self).well_formed(),
            final(self).same_target(*old(self)),
            final(self).next_session == old(self).next_session,
            (final(self).live@, final(self).state, final(self).fail_count) == after_attempt(
                *old(self),
                index as int,
                ok,
            ),
    {
        if ok {
            self.live[index] = true;
            self.fail_count = 0;
            self.state = CONN_STATE_CONNECTED;
        } else {
            self.live[index] = false;
            self.fail_count = self.fail_count + 1;
            if self.fail_count >= MAX_RECONNECT_FAILURES {
                self.state = CONN_STATE_DISCONNECTED;
            } else {
                self.state = CONN_STATE_RECONNECTING;
            }
        }
    }

    /// Starts to open every conversation anew.
    pub fn force_reconnect(&mut self) -> (s: Sweep)
        requires
            old(self).well_formed(),
        ensures
            final(self).well_formed(),
            *final(self) == (ReconnectingSftp { fail_count: 0, ..*old(self) }),
            s == (Sweep { index: 0, any_ok: false }),
    {
        self.fail_count = 0;
        Sweep { index: 0, any_ok: false }
    }

    /// Starts an operation.
    pub fn start(&mut self, call: SftpCall) -> (t: PoolTurn)
        requires
            old(self).well_formed(),
        ensures
            final(self).well_formed(),
            *final(self) == (ReconnectingSftp {
                next_session: next_pick(old(self).next_session, call@),
                ..*old(self)
            }),
            t@ == job_start(old(self).next_session, call@),
            t matches PoolTurn::Run(j) ==> j.index < NUM_CONNECTIONS,
    {
        match call {
            CallOf::Close { handle } => {
                if handle.len() == 0 {
                    return PoolTurn::Finish(SftpReply::Nothing(Ok(())));
                }
                let (index, raw) = split_handle(&handle);
                PoolTurn::Run(PoolJob { index, call: CallOf::Close { handle: raw }, again: false })
            },
            CallOf::Read { handle, offset, len } => {
                if handle.len() == 0 {
                    return PoolTurn::Finish(SftpReply::Data(Err(SftpError::Disconnected)));
                }
                let (index, raw) = split_handle(&handle);
                let call = CallOf::Read { handle: raw, offset, len };
                PoolTurn::Run(PoolJob { index, call, again: false })
            },
            CallOf::Write { handle, offset, data } => {
                if handle.len() == 0 {
                    return PoolTurn::Finish(SftpReply::Nothing(Err(SftpError::Disconnected)));
                }
                let (index, raw) = split_handle(&handle);
                let call = CallOf::Write { handle: raw, offset, data };
                PoolTurn::Run(PoolJob { index, call, again: false })
            },
            CallOf::Open { path, flags, mode } => {
                let index = self.pick_session();
                let call = CallOf::Open { path, flags, mode };
                PoolTurn::Run(PoolJob { index, call, again: false })
            },
            other => PoolTurn::Run(PoolJob { index: 0, call: other, again: false }),
        }
    }

    /// Starts to ask for the canonical form of a path.
    pub fn realpath(&mut self, path: &str) -> (t: PoolTurn)
        requires
            old(self).well_formed(),
        ensures
            *final(self) == *old(self),
            t@ == job_start(old(self).next_session, CallOf::Realpath { path: path@ }),
    {
        self.start(CallOf::Realpath { path: String::from_str(path) })
    }

    /// Starts to ask for the attributes of a path itself.
    pub fn lstat(&mut self, path: &str) -> (t: PoolTurn)
        requires
            old(self).well_formed(),
        ensures
            *final(self) == *old(self),
            t@ == job_start(old(self).next_session, CallOf::Lstat { path: path@ }),
    {
        self.start(CallOf::Lstat { path: String::from_str(path) })
    }

    /// Starts to set the attributes of a path.
    pub fn setstat(&mut self, path: &str, attrs: &FileAttr) -> (t: PoolTurn)
        requires
            old(self).well_formed(),
        ensures
            *final(self) == *old(self),
            t@ == job_start(
                old(self).next_session,
                CallOf::Setstat { path: path@, attrs: *attrs },
            ),
    {
        self.start(CallOf::Setstat { path: String::from_str(path), attrs: *attrs })
    }

    /// Starts to list a directory.
    pub fn readdir(&mut self, path: &str) -> (t: PoolTurn)
        requires
            old(self).well_formed(),
        ensures
            *final(self) == *old(self),
            t@ == job_start(old(self).next_session, CallOf::Readdir { path: path@ }),
    {
        self.start(CallOf::Readdir { path: String::from_str(path) })
    }

    /// Starts to open a file, in the next conversation in turn.
    pub fn open(&mut self, path: &str, flags: u32, mode: u32) -> (t: PoolTurn)
        requires
            old(self).well_formed(),
        ensures
            *final(self) == (ReconnectingSftp {
                next_session: old(self).next_session.wrapping_add(1),
                ..*old(self)
            }),
            t@ == job_start(old(self).next_session, CallOf::Open { path: path@, flags, mode }),
    {
        self.start(CallOf::Open { path: String::from_str(path), flags, mode })
    }

    /// Starts to close a handle.
    pub fn close(&mut self, handle: &[u8]) -> (t: PoolTurn)
        requires
            old(self).well_formed(),
        ensures
            *final(self) == *old(self),
            t@ == job_start(old(self).next_session, CallOf::Close { handle: handle@ }),
    {
        self.start(CallOf::Close { handle: crate::bytes::slice_copy(handle) })
    }

    /// Starts to read from a handle.
    pub fn read(&mut self, handle: &[u8], offset: u64, len: u32) -> (t: PoolTurn)
        requires
            old(self).well_formed(),
        ensures
            *final(self) == *old(self),
            t@ == job_start(old(self).next_session, CallOf::Read { handle: handle@, offset, len }),
    {
        self.start(CallOf::Read { handle: crate::bytes::slice_copy(handle), offset, len })
    }

    /// Starts to write to a handle.
    pub fn write(&mut self, handle: &[u8], offset: u64, data: &[u8]) -> (t: PoolTurn)
        requires
            old(self).well_formed(),
        ensures
            *final(self) == *old(self),
            t@ == job_start(
                old(self).next_session,
                CallOf::Write { handle: handle@, offset, data: data@ },
            ),
    {
        self.start(
            CallOf::Write {
                handle: crate::bytes::slice_copy(handle),
                offset,
                data: crate::bytes::slice_copy(data),
            },
        )
    }

    /// Starts to make a directory.
    pub fn mkdir(&mut self, path: &str, mode: u32) -> (t: PoolTurn)
        requires
            old(self).well_formed(),
        ensures
            *final(self) == *old(self),
            t@ == job_start(old(self).next_session, CallOf::Mkdir { path: path@, mode }),
    {
        self.start(CallOf::Mkdir { path: String::from_str(path), mode })
    }

    /// Starts to remove a directory.
    pub fn rmdir(&mut self, path: &str) -> (t: PoolTurn)
        requires
            old(self).well_formed(),
        ensures
            *final(self) == *old(self),
            t@ == job_start(old(self).next_session, CallOf::Rmdir { path: path@ }),
    {
        self.start(CallOf::Rmdir { path: String::from_str(path) })
    }

    /// Starts to remove a file.
    pub fn remove(&mut self, path: &str) -> (t: PoolTurn)
        requires
            old(self).well_formed(),
        ensures
            *final(self) == *old(self),
            t@ == job_start(old(self).next_session, CallOf::Remove { path: path@ }),
    {
        self.start(CallOf::Remove { path: String::from_str(path) })
    }

    /// Starts to rename a file or a directory.
    pub fn rename(&mut self, from: &str, to: &str) -> (t: PoolTurn)
        requires
            old(self).well_formed(),
        ensures
            *final(self) == *old(self),
            t@ == job_start(old(self).next_session, CallOf::Rename { from: from@, to: to@ }),
    {
        self.start(CallOf::Rename { from: String::from_str(from), to: String::from_str(to) })
    }
}

/// The connection counts as lost exactly when so many attempts in a row have
/// failed; a success takes all of them back.
pub proof fn law_failures_add_up(pool: ReconnectingSftp, index: int, failures: nat)
    requires
        pool.fail_count == failures,
        failures < u8::MAX,
    ensures
        after_attempt(pool, index, false).2 == failures + 1,
        after_attempt(pool, index, false).1 == CONN_STATE_DISCONNECTED <==> failures + 1
            >= MAX_RECONNECT_FAILURES,
        after_attempt(pool, index, true).1 == CONN_STATE_CONNECTED,
        after_attempt(pool, index, true).2 == 0,
{
}

/// The third attempt in a row that fails gives the connection up (state 2); the
/// first two leave it to be tried again (state 1), and a success is the end of it
/// (state 0).
pub proof fn law_three_failures_are_the_end(pool: ReconnectingSftp, index: int)
    requires
        pool.fail_count < u8::MAX,
        0 <= index < pool.live@.len(),
    ensures
        after_attempt(pool, index, false).1 == if pool.fail_count >= 2 {
            2u8
        } else {
            1u8
        },
        after_attempt(pool, index, true).1 == 0,
        after_attempt(pool, index, true).0[index],
        !after_attempt(pool, index, false).0[index],
        forall|i: int|
            0 <= i < pool.live@.len() && i != index ==> #[trigger] after_attempt(
                pool,
                index,
                true,
            ).0[i] == pool.live@[i],
{
}

/// An operation on a path reaches its conversation just as it was asked for, over
/// the first conversation, or over each of the four in turn for an opening. It is
/// the same operation when it is tried again.
pub proof fn law_operations_are_passed_on(next: u32, call: CallView)
    requires
        !(call is Read) && !(call is Write) && !(call is Close),
    ensures
        job_start(next, call) matches PoolTurnView::Run(job) && {
            &&& job.call == call
            &&& job.index == if call is Open {
                next as int % 4
            } else {
                0
            }
            &&& job_step(job, EventView::Reconnected(true)) matches PoolTurnView::Run(again) && {
                &&& again.call == call
                &&& again.index == job.index
            }
        },
{
}

/// What the conversation replied is what the caller gets. Only the handle of a
/// file that was opened comes with the number of its conversation in front.
pub proof fn law_replies_are_passed_on(job: JobView, reply: ReplyView)
    requires
        0 <= job.index < 4,
    ensures
        job_step(job, EventView::Ran(reply)) matches PoolTurnView::Finish(got) ==> {
            if job.call is Open && (reply matches ReplyView::Handle(Ok(_))) {
                got matches ReplyView::Handle(Ok(h)) && (reply matches ReplyView::Handle(Ok(raw)) && {
                    &&& h.len() == raw.len() + 1
                    &&& h[0] == job.index
                    &&& h.skip(1) == raw
                })
            } else {
                got == reply
            }
        },
        job_step(job, EventView::Ran(reply)) is Finish <==> {
            ||| job.again
            ||| job.call is Read || job.call is Write || job.call is Close || job.call is Open
            ||| fault_of(reply) is None
            ||| !(fault_of(reply).unwrap() is Disconnected || fault_of(
                reply,
            ).unwrap() is Protocol)
        },
{
    if let ReplyView::Handle(Ok(raw)) = reply {
        law_handles_find_their_session(job.index, raw);
    }
}

} // verus!
