//! Requests that need the attributes of a path: from the cache where it knows
//! them, else from the remote side.

use crate::clock::CLOCK_END;
use crate::server::create::create_goal;
use crate::server::info::{query_goal, times_goal};
use crate::server::state::{
    inhibitor_path, learnt, looked_up, noted, told, Lookup, SessionModel, SmbSession,
};
use crate::server::step::{ask, Goal, Moment, Step, StepView, ThenOf};
use crate::sftp::call::{CallOf, ReplyView, SftpReply};
use crate::smb2::{Smb2Header, STATUS_OBJECT_NAME_NOT_FOUND};
use crate::wire::FileAttr;
use vstd::prelude::*;

verus! {

/// How a request goes on once the attributes of a path are known, or the status
/// that says why they are not.
pub open spec fn goal_step(
    m: SessionModel,
    hdr: Smb2Header,
    goal: Goal,
    path: Seq<char>,
    found: Result<(FileAttr, bool), u32>,
) -> (SessionModel, StepView) {
    match goal {
        Goal::QueryInfo { info_type, class, is_dir } => (
            m,
            query_goal(hdr, info_type, class, is_dir, path, found),
        ),
        Goal::SetTimes { atime, mtime } => (m, times_goal(hdr, atime, mtime, path, found)),
        _ => create_goal(m, hdr, goal, path, found),
    }
}

/// How a request that needs the attributes of a path starts.
pub open spec fn stat_step(
    m: SessionModel,
    hdr: Smb2Header,
    goal: Goal,
    path: Seq<char>,
    t: Moment,
) -> (SessionModel, StepView) {
    match looked_up(m, path, t) {
        Lookup::Known(attr, is_dir) => goal_step(
            noted(m, path, t.now),
            hdr,
            goal,
            path,
            Ok((attr, is_dir)),
        ),
        Lookup::Absent => goal_step(
            noted(m, path, t.now),
            hdr,
            goal,
            path,
            Err(STATUS_OBJECT_NAME_NOT_FOUND),
        ),
        Lookup::Unknown => (
            m,
            StepView::Ask(CallOf::Lstat { path }, hdr, ThenOf::Stat { goal, path }),
        ),
    }
}

/// How a request goes on once the remote side has told the attributes of a
/// path.
pub open spec fn told_step(
    m: SessionModel,
    hdr: Smb2Header,
    goal: Goal,
    path: Seq<char>,
    reply: ReplyView,
    t: Moment,
) -> (SessionModel, StepView) {
    goal_step(learnt(m, path, reply, t.now), hdr, goal, path, told(reply))
}

/// A path that only macOS asks for never reaches the remote side.
pub proof fn law_macos_files_are_never_asked_for(
    m: SessionModel,
    hdr: Smb2Header,
    goal: Goal,
    path: Seq<char>,
    t: Moment,
)
    requires
        crate::server::pattern::apple_metadata(crate::text::base_name(path)),
    ensures
        stat_step(m, hdr, goal, path, t).1 matches StepView::Ask(call, _, _) ==> !(call is Lstat),
{
}

/// A path whose attributes were just told is not asked for again: for a minute
/// every lookup gives them. The file that keeps Spotlight away is never asked
/// for in the first place.
pub proof fn law_told_attributes_are_remembered(
    m: SessionModel,
    path: Seq<char>,
    attr: FileAttr,
    now: u128,
    later: Moment,
)
    requires
        path != inhibitor_path(m.root),
        now < CLOCK_END,
        later.now < now + 60 * 1_000_000_000,
    ensures
        looked_up(learnt(m, path, ReplyView::Attrs(Ok(attr)), now), path, later) == Lookup::Known(
            attr,
            crate::wire::is_dir_mode(attr.perm),
        ),
{
}

impl SmbSession {
    /// Goes on with a request once the attributes of a path are known.
    fn reach_goal(
        &mut self,
        hdr: &Smb2Header,
        goal: Goal,
        path: &str,
        found: Result<(FileAttr, bool), u32>,
    ) -> (s: Step)
        requires
            old(self).next_handle < u64::MAX,
        ensures
            (final(self)@, s@) == goal_step(old(self)@, *hdr, goal, path@, found),
    {
        match goal {
            Goal::QueryInfo { info_type, class, is_dir } => self.answer_query(
                hdr,
                info_type,
                class,
                is_dir,
                path,
                found,
            ),
            Goal::SetTimes { atime, mtime } => self.go_on_with_times(
                hdr,
                atime,
                mtime,
                path,
                found,
            ),
            _ => self.go_on_creating(hdr, goal, path, found),
        }
    }

    /// Starts a request that needs the attributes of a path.
    pub fn stat_cached(&mut self, hdr: &Smb2Header, goal: Goal, path: &str, t: Moment) -> (s: Step)
        requires
            old(self).next_handle < u64::MAX,
            t.now < CLOCK_END,
        ensures
            (final(self)@, s@) == stat_step(old(self)@, *hdr, goal, path@, t),
    {
        match self.look_up(path, t) {
            Lookup::Known(attr, is_dir) => self.reach_goal(hdr, goal, path, Ok((attr, is_dir))),
            Lookup::Absent => self.reach_goal(
                hdr,
                goal,
                path,
                Err(STATUS_OBJECT_NAME_NOT_FOUND),
            ),
            Lookup::Unknown => ask(
                hdr,
                CallOf::Lstat { path: String::from_str(path) },
                ThenOf::Stat { goal, path: String::from_str(path) },
            ),
        }
    }

    /// Goes on once the remote side has told the attributes of a path.
    pub(crate) fn on_told(
        &mut self,
        hdr: &Smb2Header,
        goal: Goal,
        path: &str,
        reply: &SftpReply,
        t: Moment,
    ) -> (s: Step)
        requires
            old(self).next_handle < u64::MAX,
            t.now < CLOCK_END,
        ensures
            (final(self)@, s@) == told_step(old(self)@, *hdr, goal, path@, reply@, t),
    {
        let found = self.learn(path, reply, t.now);
        self.reach_goal(hdr, goal, path, found)
    }
}

} // verus!
