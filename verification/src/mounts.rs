//! What is mounted, and how it is unmounted.

use crate::sftp::pool::CONN_STATE_DISCONNECTED;
use crate::text::{
    begins_with, chars_of, concat, decimal, decimal_text, ends_with, find_from, first_from,
    holds_text, law_decimal_round_trip, lemma_first_from, number_in, parse_number, push_text,
    stands_at, str_begins_with, str_ends_with, str_eq, str_holds, string_between, texts,
};
use vstd::prelude::*;

verus! {

// ── Lines ───────────────────────────────────────────────────────────

/// A line without its end, which is a line feed with or without a carriage
/// return before it.
pub open spec fn line_between(s: Seq<char>, from: int, to: int) -> Seq<char> {
    if to < s.len() && from < to && s[to - 1] == '\r' {
        s.subrange(from, to - 1)
    } else {
        s.subrange(from, to)
    }
}

/// The lines of a text from `from` on.
pub open spec fn lines_from(s: Seq<char>, from: int) -> Seq<Seq<char>>
    decreases
            (if from < s.len() {
                s.len() - from
            } else {
                0
            }),
    when 0 <= from
    via lines_decrease
{
    if from >= s.len() {
        Seq::empty()
    } else {
        let to = first_from(s, '\n', from);
        seq![line_between(s, from, to)] + lines_from(s, to + 1)
    }
}

#[via_fn]
proof fn lines_decrease(s: Seq<char>, from: int) {
    if from < s.len() {
        crate::text::lemma_first_from(s, '\n', from);
    }
}

fn lines_of(text: &str) -> (r: Vec<String>)
    ensures
        texts(r@) == lines_from(text@, 0),
{
    let chars = chars_of(text);
    let ghost all = lines_from(text@, 0);
    let mut out: Vec<String> = Vec::new();
    let mut from: usize = 0;
    assert(texts(out@) + lines_from(text@, 0) =~= all);
    while from < chars.len()
        invariant
            chars@ == text@,
            all == lines_from(text@, 0),
            texts(out@) + lines_from(text@, from as int) == all,
        decreases chars@.len() - from,
    {
        let to = find_from(&chars, '\n', from);
        let ghost before = texts(out@);
        let end = if to < chars.len() && from < to && chars[to - 1] == '\r' {
            to - 1
        } else {
            to
        };
        let line = string_between(&chars, from, end);
        assert(line@ == line_between(text@, from as int, to as int));
        push_text(&mut out, &line);
        assert(texts(out@) + lines_from(text@, to + 1) =~= all);
        if to == chars.len() {
            assert(lines_from(text@, to + 1) =~= Seq::empty());
            assert(texts(out@) =~= all);
            return out;
        }
        from = to + 1;
    }
    assert(lines_from(text@, from as int) =~= Seq::empty());
    assert(texts(out@) =~= all);
    out
}

// ── Mounts ──────────────────────────────────────────────────────────

/// A share of this program that is mounted.
#[derive(Debug)]
pub struct MountInfo {
    pub share: String,
    /// The local port of its server.
    pub port: u16,
    /// Where it is mounted.
    pub path: String,
}

/// A [`MountInfo`] in terms of sequences.
pub struct MountView {
    pub share: Seq<char>,
    pub port: u16,
    pub path: Seq<char>,
}

impl View for MountInfo {
    type V = MountView;

    open spec fn view(&self) -> MountView {
        MountView { share: self.share@, port: self.port, path: self.path@ }
    }
}

/// Mounts in terms of sequences.
pub open spec fn mounts_view(list: Seq<MountInfo>) -> Seq<MountView> {
    Seq::new(list.len(), |i: int| list[i]@)
}

/// What is left of `s` behind the first `c`, where there is one.
pub open spec fn behind_first(s: Seq<char>, c: char) -> Option<Seq<char>> {
    let at = first_from(s, c, 0);
    if at < s.len() {
        Some(s.skip(at + 1))
    } else {
        None
    }
}

/// What stands in `s` before the first `c`.
pub open spec fn before_first(s: Seq<char>, c: char) -> Seq<char> {
    s.take(first_from(s, c, 0))
}

/// The host names under which this program's shares are mounted: `localhost`,
/// or the name of the share with or without `.localhost` behind it.
pub open spec fn is_our_host(host: Seq<char>, share: Seq<char>) -> bool {
    host == "localhost"@ || host == share || host == share + ".localhost"@
}

/// The share and the port of a source `//user@host:port/share`, where the host
/// is one of this program's.
pub open spec fn parse_source(source: Seq<char>) -> Option<(Seq<char>, u16)> {
    if !begins_with(source, "//"@) {
        None
    } else {
        match behind_first(source.skip(2), '@') {
            None => None,
            Some(after_at) => match behind_first(after_at, ':') {
                None => None,
                Some(after_colon) => match behind_first(after_colon, '/') {
                    None => None,
                    Some(share) => match number_in(before_first(after_colon, '/'), 65535) {
                        Some(port) => if port > 0 && is_our_host(
                            before_first(after_at, ':'),
                            share,
                        ) {
                            Some((share, port as u16))
                        } else {
                            None
                        },
                        None => None,
                    },
                },
            },
        }
    }
}

/// The mount that a line `source on path options` tells of.
pub open spec fn parse_line(line: Seq<char>) -> Option<MountView> {
    let a = first_from(line, ' ', 0);
    let b = first_from(line, ' ', a + 1);
    let c = first_from(line, ' ', b + 1);
    if holds_text(line, "smb"@) && a < line.len() && b < line.len() && c < line.len()
        && line.subrange(a + 1, b) == "on"@ {
        match parse_source(line.take(a)) {
            Some((share, port)) => Some(
                MountView { share, port, path: line.subrange(b + 1, c) },
            ),
            None => None,
        }
    } else {
        None
    }
}

/// The mounts that the first `n` lines tell of.
pub open spec fn mounts_in(lines: Seq<Seq<char>>, n: nat) -> Seq<MountView>
    decreases n,
{
    if n == 0 {
        Seq::empty()
    } else {
        let m = mounts_in(lines, (n - 1) as nat);
        match parse_line(lines[n - 1]) {
            Some(v) => m.push(v),
            None => m,
        }
    }
}

/// The mounts that the output of `mount` tells of.
pub open spec fn mounts_of(output: Seq<char>) -> Seq<MountView> {
    mounts_in(lines_from(output, 0), lines_from(output, 0).len())
}

fn split_first(s: &str, c: char) -> (r: Option<(String, String)>)
    ensures
        match r {
            Some((a, b)) => behind_first(s@, c) == Some(b@) && a@ == before_first(s@, c),
            None => behind_first(s@, c) is None,
        },
{
    let chars = chars_of(s);
    let at = find_from(&chars, c, 0);
    if at == chars.len() {
        return None;
    }
    let a = string_between(&chars, 0, at);
    let b = string_between(&chars, at + 1, chars.len());
    assert(a@ =~= before_first(s@, c));
    assert(b@ =~= s@.skip(at + 1));
    Some((a, b))
}

fn read_source(source: &str) -> (r: Option<(String, u16)>)
    ensures
        (match r {
            Some((share, port)) => Some((share@, port)),
            None => None,
        }) == parse_source(source@),
{
    if !str_begins_with(source, "//") {
        return None;
    }
    proof {
        reveal_strlit("//");
    }
    let chars = chars_of(source);
    let rest = string_between(&chars, 2, chars.len());
    assert(rest@ =~= source@.skip(2));
    let after_at = match split_first(&rest, '@') {
        Some((_, b)) => b,
        None => return None,
    };
    let (host, after_colon) = match split_first(&after_at, ':') {
        Some(p) => p,
        None => return None,
    };
    let (port_text, share) = match split_first(&after_colon, '/') {
        Some(p) => p,
        None => return None,
    };
    let port = match parse_number(&port_text, 65535) {
        Some(p) => p,
        None => return None,
    };
    if port == 0 {
        return None;
    }
    let local = concat(&share, ".localhost");
    if str_eq(&host, "localhost") || str_eq(&host, &share) || str_eq(&host, &local) {
        Some((share, port as u16))
    } else {
        None
    }
}

fn read_line(line: &str) -> (r: Option<MountInfo>)
    ensures
        (match r {
            Some(m) => Some(m@),
            None => None,
        }) == parse_line(line@),
{
    if !str_holds(line, "smb") {
        return None;
    }
    let chars = chars_of(line);
    let n = chars.len();
    let a = find_from(&chars, ' ', 0);
    if a == n {
        return None;
    }
    let b = find_from(&chars, ' ', a + 1);
    if b == n {
        return None;
    }
    let c = find_from(&chars, ' ', b + 1);
    if c == n {
        return None;
    }
    if !str_eq(&string_between(&chars, a + 1, b), "on") {
        return None;
    }
    let source = string_between(&chars, 0, a);
    assert(source@ =~= line@.take(a as int));
    match read_source(&source) {
        Some((share, port)) => Some(
            MountInfo { share, port, path: string_between(&chars, b + 1, c) },
        ),
        None => None,
    }
}

/// Finds this program's mounts in the output of `mount`.
pub fn find_smb_mounts(output: &str) -> (r: Vec<MountInfo>)
    ensures
        mounts_view(r@) == mounts_of(output@),
{
    let lines = lines_of(output);
    let ghost all = texts(lines@);
    let mut out: Vec<MountInfo> = Vec::new();
    let mut i: usize = 0;
    assert(mounts_view(out@) =~= mounts_in(all, 0));
    while i < lines.len()
        invariant
            i <= lines@.len(),
            all == texts(lines@),
            mounts_view(out@) == mounts_in(all, i as nat),
        decreases lines@.len() - i,
    {
        let ghost before = mounts_view(out@);
        assert(all[i as int] == lines@[i as int]@);
        if let Some(m) = read_line(&lines[i]) {
            let ghost v = m@;
            out.push(m);
            assert(mounts_view(out@) =~= before.push(v));
        }
        i += 1;
    }
    assert(all.len() == lines@.len());
    out
}

/// How a mount is listed: its share in a column of twenty characters, where it
/// is mounted, and its port.
pub open spec fn list_text(m: MountView) -> Seq<char> {
    m.share + Seq::new(
        (if m.share.len() < 20 {
            20 - m.share.len()
        } else {
            0
        }) as nat,
        |i: int| ' ',
    ) + " "@ + m.path + " (port "@ + decimal(m.port as nat) + ")"@
}

/// The line that lists a mount.
pub fn list_line(m: &MountInfo) -> (r: String)
    ensures
        r@ == list_text(m@),
{
    let mut r = m.share.clone();
    let width = chars_of(&m.share).len();
    let mut i: usize = width;
    let ghost gap = |k: int| ' ';
    assert(r@ =~= m.share@ + Seq::new(0, gap));
    while i < 20
        invariant
            width == m.share@.len(),
            width <= i,
            i <= 20 || i == width,
            r@ == m.share@ + Seq::new((i - width) as nat, gap),
            gap == (|k: int| ' '),
        decreases 20 - i,
    {
        r.push(' ');
        i += 1;
        assert(r@ =~= m.share@ + Seq::new((i - width) as nat, gap));
    }
    r.append(" ");
    r.append(&m.path);
    r.append(" (port ");
    r.append(&decimal_text(m.port as u64));
    r.append(")");
    assert(r@ =~= list_text(m@));
    r
}

// ── Choosing what to unmount ────────────────────────────────────────

/// Says whether a target names a mount: by its share, by where it is mounted,
/// or by the end of that path.
pub open spec fn is_target(m: MountView, target: Seq<char>) -> bool {
    m.share == target || m.path == target || ends_with(m.path, "/"@ + target)
}

/// The places, among the first `n` mounts, of those that are to be unmounted.
pub open spec fn targets(mounts: Seq<MountView>, target: Seq<char>, n: nat) -> Seq<int>
    decreases n,
{
    if n == 0 {
        Seq::empty()
    } else {
        let t = targets(mounts, target, (n - 1) as nat);
        if target == "all"@ || is_target(mounts[n - 1], target) {
            t.push(n - 1)
        } else {
            t
        }
    }
}

/// What a request to unmount comes to.
pub enum UnmountPlan {
    /// Nothing is mounted.
    NothingMounted,
    /// Nothing that is mounted fits.
    NoMatch,
    /// These mounts, by their places.
    Unmount(Vec<usize>),
}

/// An [`UnmountPlan`] in terms of sequences.
pub enum PlanView {
    NothingMounted,
    NoMatch,
    Unmount(Seq<int>),
}

/// Places in terms of numbers.
pub open spec fn indices(list: Seq<usize>) -> Seq<int> {
    Seq::new(list.len(), |i: int| list[i] as int)
}

impl View for UnmountPlan {
    type V = PlanView;

    open spec fn view(&self) -> PlanView {
        match self {
            UnmountPlan::NothingMounted => PlanView::NothingMounted,
            UnmountPlan::NoMatch => PlanView::NoMatch,
            UnmountPlan::Unmount(list) => PlanView::Unmount(indices(list@)),
        }
    }
}

/// What a request to unmount comes to.
pub open spec fn unmount_plan(mounts: Seq<MountView>, target: Seq<char>) -> PlanView {
    let found = targets(mounts, target, mounts.len());
    if mounts.len() == 0 {
        PlanView::NothingMounted
    } else if found.len() == 0 {
        PlanView::NoMatch
    } else {
        PlanView::Unmount(found)
    }
}

/// Says what a request to unmount comes to.
pub fn plan_unmount(mounts: &Vec<MountInfo>, target: &str) -> (r: UnmountPlan)
    ensures
        r@ == unmount_plan(mounts_view(mounts@), target@),
{
    if mounts.len() == 0 {
        return UnmountPlan::NothingMounted;
    }
    let ghost all = mounts_view(mounts@);
    let every = str_eq(target, "all");
    let tail = concat("/", target);
    let mut out: Vec<usize> = Vec::new();
    let mut i: usize = 0;
    assert(indices(out@) =~= targets(all, target@, 0));
    while i < mounts.len()
        invariant
            i <= mounts@.len(),
            all == mounts_view(mounts@),
            every == (target@ == "all"@),
            tail@ == "/"@ + target@,
            indices(out@) == targets(all, target@, i as nat),
        decreases mounts@.len() - i,
    {
        let m = &mounts[i];
        assert(all[i as int] == m@);
        let ghost before = indices(out@);
        if every || str_eq(&m.share, target) || str_eq(&m.path, target) || str_ends_with(
            &m.path,
            &tail,
        ) {
            out.push(i);
            assert(indices(out@) =~= before.push(i as int));
        }
        i += 1;
    }
    assert(indices(out@).len() == out@.len());
    if out.len() == 0 {
        UnmountPlan::NoMatch
    } else {
        UnmountPlan::Unmount(out)
    }
}

/// `all` chooses every mount.
pub proof fn law_all_chooses_everything(mounts: Seq<MountView>, n: nat)
    requires
        n <= mounts.len(),
    ensures
        targets(mounts, "all"@, n) == Seq::new(n, |i: int| i),
    decreases n,
{
    if n > 0 {
        law_all_chooses_everything(mounts, (n - 1) as nat);
        assert(targets(mounts, "all"@, n) =~= Seq::new(n, |i: int| i));
    } else {
        assert(targets(mounts, "all"@, n) =~= Seq::new(n, |i: int| i));
    }
}

/// The exit code of a request to unmount.
pub fn unmount_exit_code(failures: usize) -> (code: i32)
    ensures
        code == (if failures > 0 {
            1int
        } else {
            0
        }),
{
    if failures > 0 {
        1
    } else {
        0
    }
}

// ── Unmounting ──────────────────────────────────────────────────────

/// The ways to unmount, from the gentlest on.
#[derive(Debug, Clone, Copy, PartialEq, Eq, Structural)]
pub enum UnmountStage {
    Plain,
    Diskutil,
    Force,
}

/// What to do next to unmount.
#[derive(Debug, Clone, Copy, PartialEq, Eq, Structural)]
pub enum UnmountNext {
    /// Run the command of a stage; where it says so, stop the server first.
    Try { stage: UnmountStage, kill_first: bool },
    /// It is over; where it says so, stop the server.
    Done { ok: bool, kill_after: bool },
}

/// The program that unmounts, with its arguments.
pub open spec fn unmount_words(stage: UnmountStage, macos: bool, path: Seq<char>) -> Seq<Seq<char>> {
    match stage {
        UnmountStage::Plain => seq!["umount"@, path],
        UnmountStage::Diskutil => seq!["diskutil"@, "unmount"@, path],
        UnmountStage::Force => if macos {
            seq!["diskutil"@, "unmount"@, "force"@, path]
        } else {
            seq!["umount"@, "-l"@, path]
        },
    }
}

/// The program that unmounts, with its arguments.
pub fn unmount_command(stage: UnmountStage, macos: bool, path: &str) -> (r: Vec<String>)
    ensures
        texts(r@) == unmount_words(stage, macos, path@),
{
    let mut r: Vec<String> = Vec::new();
    match stage {
        UnmountStage::Plain => {
            push_text(&mut r, "umount");
        },
        UnmountStage::Diskutil => {
            push_text(&mut r, "diskutil");
            push_text(&mut r, "unmount");
        },
        UnmountStage::Force => {
            if macos {
                push_text(&mut r, "diskutil");
                push_text(&mut r, "unmount");
                push_text(&mut r, "force");
            } else {
                push_text(&mut r, "umount");
                push_text(&mut r, "-l");
            }
        },
    }
    push_text(&mut r, path);
    assert(texts(r@) =~= unmount_words(stage, macos, path@));
    r
}

/// What follows an attempt to unmount. A gentle one that succeeds stops the
/// server; before force is used the server is stopped, because that makes the
/// system let go of the mount.
pub open spec fn after_attempt(stage: UnmountStage, macos: bool, ok: bool) -> UnmountNext {
    match stage {
        UnmountStage::Plain => if ok {
            UnmountNext::Done { ok: true, kill_after: true }
        } else if macos {
            UnmountNext::Try { stage: UnmountStage::Diskutil, kill_first: false }
        } else {
            UnmountNext::Try { stage: UnmountStage::Force, kill_first: true }
        },
        UnmountStage::Diskutil => if ok {
            UnmountNext::Done { ok: true, kill_after: true }
        } else {
            UnmountNext::Try { stage: UnmountStage::Force, kill_first: true }
        },
        UnmountStage::Force => UnmountNext::Done { ok, kill_after: false },
    }
}

/// Says what follows an attempt to unmount.
pub fn unmount_one(stage: UnmountStage, macos: bool, ok: bool) -> (n: UnmountNext)
    ensures
        n == after_attempt(stage, macos, ok),
{
    match stage {
        UnmountStage::Plain => if ok {
            UnmountNext::Done { ok: true, kill_after: true }
        } else if macos {
            UnmountNext::Try { stage: UnmountStage::Diskutil, kill_first: false }
        } else {
            UnmountNext::Try { stage: UnmountStage::Force, kill_first: true }
        },
        UnmountStage::Diskutil => if ok {
            UnmountNext::Done { ok: true, kill_after: true }
        } else {
            UnmountNext::Try { stage: UnmountStage::Force, kill_first: true }
        },
        UnmountStage::Force => UnmountNext::Done { ok, kill_after: false },
    }
}

/// How far a stage is from the end.
pub open spec fn stages_left(stage: UnmountStage) -> nat {
    match stage {
        UnmountStage::Plain => 2,
        UnmountStage::Diskutil => 1,
        UnmountStage::Force => 0,
    }
}

/// Unmounting comes to an end: every failure leads to a later stage, force is
/// used only once the server was stopped, and an attempt that succeeds is the
/// last.
pub proof fn law_unmounting_ends(stage: UnmountStage, macos: bool, ok: bool)
    ensures
        match after_attempt(stage, macos, ok) {
            UnmountNext::Try { stage: next, kill_first } => {
                &&& !ok
                &&& stages_left(next) < stages_left(stage)
                &&& next == UnmountStage::Force ==> kill_first
            },
            UnmountNext::Done { ok: done, kill_after: _ } => done == ok,
        },
{
}

// ── Stopping the server ─────────────────────────────────────────────

/// The characters between words.
pub open spec fn is_white(c: char) -> bool {
    let v = c as int;
    9 <= v <= 13 || v == 0x20 || v == 0x85 || v == 0xA0 || v == 0x1680 || 0x2000 <= v <= 0x200A || v
        == 0x2028 || v == 0x2029 || v == 0x202F || v == 0x205F || v == 0x3000
}

fn is_white_char(c: char) -> (r: bool)
    ensures
        r == is_white(c),
{
    let v = c as u32;
    (9 <= v && v <= 13) || v == 0x20 || v == 0x85 || v == 0xA0 || v == 0x1680 || (0x2000 <= v && v
        <= 0x200A) || v == 0x2028 || v == 0x2029 || v == 0x202F || v == 0x205F || v == 0x3000
}

/// Where the word that starts at `from` ends.
pub open spec fn word_end(s: Seq<char>, from: int) -> int
    decreases s.len() - from,
{
    if from < 0 || from >= s.len() || is_white(s[from]) {
        from
    } else {
        word_end(s, from + 1)
    }
}

proof fn lemma_word_end(s: Seq<char>, from: int)
    requires
        0 <= from <= s.len(),
    ensures
        from <= word_end(s, from) <= s.len(),
        from < s.len() && !is_white(s[from]) ==> word_end(s, from) > from,
    decreases s.len() - from,
{
    if from < s.len() && !is_white(s[from]) {
        lemma_word_end(s, from + 1);
    }
}

/// The process numbers among the words of a text from `from` on.
pub open spec fn pids_from(s: Seq<char>, from: int) -> Seq<u32>
    decreases s.len() - from,
    when 0 <= from <= s.len()
    via pids_decrease
{
    if from >= s.len() {
        Seq::empty()
    } else if is_white(s[from]) {
        pids_from(s, from + 1)
    } else {
        let to = word_end(s, from);
        (match number_in(s.subrange(from, to), u32::MAX as nat) {
            Some(n) => seq![n as u32],
            None => Seq::empty(),
        }) + pids_from(s, to)
    }
}

#[via_fn]
proof fn pids_decrease(s: Seq<char>, from: int) {
    lemma_word_end(s, from);
}

/// Reads the process numbers in the output of `lsof`.
pub fn parse_pids(output: &str) -> (r: Vec<u32>)
    ensures
        r@ == pids_from(output@, 0),
{
    let chars = chars_of(output);
    let ghost all = pids_from(output@, 0);
    let mut out: Vec<u32> = Vec::new();
    let mut from: usize = 0;
    assert(out@ + pids_from(output@, 0) =~= all);
    while from < chars.len()
        invariant
            from <= chars@.len(),
            chars@ == output@,
            all == pids_from(output@, 0),
            out@ + pids_from(output@, from as int) == all,
        decreases chars@.len() - from,
    {
        if is_white_char(chars[from]) {
            from += 1;
            continue;
        }
        let mut to: usize = from;
        while to < chars.len() && !is_white_char(chars[to])
            invariant
                from <= to <= chars@.len(),
                chars@ == output@,
                word_end(output@, to as int) == word_end(output@, from as int),
            decreases chars@.len() - to,
        {
            to += 1;
        }
        proof {
            lemma_word_end(output@, from as int);
        }
        assert(to == word_end(output@, from as int));
        let ghost before = out@;
        let word = string_between(&chars, from, to);
        if let Some(n) = parse_number(&word, u32::MAX) {
            out.push(n);
        }
        assert(out@ + pids_from(output@, to as int) =~= before + pids_from(output@, from as int));
        from = to;
    }
    assert(out@ + Seq::<u32>::empty() =~= out@);
    out
}

/// Says whether the name of a process is that of this program.
pub fn is_mounter(comm: &str) -> (r: bool)
    ensures
        r == holds_text(comm@, "mounter"@),
{
    str_holds(comm, "mounter")
}

/// A process, by its number and the name it runs under; no name where that could
/// not be learnt.
pub type Process = (u32, Option<String>);

/// A process that is one of this program's.
pub open spec fn is_ours(p: Process) -> bool {
    p.1 matches Some(comm) && holds_text(comm@, "mounter"@)
}

/// The processes to stop among those that listen on the port of a share: those
/// that are certainly this program's, in their order.
pub open spec fn to_kill(found: Seq<Process>) -> Seq<u32> {
    found.filter(|p: Process| is_ours(p)).map_values(|p: Process| p.0)
}

/// Chooses the processes to stop among those that listen on the port of a share.
pub fn pids_to_kill(found: &Vec<Process>) -> (r: Vec<u32>)
    ensures
        r@ == to_kill(found@),
{
    let ghost ours = |p: Process| is_ours(p);
    let ghost number = |p: Process| p.0;
    let mut out: Vec<u32> = Vec::new();
    let mut i: usize = 0;
    assert(found@.take(0).filter(ours) =~= Seq::empty()) by {
        reveal(Seq::filter);
    }
    assert(out@ =~= found@.take(0).filter(ours).map_values(number));
    while i < found.len()
        invariant
            i <= found@.len(),
            ours == (|p: Process| is_ours(p)),
            number == (|p: Process| p.0),
            out@ == found@.take(i as int).filter(ours).map_values(number),
        decreases found@.len() - i,
    {
        let ghost before = out@;
        let ghost kept = found@.take(i as int).filter(ours);
        proof {
            assert(found@.take(i + 1).drop_last() =~= found@.take(i as int));
            assert(found@.take(i + 1).last() == found@[i as int]);
            reveal(Seq::filter);
        }
        let hit = match &found[i].1 {
            Some(comm) => is_mounter(comm),
            None => false,
        };
        if hit {
            out.push(found[i].0);
            assert(kept.push(found@[i as int]).map_values(number) =~= before.push(
                found@[i as int].0,
            ));
        }
        i += 1;
    }
    assert(found@.take(i as int) =~= found@);
    out
}

// ── Looking after the connection ────────────────────────────────────

/// What to do next for a mounted share.
#[derive(Debug, Clone, Copy, PartialEq, Eq, Structural)]
pub enum WatchNext {
    /// To look again later.
    Wait,
    /// To open the connections anew, and to see in what state they are then.
    Reconnect,
    /// To unmount the share, and to end.
    Unmount,
}

/// What to do next for a mounted share, by whether the remote side answered, and
/// by the state of the connection once it was opened anew.
pub open spec fn watched(probe_ok: bool, state_after: Option<u8>) -> WatchNext {
    if probe_ok {
        WatchNext::Wait
    } else {
        match state_after {
            None => WatchNext::Reconnect,
            Some(state) => if state == CONN_STATE_DISCONNECTED {
                WatchNext::Unmount
            } else {
                WatchNext::Wait
            },
        }
    }
}

/// Says what to do next for a mounted share. A share is given up only where the
/// connection is lost after it was opened anew.
pub fn watch_step(probe_ok: bool, state_after: Option<u8>) -> (n: WatchNext)
    ensures
        n == watched(probe_ok, state_after),
{
    if probe_ok {
        return WatchNext::Wait;
    }
    match state_after {
        None => WatchNext::Reconnect,
        Some(state) => if state == CONN_STATE_DISCONNECTED {
            WatchNext::Unmount
        } else {
            WatchNext::Wait
        },
    }
}

/// A share is unmounted on its own exactly where the remote side did not answer
/// and its connection counts as lost even after it was opened anew.
pub proof fn law_only_lost_shares_are_given_up(probe_ok: bool, state_after: Option<u8>)
    ensures
        watched(probe_ok, state_after) == WatchNext::Unmount <==> !probe_ok && state_after == Some(
            CONN_STATE_DISCONNECTED,
        ),
{
}

/// A mount is to be unmounted exactly where the target names it or is `all`.
pub proof fn law_targets_are_those_that_fit(
    mounts: Seq<MountView>,
    target: Seq<char>,
    n: nat,
    i: int,
)
    requires
        n <= mounts.len(),
    ensures
        targets(mounts, target, n).contains(i) <==> {
            &&& 0 <= i < n
            &&& {
                ||| target == "all"@
                ||| mounts[i].share == target
                ||| mounts[i].path == target
                ||| ends_with(mounts[i].path, "/"@ + target)
            }
        },
    decreases n,
{
    if n > 0 {
        law_targets_are_those_that_fit(mounts, target, (n - 1) as nat, i);
        let t = targets(mounts, target, (n - 1) as nat);
        let all = targets(mounts, target, n);
        if t.contains(i) {
            let k = choose|k: int| 0 <= k < t.len() && t[k] == i;
            assert(all[k] == i);
        }
        if all.contains(i) && !t.contains(i) {
            let k = choose|k: int| 0 <= k < all.len() && all[k] == i;
            if k < t.len() {
                assert(t[k] == i);
            }
        }
        if all.len() > t.len() {
            assert(all[t.len() as int] == n - 1);
        }
    }
}

/// The text holds no such character.
pub open spec fn lacks(s: Seq<char>, c: char) -> bool {
    forall|i: int| 0 <= i < s.len() ==> s[i] != c
}

proof fn lemma_first(a: Seq<char>, c: char, b: Seq<char>)
    requires
        lacks(a, c),
    ensures
        first_from(a + seq![c] + b, c, 0) == a.len(),
        (a + seq![c] + b).take(a.len() as int) == a,
        (a + seq![c] + b).skip(a.len() as int + 1) == b,
{
    let s = a + seq![c] + b;
    lemma_first_from(s, c, 0);
    assert(s[a.len() as int] == c);
    let at = first_from(s, c, 0);
    if at < a.len() {
        assert(s[at] == a[at]);
    }
    assert(s.take(a.len() as int) =~= a);
    assert(s.skip(a.len() as int + 1) =~= b);
}

/// The source of a mount of this program as the system shows it.
pub open spec fn source_text(
    user: Seq<char>,
    host: Seq<char>,
    port: u16,
    share: Seq<char>,
) -> Seq<char> {
    "//"@ + (user + seq!['@'] + (host + seq![':'] + (decimal(port as nat) + seq!['/'] + share)))
}

proof fn lemma_decimal_lacks(n: nat, c: char)
    requires
        !('0' <= c <= '9'),
    ensures
        lacks(decimal(n), c),
    decreases n,
{
    if n >= 10 {
        lemma_decimal_lacks(n / 10, c);
    }
}

/// The source of a share that this program serves reads back: its share and its
/// port, under each of the hosts that it is mounted from.
pub proof fn law_sources_read_back(
    user: Seq<char>,
    host: Seq<char>,
    port: u16,
    share: Seq<char>,
)
    requires
        lacks(user, '@'),
        lacks(host, ':'),
        host == "localhost"@ || host == share || host == share + ".localhost"@,
        port > 0,
    ensures
        parse_source(source_text(user, host, port, share)) == Some((share, port)),
{
    reveal_strlit("//");
    let d = decimal(port as nat);
    let r3 = d + seq!['/'] + share;
    let r2 = host + seq![':'] + r3;
    let r1 = user + seq!['@'] + r2;
    let s = source_text(user, host, port, share);
    assert(s == "//"@ + r1);
    assert("//"@.len() == 2);
    assert(s.subrange(0, 2) =~= "//"@);
    assert(s.skip(2) =~= r1);
    lemma_first(user, '@', r2);
    lemma_first(host, ':', r3);
    lemma_decimal_lacks(port as nat, '/');
    lemma_first(d, '/', share);
    law_decimal_round_trip(port as nat, 65535);
}

/// A line of the system's list of mounts reads back: the share, the port and the
/// place of a mount of this program.
pub proof fn law_mount_lines_read_back(
    user: Seq<char>,
    host: Seq<char>,
    port: u16,
    share: Seq<char>,
    path: Seq<char>,
    options: Seq<char>,
)
    requires
        lacks(user, '@'),
        lacks(host, ':'),
        lacks(user, ' ') && lacks(host, ' ') && lacks(share, ' ') && lacks(path, ' '),
        host == "localhost"@ || host == share || host == share + ".localhost"@,
        port > 0,
        begins_with(options, "smb"@),
    ensures
        parse_line(
            source_text(user, host, port, share) + seq![' '] + ("on"@ + seq![' '] + (path + seq![' ']
                + options)),
        ) == Some(MountView { share, port, path }),
{
    let source = source_text(user, host, port, share);
    let r2 = path + seq![' '] + options;
    let r1 = "on"@ + seq![' '] + r2;
    let line = source + seq![' '] + r1;
    law_sources_read_back(user, host, port, share);
    reveal_strlit("//");
    reveal_strlit("on");
    reveal_strlit("smb");
    lemma_decimal_lacks(port as nat, ' ');
    let d = decimal(port as nat);
    assert(lacks(d + seq!['/'] + share, ' '));
    assert(lacks(host + seq![':'] + (d + seq!['/'] + share), ' '));
    assert(lacks(user + seq!['@'] + (host + seq![':'] + (d + seq!['/'] + share)), ' '));
    assert(lacks("//"@, ' '));
    assert(lacks(source, ' '));
    assert(lacks("on"@, ' '));
    lemma_first(source, ' ', r1);
    let a = source.len() as int;
    let b = a + 3;
    let c = b + 1 + path.len();
    lemma_first_from(line, ' ', a + 1);
    assert(line[a + 1] == 'o' && line[a + 2] == 'n' && line[b] == ' ');
    assert(first_from(line, ' ', a + 1) == b);
    lemma_first_from(line, ' ', b + 1);
    assert(line[c] == ' ');
    assert forall|i: int| b + 1 <= i < c implies line[i] != ' ' by {
        assert(line[i] == path[i - (b + 1)]);
    }
    assert(first_from(line, ' ', b + 1) == c);
    assert(line.subrange(a + 1, b) =~= "on"@);
    assert(line.subrange(b + 1, c) =~= path);
    assert(stands_at(line, "smb"@, c + 1)) by {
        assert(line.subrange(c + 1, c + 1 + 3) =~= options.subrange(0, 3));
    }
    assert(line.take(a) == source);
}

/// Only processes that are certainly this program's are stopped, and all of them.
pub proof fn law_only_our_processes_are_stopped(found: Seq<Process>, pid: u32)
    ensures
        to_kill(found).contains(pid) <==> exists|i: int|
            0 <= i < found.len() && (#[trigger] found[i]).0 == pid && (found[i].1 matches Some(comm)
                && holds_text(comm@, "mounter"@)),
{
    let ours = |p: Process| is_ours(p);
    let kept = found.filter(ours);
    let numbers = to_kill(found);
    if numbers.contains(pid) {
        let k = choose|k: int| 0 <= k < numbers.len() && numbers[k] == pid;
        found.lemma_filter_pred(ours, k);
        found.lemma_filter_contains_rev(ours, kept[k]);
        assert(found.contains(kept[k]));
        let i = choose|i: int| 0 <= i < found.len() && found[i] == kept[k];
        assert(found[i].0 == pid);
    }
    if exists|i: int|
        0 <= i < found.len() && (#[trigger] found[i]).0 == pid && (found[i].1 matches Some(comm)
            && holds_text(comm@, "mounter"@)) {
        let i = choose|i: int|
            0 <= i < found.len() && (#[trigger] found[i]).0 == pid && (found[i].1 matches Some(comm)
                && holds_text(comm@, "mounter"@));
        found.lemma_filter_contains(ours, i);
        let k = choose|k: int| 0 <= k < kept.len() && kept[k] == found[i];
        assert(numbers[k] == pid);
    }
}

} // verus!
