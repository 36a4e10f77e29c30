//! The command line: what the program is asked to do.

use crate::text::{
    begins_with, chars_of, decimal, decimal_text, find_from, first_from, holds_text,
    law_decimal_round_trip, number_in, owned_text, parse_number, push_text, str_begins_with,
    str_eq, str_holds, string_between, texts,
};
use vstd::prelude::*;

verus! {

// ── The remote side ─────────────────────────────────────────────────

/// A remote directory: whom to log in as, the host, and the path on it.
pub struct RemoteView {
    pub user: Option<Seq<char>>,
    pub host: Seq<char>,
    pub path: Seq<char>,
}

/// The user in `[user@]host[:path]`, and what follows it.
pub open spec fn split_user(spec_text: Seq<char>) -> (Option<Seq<char>>, Seq<char>) {
    let at = first_from(spec_text, '@', 0);
    if at < spec_text.len() {
        (Some(spec_text.take(at)), spec_text.skip(at + 1))
    } else {
        (None, spec_text)
    }
}

/// What `[user@]host[:path]` stands for.
pub open spec fn remote_of(spec_text: Seq<char>) -> RemoteView {
    let (user, rest) = split_user(spec_text);
    let colon = first_from(rest, ':', 0);
    if colon < rest.len() {
        RemoteView { user, host: rest.take(colon), path: rest.skip(colon + 1) }
    } else {
        RemoteView { user, host: rest, path: Seq::empty() }
    }
}

/// Takes `[user@]host[:path]` apart.
pub fn parse_remote(spec_text: &str) -> (r: (Option<String>, String, String))
    ensures
        remote_of(spec_text@) == (RemoteView {
            user: owned_text(r.0),
            host: r.1@,
            path: r.2@,
        }),
{
    let chars = chars_of(spec_text);
    let n = chars.len();
    let at = find_from(&chars, '@', 0);
    let mut user: Option<String> = None;
    let mut from: usize = 0;
    if at < n {
        let name = string_between(&chars, 0, at);
        assert(name@ =~= spec_text@.take(at as int));
        user = Some(name);
        from = at + 1;
    }
    let ghost rest = split_user(spec_text@).1;
    let rest_text = string_between(&chars, from, n);
    assert(rest_text@ =~= rest);
    let tail = chars_of(&rest_text);
    let colon = find_from(&tail, ':', 0);
    if colon < tail.len() {
        let host = string_between(&tail, 0, colon);
        let path = string_between(&tail, colon + 1, tail.len());
        assert(host@ =~= rest.take(colon as int));
        assert(path@ =~= rest.skip(colon + 1));
        (user, host, path)
    } else {
        let path = String::new();
        assert(path@ =~= Seq::empty());
        (user, rest_text, path)
    }
}

/// A remote directory as it is written.
pub open spec fn remote_text(r: RemoteView) -> Seq<char> {
    (match r.user {
        Some(u) => u + seq!['@'],
        None => Seq::empty(),
    }) + r.host + seq![':'] + r.path
}

proof fn lemma_first(s: Seq<char>, c: char, n: int)
    requires
        0 <= n < s.len(),
        s[n] == c,
        forall|i: int| 0 <= i < n ==> s[i] != c,
    ensures
        first_from(s, c, 0) == n,
{
    crate::text::lemma_first_from(s, c, 0);
}

/// What is written as `user@host:path` reads back as it was, as long as the
/// separators do not occur in the parts before them.
pub proof fn law_remote_reads_back(r: RemoteView)
    requires
        !r.host.contains(':'),
        match r.user {
            Some(u) => !u.contains('@'),
            None => !r.host.contains('@') && !r.path.contains('@'),
        },
    ensures
        remote_of(remote_text(r)) == r,
{
    let s = remote_text(r);
    let rest = r.host + seq![':'] + r.path;
    match r.user {
        Some(u) => {
            assert(s[u.len() as int] == '@');
            assert forall|i: int| 0 <= i < u.len() implies s[i] != '@' by {
                assert(s[i] == u[i]);
                assert(u.contains(u[i]));
            }
            lemma_first(s, '@', u.len() as int);
            assert(s.take(u.len() as int) =~= u);
            assert(s.skip(u.len() as int + 1) =~= rest);
        },
        None => {
            assert(s =~= rest);
            crate::text::lemma_first_from(s, '@', 0);
            let at = first_from(s, '@', 0);
            if at < s.len() {
                if at < r.host.len() {
                    assert(r.host[at] == '@');
                } else if at > r.host.len() {
                    assert(r.path[at - r.host.len() - 1] == '@');
                }
                assert(false);
            }
        },
    }
    assert(rest[r.host.len() as int] == ':');
    assert forall|i: int| 0 <= i < r.host.len() implies rest[i] != ':' by {
        assert(rest[i] == r.host[i]);
        assert(r.host.contains(r.host[i]));
    }
    lemma_first(rest, ':', r.host.len() as int);
    assert(rest.take(r.host.len() as int) =~= r.host);
    assert(rest.skip(r.host.len() as int + 1) =~= r.path);
}

// ── Options ─────────────────────────────────────────────────────────

/// How a share is to be served, over the type of texts.
pub struct OptionsOf<S> {
    pub ssh_port: u16,
    pub identity: Option<S>,
    pub share_name: Option<S>,
    /// The local port, 0 for any.
    pub smb_port: u16,
}

/// How a share is to be served.
pub type Options = OptionsOf<String>;

/// An [`Options`] in terms of sequences.
pub type OptionsView = OptionsOf<Seq<char>>;

impl View for OptionsOf<String> {
    type V = OptionsOf<Seq<char>>;

    open spec fn view(&self) -> OptionsOf<Seq<char>> {
        OptionsOf {
            ssh_port: self.ssh_port,
            identity: owned_text(self.identity),
            share_name: owned_text(self.share_name),
            smb_port: self.smb_port,
        }
    }
}

/// What is wrong with a command line, over the type of texts.
pub enum CliFaultOf<S> {
    /// The usage was asked for, or nothing was.
    Usage,
    /// `unmount` without a target.
    UnmountUsage,
    /// No remote directory, for `mount` or without it.
    MissingRemote { mount: bool },
    /// `mount` without a mount point.
    MissingMountPoint,
    /// `-p` with something that is no port.
    BadPort(S),
    /// `-p` at the end.
    MissingPort,
    /// `--smb-port` with something that is no port.
    BadSmbPort(S),
    /// `--smb-port` at the end.
    MissingSmbPort,
    /// An option that there is not.
    UnknownOption(S),
}

/// What is wrong with a command line.
pub type CliFault = CliFaultOf<String>;

/// A [`CliFault`] in terms of sequences.
pub type CliFaultView = CliFaultOf<Seq<char>>;

impl View for CliFaultOf<String> {
    type V = CliFaultOf<Seq<char>>;

    open spec fn view(&self) -> CliFaultOf<Seq<char>> {
        match self {
            CliFaultOf::Usage => CliFaultOf::Usage,
            CliFaultOf::UnmountUsage => CliFaultOf::UnmountUsage,
            CliFaultOf::MissingRemote { mount } => CliFaultOf::MissingRemote { mount: *mount },
            CliFaultOf::MissingMountPoint => CliFaultOf::MissingMountPoint,
            CliFaultOf::BadPort(s) => CliFaultOf::BadPort(s@),
            CliFaultOf::MissingPort => CliFaultOf::MissingPort,
            CliFaultOf::BadSmbPort(s) => CliFaultOf::BadSmbPort(s@),
            CliFaultOf::MissingSmbPort => CliFaultOf::MissingSmbPort,
            CliFaultOf::UnknownOption(s) => CliFaultOf::UnknownOption(s@),
        }
    }
}

/// The options of a command line that has none.
pub open spec fn no_options() -> OptionsView {
    OptionsOf { ssh_port: 22, identity: None, share_name: None, smb_port: 0 }
}

/// The argument at a place, where there is one.
pub open spec fn argument(args: Seq<Seq<char>>, i: int) -> Option<Seq<char>> {
    if 0 <= i < args.len() {
        Some(args[i])
    } else {
        None
    }
}

/// The options from `i` on, on top of those that were read.
pub open spec fn options_from(args: Seq<Seq<char>>, i: int, o: OptionsView) -> Result<
    OptionsView,
    CliFaultView,
>
    decreases
            (if i < args.len() {
                args.len() - i
            } else {
                0
            }),
{
    if i >= args.len() {
        Ok(o)
    } else if args[i] == "-p"@ {
        match argument(args, i + 1) {
            Some(s) => match number_in(s, 65535) {
                Some(p) => options_from(args, i + 2, OptionsOf { ssh_port: p as u16, ..o }),
                None => Err(CliFaultOf::BadPort(s)),
            },
            None => Err(CliFaultOf::MissingPort),
        }
    } else if args[i] == "-i"@ {
        options_from(args, i + 2, OptionsOf { identity: argument(args, i + 1), ..o })
    } else if args[i] == "-n"@ {
        options_from(args, i + 2, OptionsOf { share_name: argument(args, i + 1), ..o })
    } else if args[i] == "--smb-port"@ {
        match argument(args, i + 1) {
            Some(s) => match number_in(s, 65535) {
                Some(p) => options_from(args, i + 2, OptionsOf { smb_port: p as u16, ..o }),
                None => Err(CliFaultOf::BadSmbPort(s)),
            },
            None => Err(CliFaultOf::MissingSmbPort),
        }
    } else if args[i] == "-h"@ || args[i] == "--help"@ {
        Err(CliFaultOf::Usage)
    } else {
        Err(CliFaultOf::UnknownOption(args[i]))
    }
}

fn copy_argument(args: &Vec<String>, i: usize) -> (r: Option<String>)
    ensures
        owned_text(r) == argument(texts(args@), i as int),
{
    if i < args.len() {
        Some(args[i].clone())
    } else {
        None
    }
}

fn copy_next(args: &Vec<String>, i: usize) -> (r: Option<String>)
    requires
        i < args@.len(),
    ensures
        owned_text(r) == argument(texts(args@), i + 1),
{
    assert(args.len() <= usize::MAX);
    copy_argument(args, i + 1)
}

enum PortText {
    Port(u16),
    Bad(String),
    Missing,
}

fn read_port(args: &Vec<String>, i: usize) -> (r: PortText)
    requires
        i < args@.len(),
    ensures
        match argument(texts(args@), i + 1) {
            Some(s) => match number_in(s, 65535) {
                Some(p) => r matches PortText::Port(v) && v == p,
                None => r matches PortText::Bad(t) && t@ == s,
            },
            None => r is Missing,
        },
{
    match copy_next(args, i) {
        Some(s) => match parse_number(&s, 65535) {
            Some(p) => PortText::Port(p as u16),
            None => PortText::Bad(s),
        },
        None => PortText::Missing,
    }
}

/// Reads the options from `start` on.
pub fn parse_options(args: &Vec<String>, start: usize) -> (r: Result<Options, CliFault>)
    ensures
        (match r {
            Ok(o) => Ok::<OptionsView, CliFaultView>(o@),
            Err(f) => Err(f@),
        }) == options_from(texts(args@), start as int, no_options()),
{
    let ghost all = texts(args@);
    let mut o = OptionsOf { ssh_port: 22, identity: None, share_name: None, smb_port: 0 };
    let mut i: usize = start;
    while i < args.len()
        invariant
            all == texts(args@),
            options_from(all, i as int, o@) == options_from(all, start as int, no_options()),
        decreases args@.len() - i,
    {
        assert(args.len() <= usize::MAX);
        let a = &args[i];
        assert(all[i as int] == a@);
        if str_eq(a, "-p") {
            match read_port(args, i) {
                PortText::Port(p) => {
                    o = OptionsOf { ssh_port: p, ..o };
                },
                PortText::Bad(s) => return Err(CliFaultOf::BadPort(s)),
                PortText::Missing => return Err(CliFaultOf::MissingPort),
            }
        } else if str_eq(a, "-i") {
            let identity = copy_next(args, i);
            o = OptionsOf { identity, ..o };
        } else if str_eq(a, "-n") {
            let share_name = copy_next(args, i);
            o = OptionsOf { share_name, ..o };
        } else if str_eq(a, "--smb-port") {
            match read_port(args, i) {
                PortText::Port(p) => {
                    o = OptionsOf { smb_port: p, ..o };
                },
                PortText::Bad(s) => return Err(CliFaultOf::BadSmbPort(s)),
                PortText::Missing => return Err(CliFaultOf::MissingSmbPort),
            }
        } else if str_eq(a, "-h") || str_eq(a, "--help") {
            return Err(CliFaultOf::Usage);
        } else {
            return Err(CliFaultOf::UnknownOption(a.clone()));
        }
        i = if i + 1 < args.len() {
            i + 2
        } else {
            args.len()
        };
    }
    Ok(o)
}

// ── The command ─────────────────────────────────────────────────────

/// What the program is asked to do, over the type of texts.
pub enum CommandOf<S> {
    /// To start itself again in the background.
    Daemonize,
    /// To unmount.
    Unmount { target: S },
    /// To list what is mounted.
    List,
    /// To serve a remote directory, and to mount it where a place is given.
    Serve { remote: S, mount_point: Option<S>, options: OptionsOf<S> },
}

/// What the program is asked to do.
pub type Command = CommandOf<String>;

/// A [`Command`] in terms of sequences.
pub type CommandView = CommandOf<Seq<char>>;

impl View for CommandOf<String> {
    type V = CommandOf<Seq<char>>;

    open spec fn view(&self) -> CommandOf<Seq<char>> {
        match self {
            CommandOf::Daemonize => CommandOf::Daemonize,
            CommandOf::Unmount { target } => CommandOf::Unmount { target: target@ },
            CommandOf::List => CommandOf::List,
            CommandOf::Serve { remote, mount_point, options } => CommandOf::Serve {
                remote: remote@,
                mount_point: owned_text(*mount_point),
                options: options@,
            },
        }
    }
}

/// The flags that keep the program in the foreground.
pub open spec fn is_foreground_flag(a: Seq<char>) -> bool {
    a == "-f"@ || a == "--foreground"@
}

/// The arguments without the flags that keep the program in the foreground,
/// which may stand anywhere.
pub open spec fn without_flags(args: Seq<Seq<char>>) -> Seq<Seq<char>> {
    args.filter(|a: Seq<char>| !is_foreground_flag(a))
}

/// What the arguments behind a subcommand say of the share to serve.
pub open spec fn serve_command(args: Seq<Seq<char>>) -> Result<CommandView, CliFaultView> {
    let mount = args[1] == "mount"@;
    let place: int = if mount {
        2
    } else {
        1
    };
    match argument(args, place) {
        None => Err(CliFaultOf::MissingRemote { mount }),
        Some(remote) => if mount && (args.len() < 4 || begins_with(args[3], "-"@)) {
            Err(CliFaultOf::MissingMountPoint)
        } else {
            match options_from(
                args,
                if mount {
                    4
                } else {
                    2
                },
                no_options(),
            ) {
                Ok(options) => Ok(
                    CommandOf::Serve {
                        remote,
                        mount_point: if mount {
                            Some(args[3])
                        } else {
                            None
                        },
                        options,
                    },
                ),
                Err(f) => Err(f),
            }
        },
    }
}

/// What a command line asks for. `mount` goes to the background, unless it is
/// told not to or is there already.
pub open spec fn command_of(raw: Seq<Seq<char>>, is_child: bool) -> Result<
    CommandView,
    CliFaultView,
> {
    let args = without_flags(raw);
    let foreground = args.len() < raw.len();
    if raw.len() < 2 {
        Err(CliFaultOf::Usage)
    } else if args[1] == "mount"@ && !foreground && !is_child {
        Ok(CommandOf::Daemonize)
    } else if args[1] == "unmount"@ || args[1] == "umount"@ {
        match argument(args, 2) {
            Some(target) => Ok(CommandOf::Unmount { target }),
            None => Err(CliFaultOf::UnmountUsage),
        }
    } else if args[1] == "list"@ || args[1] == "ls"@ {
        Ok(CommandOf::List)
    } else if args[1] == "-h"@ || args[1] == "--help"@ || args[1] == "help"@ {
        Err(CliFaultOf::Usage)
    } else {
        serve_command(args)
    }
}

fn drop_flags(raw: &Vec<String>) -> (r: Vec<String>)
    ensures
        texts(r@) == without_flags(texts(raw@)),
{
    let ghost all = texts(raw@);
    let ghost kept = |a: Seq<char>| !is_foreground_flag(a);
    let mut out: Vec<String> = Vec::new();
    let mut i: usize = 0;
    assert(texts(out@) =~= all.take(0).filter(kept)) by {
        reveal(Seq::filter);
    }
    while i < raw.len()
        invariant
            i <= raw@.len(),
            all == texts(raw@),
            kept == (|a: Seq<char>| !is_foreground_flag(a)),
            texts(out@) == all.take(i as int).filter(kept),
        decreases raw@.len() - i,
    {
        let a = &raw[i];
        proof {
            assert(all.take(i + 1).drop_last() =~= all.take(i as int));
            assert(all.take(i + 1).last() == a@);
            reveal(Seq::filter);
        }
        if !str_eq(a, "-f") && !str_eq(a, "--foreground") {
            push_text(&mut out, a);
        }
        i += 1;
    }
    assert(all.take(i as int) =~= all);
    out
}

fn parse_serve(args: &Vec<String>) -> (r: Result<Command, CliFault>)
    requires
        args@.len() >= 2,
    ensures
        (match r {
            Ok(c) => Ok::<CommandView, CliFaultView>(c@),
            Err(f) => Err(f@),
        }) == serve_command(texts(args@)),
{
    let ghost all = texts(args@);
    assert(all[1] == args@[1]@);
    let mount = str_eq(&args[1], "mount");
    let remote = match copy_argument(
        args,
        if mount {
            2
        } else {
            1
        },
    ) {
        Some(r) => r,
        None => return Err(CliFaultOf::MissingRemote { mount }),
    };
    let mut mount_point: Option<String> = None;
    if mount {
        if args.len() < 4 || str_begins_with(&args[3], "-") {
            return Err(CliFaultOf::MissingMountPoint);
        }
        assert(all[3] == args@[3]@);
        mount_point = Some(args[3].clone());
    }
    match parse_options(
        args,
        if mount {
            4
        } else {
            2
        },
    ) {
        Ok(options) => Ok(CommandOf::Serve { remote, mount_point, options }),
        Err(f) => Err(f),
    }
}

/// Says what a command line asks for. `is_child` tells that the program runs in
/// the background already. There has to be something besides the flags.
pub fn parse_command(raw: &Vec<String>, is_child: bool) -> (r: Result<Command, CliFault>)
    requires
        raw@.len() >= 2 ==> without_flags(texts(raw@)).len() >= 2,
    ensures
        (match r {
            Ok(c) => Ok::<CommandView, CliFaultView>(c@),
            Err(f) => Err(f@),
        }) == command_of(texts(raw@), is_child),
{
    if raw.len() < 2 {
        return Err(CliFaultOf::Usage);
    }
    let args = drop_flags(raw);
    let ghost all = texts(args@);
    assert(args@.len() == all.len());
    assert(all[1] == args@[1]@);
    let foreground = args.len() < raw.len();
    let sub = &args[1];
    if str_eq(sub, "mount") && !foreground && !is_child {
        return Ok(CommandOf::Daemonize);
    }
    if str_eq(sub, "unmount") || str_eq(sub, "umount") {
        return match copy_argument(&args, 2) {
            Some(target) => Ok(CommandOf::Unmount { target }),
            None => Err(CliFaultOf::UnmountUsage),
        };
    }
    if str_eq(sub, "list") || str_eq(sub, "ls") {
        return Ok(CommandOf::List);
    }
    if str_eq(sub, "-h") || str_eq(sub, "--help") || str_eq(sub, "help") {
        return Err(CliFaultOf::Usage);
    }
    parse_serve(&args)
}

/// Counts the arguments that are not flags to stay in the foreground.
pub fn count_arguments(raw: &Vec<String>) -> (n: usize)
    ensures
        n == without_flags(texts(raw@)).len(),
{
    let args = drop_flags(raw);
    assert(args@.len() == texts(args@).len());
    args.len()
}

/// The path to ask the remote side for: the directory that a login starts in,
/// where none is given.
pub open spec fn remote_root(path: Seq<char>) -> Seq<char> {
    if path.len() == 0 {
        "."@
    } else {
        path
    }
}

/// The path to ask the remote side for.
pub fn start_directory(path: &str) -> (r: String)
    ensures
        r@ == remote_root(path@),
{
    let chars = chars_of(path);
    if chars.len() == 0 {
        String::from_str(".")
    } else {
        String::from_str(path)
    }
}

// ── Mounting ────────────────────────────────────────────────────────

/// Where the system finds the share.
pub open spec fn share_url(macos: bool, port: u16, name: Seq<char>) -> Seq<char> {
    if macos {
        "//guest@localhost:"@ + decimal(port as nat) + "/"@ + name
    } else {
        "smb://guest@127.0.0.1:"@ + decimal(port as nat) + "/"@ + name
    }
}

fn build_share_url(macos: bool, port: u16, name: &str) -> (r: String)
    ensures
        r@ == share_url(macos, port, name@),
{
    let mut r = if macos {
        String::from_str("//guest@localhost:")
    } else {
        String::from_str("smb://guest@127.0.0.1:")
    };
    r.append(&decimal_text(port as u64));
    r.append("/");
    r.append(name);
    r
}

/// The command that mounts the share, for a user to type.
pub open spec fn mount_hint(macos: bool, port: u16, name: Seq<char>) -> Seq<char> {
    if macos {
        "mount_smbfs "@ + share_url(macos, port, name) + " <mountpoint>"@
    } else {
        "gio mount "@ + share_url(macos, port, name)
    }
}

/// The command that mounts the share, for a user to type.
pub fn mount_cmd_hint(macos: bool, port: u16, name: &str) -> (r: String)
    ensures
        r@ == mount_hint(macos, port, name@),
{
    let url = build_share_url(macos, port, name);
    let mut r = if macos {
        String::from_str("mount_smbfs ")
    } else {
        String::from_str("gio mount ")
    };
    r.append(&url);
    if macos {
        r.append(" <mountpoint>");
    }
    r
}

/// The program that mounts the share, with its arguments.
pub open spec fn mount_words(macos: bool, port: u16, name: Seq<char>, place: Seq<char>) -> Seq<
    Seq<char>,
> {
    if macos {
        seq!["mount_smbfs"@, share_url(macos, port, name), place]
    } else {
        seq!["gio"@, "mount"@, share_url(macos, port, name)]
    }
}

/// The program that mounts the share, with its arguments.
pub fn mount_command(macos: bool, port: u16, name: &str, place: &str) -> (r: Vec<String>)
    ensures
        texts(r@) == mount_words(macos, port, name@, place@),
{
    let url = build_share_url(macos, port, name);
    let mut r: Vec<String> = Vec::new();
    if macos {
        push_text(&mut r, "mount_smbfs");
        push_text(&mut r, &url);
        push_text(&mut r, place);
    } else {
        push_text(&mut r, "gio");
        push_text(&mut r, "mount");
        push_text(&mut r, &url);
    }
    assert(texts(r@) =~= mount_words(macos, port, name@, place@));
    r
}

// ── The background process ──────────────────────────────────────────

/// How long the mount may take, in nanoseconds.
pub const DAEMON_TIMEOUT: u128 = 30_000_000_000;

/// What became of the process in the background.
#[derive(Debug, Clone, Copy, PartialEq, Eq, Structural)]
pub enum DaemonState {
    /// It has ended.
    Exited,
    /// It has mounted the share.
    Mounted,
    /// It could not.
    Failed,
    /// It took too long.
    TimedOut,
    /// Nothing yet.
    Waiting,
}

/// What became of the process in the background, by whether it has ended, what
/// it has written, and how long it has run.
pub open spec fn daemon_state(exited: bool, log: Seq<char>, elapsed: u128) -> DaemonState {
    if exited {
        DaemonState::Exited
    } else if holds_text(log, "Mounted at"@) {
        DaemonState::Mounted
    } else if holds_text(log, "Mount failed"@) || holds_text(log, "SSH connection failed"@) {
        DaemonState::Failed
    } else if elapsed > DAEMON_TIMEOUT {
        DaemonState::TimedOut
    } else {
        DaemonState::Waiting
    }
}

/// Says what became of the process in the background.
pub fn poll_daemon(exited: bool, log: &str, elapsed: u128) -> (s: DaemonState)
    ensures
        s == daemon_state(exited, log@, elapsed),
{
    if exited {
        DaemonState::Exited
    } else if str_holds(log, "Mounted at") {
        DaemonState::Mounted
    } else if str_holds(log, "Mount failed") || str_holds(log, "SSH connection failed") {
        DaemonState::Failed
    } else if elapsed > DAEMON_TIMEOUT {
        DaemonState::TimedOut
    } else {
        DaemonState::Waiting
    }
}

/// Where the process in the background writes.
pub open spec fn log_path(pid: u32) -> Seq<char> {
    "/tmp/mounter-"@ + decimal(pid as nat) + ".log"@
}

/// Where the process in the background writes.
pub fn daemon_log_path(pid: u32) -> (r: String)
    ensures
        r@ == log_path(pid),
{
    let mut r = String::from_str("/tmp/mounter-");
    r.append(&decimal_text(pid as u64));
    r.append(".log");
    r
}

/// Options as a user writes them.
pub open spec fn option_words(o: OptionsView) -> Seq<Seq<char>> {
    seq!["-p"@, decimal(o.ssh_port as nat), "--smb-port"@, decimal(o.smb_port as nat)] + (
    match o.identity {
        Some(s) => seq!["-i"@, s],
        None => Seq::empty(),
    }) + (match o.share_name {
        Some(s) => seq!["-n"@, s],
        None => Seq::empty(),
    })
}

proof fn lemma_option_names()
    ensures
        "-p"@ != "-i"@ && "-p"@ != "-n"@ && "-i"@ != "-n"@,
        "-p"@ != "--smb-port"@ && "-i"@ != "--smb-port"@ && "-n"@ != "--smb-port"@,
{
    reveal_strlit("-p");
    reveal_strlit("-i");
    reveal_strlit("-n");
    reveal_strlit("--smb-port");
    assert("-p"@[1] == 'p' && "-i"@[1] == 'i' && "-n"@[1] == 'n');
    assert("--smb-port"@[1] == '-');
}

/// Options read back as they were written: each word sets what it is for and
/// nothing else, and what is not written has its default.
#[verifier::rlimit(40)]
pub proof fn law_options_read_back(before: Seq<Seq<char>>, o: OptionsView)
    ensures
        options_from(
            before + option_words(o),
            before.len() as int,
            OptionsOf { ssh_port: 22, identity: None, share_name: None, smb_port: 0 },
        ) == Ok::<OptionsView, CliFaultView>(o),
{
    lemma_option_names();
    let args = before + option_words(o);
    let i = before.len() as int;
    let n = args.len() as int;
    law_decimal_round_trip(o.ssh_port as nat, 65535);
    law_decimal_round_trip(o.smb_port as nat, 65535);
    let o0: OptionsView = OptionsOf {
        ssh_port: 22,
        identity: None,
        share_name: None,
        smb_port: 0,
    };
    let o1: OptionsView = OptionsOf { ssh_port: o.ssh_port, ..o0 };
    let o2: OptionsView = OptionsOf { smb_port: o.smb_port, ..o1 };
    let o3: OptionsView = OptionsOf { identity: o.identity, ..o2 };
    assert(args[i] == "-p"@);
    assert(args[i + 1] == decimal(o.ssh_port as nat));
    assert(args[i + 2] == "--smb-port"@);
    assert(args[i + 3] == decimal(o.smb_port as nat));
    assert(options_from(args, i, o0) == options_from(args, i + 2, o1));
    assert(options_from(args, i + 2, o1) == options_from(args, i + 4, o2));
    let j: int = if o.identity is Some {
        i + 6
    } else {
        i + 4
    };
    if let Some(s) = o.identity {
        assert(args[i + 4] == "-i"@);
        assert(args[i + 5] == s);
        assert(options_from(args, i + 4, o2) == options_from(args, j, o3));
    }
    if let Some(s) = o.share_name {
        assert(args[j] == "-n"@);
        assert(args[j + 1] == s);
        assert(options_from(args, j, o3) == options_from(args, j + 2, o));
    }
    assert(options_from(args, n, o) == Ok::<OptionsView, CliFaultView>(o));
}

proof fn lemma_no_flags(args: Seq<Seq<char>>)
    requires
        forall|i: int| 0 <= i < args.len() ==> !is_foreground_flag(#[trigger] args[i]),
    ensures
        without_flags(args) == args,
    decreases args.len(),
{
    reveal(Seq::filter);
    if args.len() > 0 {
        let rest = args.drop_last();
        assert forall|i: int| 0 <= i < rest.len() implies !is_foreground_flag(
            #[trigger] rest[i],
        ) by {
            assert(rest[i] == args[i]);
        }
        lemma_no_flags(rest);
        assert(!is_foreground_flag(args.last()));
        assert(rest.push(args.last()) =~= args);
    } else {
        assert(without_flags(args) =~= args);
    }
}

/// A command line that mounts.
#[verifier::opaque]
pub open spec fn mount_line(
    program: Seq<char>,
    remote: Seq<char>,
    place: Seq<char>,
    o: OptionsView,
) -> Seq<Seq<char>> {
    seq![program, "mount"@, remote, place] + option_words(o)
}

/// None of the words keeps the program in front.
#[verifier::opaque]
pub open spec fn has_no_flags(line: Seq<Seq<char>>) -> bool {
    forall|i: int| 0 <= i < line.len() ==> #[trigger] line[i] != "-f"@ && line[i] != "--foreground"@
}

proof fn lemma_flagless(line: Seq<Seq<char>>)
    requires
        has_no_flags(line),
    ensures
        without_flags(line) == line,
{
    reveal(has_no_flags);
    assert forall|i: int| 0 <= i < line.len() implies !is_foreground_flag(#[trigger] line[i]) by {}
    lemma_no_flags(line);
}

proof fn lemma_line(program: Seq<char>, remote: Seq<char>, place: Seq<char>, o: OptionsView)
    ensures
        ({
            let line = mount_line(program, remote, place, o);
            &&& line.len() >= 4
            &&& line[1] == "mount"@ && line[2] == remote && line[3] == place
            &&& options_from(line, 4, no_options()) == Ok::<OptionsView, CliFaultView>(o)
        }),
{
    reveal(mount_line);
    let before = seq![program, "mount"@, remote, place];
    let line = before + option_words(o);
    assert(before.len() == 4);
    assert(line[1] == before[1] && line[2] == before[2] && line[3] == before[3]);
    law_options_read_back(before, o);
}

/// A command line that mounts reads back: what is to be served, where it is to be
/// mounted, and the options. It is carried out where the program is in the
/// background already or is told to stay in front; else the program goes there.
#[verifier::rlimit(40)]
pub proof fn law_mount_commands_read_back(
    program: Seq<char>,
    remote: Seq<char>,
    place: Seq<char>,
    o: OptionsView,
)
    requires
        place.len() > 0 && place[0] != '-',
        has_no_flags(mount_line(program, remote, place, o)),
    ensures
        ({
            let line = mount_line(program, remote, place, o);
            let serve = Ok::<CommandView, CliFaultView>(
                CommandOf::Serve { remote, mount_point: Some(place), options: o },
            );
            &&& command_of(line, true) == serve
            &&& command_of(line.push("-f"@), false) == serve
            &&& command_of(line, false) == Ok::<CommandView, CliFaultView>(CommandOf::Daemonize)
        }),
{
    let line = mount_line(program, remote, place, o);
    lemma_line(program, remote, place, o);
    lemma_flagless(line);
    lemma_one_flag(line);
    lemma_mount_line(line, line, true, remote, place, o);
    lemma_mount_line(line, line.push("-f"@), false, remote, place, o);
}

proof fn lemma_one_flag(line: Seq<Seq<char>>)
    requires
        without_flags(line) == line,
    ensures
        without_flags(line.push("-f"@)) == line,
{
    reveal(Seq::filter);
    assert(line.push("-f"@).drop_last() =~= line);
}

proof fn lemma_mount_word()
    ensures
        "mount"@ != "unmount"@ && "mount"@ != "umount"@ && "mount"@ != "list"@ && "mount"@ != "ls"@,
        "mount"@ != "-h"@ && "mount"@ != "--help"@ && "mount"@ != "help"@,
{
    reveal_strlit("mount");
    reveal_strlit("unmount");
    reveal_strlit("umount");
    reveal_strlit("list");
    reveal_strlit("ls");
    reveal_strlit("-h");
    reveal_strlit("--help");
    reveal_strlit("help");
    assert("mount"@[0] == 'm' && "unmount"@[0] == 'u' && "umount"@[0] == 'u');
    assert("list"@[0] == 'l' && "ls"@[0] == 'l' && "-h"@[0] == '-' && "--help"@[0] == '-');
    assert("help"@[0] == 'h');
}

proof fn lemma_mount_line(
    args: Seq<Seq<char>>,
    raw: Seq<Seq<char>>,
    is_child: bool,
    remote: Seq<char>,
    place: Seq<char>,
    o: OptionsView,
)
    requires
        without_flags(raw) == args,
        raw.len() >= args.len() >= 4,
        raw.len() > args.len() || is_child,
        args[1] == "mount"@ && args[2] == remote && args[3] == place,
        place.len() > 0 && place[0] != '-',
        options_from(args, 4, no_options()) == Ok::<OptionsView, CliFaultView>(o),
    ensures
        command_of(raw, is_child) == Ok::<CommandView, CliFaultView>(
            CommandOf::Serve { remote, mount_point: Some(place), options: o },
        ),
{
    lemma_mount_word();
    reveal_strlit("-");
    assert(!begins_with(place, "-"@)) by {
        if begins_with(place, "-"@) {
            assert(place.subrange(0, 1)[0] == place[0]);
            assert("-"@[0] == '-');
        }
    }
}

/// What is mounted from here is found again in the system's list: the address that
/// macOS mounts names the share and the port.
pub proof fn law_mounted_shares_are_found(port: u16, name: Seq<char>)
    requires
        port > 0,
    ensures
        crate::mounts::parse_source(share_url(true, port, name)) == Some((name, port)),
{
    reveal_strlit("//guest@localhost:");
    reveal_strlit("//");
    reveal_strlit("guest");
    reveal_strlit("localhost");
    reveal_strlit("/");
    let url = share_url(true, port, name);
    let d = decimal(port as nat);
    assert(url =~= crate::mounts::source_text("guest"@, "localhost"@, port, name));
    crate::mounts::law_sources_read_back("guest"@, "localhost"@, port, name);
}

/// The program in front waits for half a minute, and no longer, for the one in the
/// background to end or to write how it went.
pub proof fn law_waiting_has_an_end(exited: bool, log: Seq<char>, elapsed: u128)
    ensures
        match daemon_state(exited, log, elapsed) {
            DaemonState::Exited => exited,
            DaemonState::Mounted => !exited && holds_text(log, "Mounted at"@),
            DaemonState::Failed => !exited && !holds_text(log, "Mounted at"@) && (holds_text(
                log,
                "Mount failed"@,
            ) || holds_text(log, "SSH connection failed"@)),
            DaemonState::TimedOut => elapsed > 30_000_000_000 && !exited,
            DaemonState::Waiting => elapsed <= 30_000_000_000 && !exited && !holds_text(
                log,
                "Mounted at"@,
            ) && !holds_text(log, "Mount failed"@),
        },
{
}

} // verus!
