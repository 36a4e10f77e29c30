use mounter::cli::{
    count_arguments, daemon_log_path, mount_cmd_hint, mount_command, parse_command, parse_remote,
    poll_daemon, start_directory, CliFaultOf, CommandOf, DaemonState,
};
use mounter::mounts::{
    find_smb_mounts, is_mounter, list_line, parse_pids, pids_to_kill, plan_unmount,
    unmount_command, unmount_exit_code, unmount_one, watch_step, MountInfo, UnmountNext,
    UnmountPlan, UnmountStage, WatchNext,
};
use mounter::sftp::pool::{
    CONN_STATE_CONNECTED, CONN_STATE_DISCONNECTED, CONN_STATE_RECONNECTING,
};

fn args(list: &[&str]) -> Vec<String> {
    let mut out = vec!["mounter".to_string()];
    for a in list {
        out.push(a.to_string());
    }
    out
}

#[test]
fn parse_remote_full() {
    let (u, h, p) = parse_remote("alice@host:/data");
    assert_eq!(u, Some("alice".to_string()));
    assert_eq!(h, "host");
    assert_eq!(p, "/data");
}

#[test]
fn parse_remote_no_user() {
    let (u, h, p) = parse_remote("host:/data");
    assert_eq!(u, None);
    assert_eq!(h, "host");
    assert_eq!(p, "/data");
}

#[test]
fn parse_remote_host_only() {
    let (u, h, p) = parse_remote("host");
    assert_eq!(u, None);
    assert_eq!(h, "host");
    assert_eq!(p, "");
}

#[test]
fn remotes_read_back() {
    let (u, h, p) = parse_remote("a@b:c:d@e");
    assert_eq!(u, Some("a".to_string()));
    assert_eq!(h, "b");
    assert_eq!(p, "c:d@e");
    assert_eq!(start_directory(&parse_remote("host").2), ".");
    assert_eq!(start_directory("/srv"), "/srv");
}

#[test]
fn serving_with_options() {
    let line = args(&[
        "me@host:/x",
        "-p",
        "2200",
        "-i",
        "/key",
        "-n",
        "share",
        "--smb-port",
        "4450",
    ]);
    match parse_command(&line, false) {
        Ok(CommandOf::Serve {
            remote,
            mount_point,
            options,
        }) => {
            assert_eq!(remote, "me@host:/x");
            assert_eq!(mount_point, None);
            assert_eq!(options.ssh_port, 2200);
            assert_eq!(options.identity, Some("/key".to_string()));
            assert_eq!(options.share_name, Some("share".to_string()));
            assert_eq!(options.smb_port, 4450);
        }
        _ => panic!("not served"),
    }
}

#[test]
fn mounting_goes_to_the_background() {
    match parse_command(&args(&["mount", "host:", "/mnt"]), false) {
        Ok(CommandOf::Daemonize) => {}
        _ => panic!("stayed in the foreground"),
    }
    for (line, child) in [
        (args(&["mount", "host:", "/mnt"]), true),
        (args(&["mount", "-f", "host:", "/mnt"]), false),
        (args(&["--foreground", "mount", "host:", "/mnt"]), false),
    ] {
        match parse_command(&line, child) {
            Ok(CommandOf::Serve {
                remote,
                mount_point,
                options,
            }) => {
                assert_eq!(remote, "host:");
                assert_eq!(mount_point, Some("/mnt".to_string()));
                assert_eq!(options.ssh_port, 22);
                assert_eq!(options.smb_port, 0);
            }
            _ => panic!("not mounted"),
        }
    }
    assert_eq!(count_arguments(&args(&["-f"])), 1);
}

#[test]
fn subcommands() {
    match parse_command(&args(&["umount", "x"]), false) {
        Ok(CommandOf::Unmount { target }) => assert_eq!(target, "x"),
        _ => panic!("not unmounted"),
    }
    match parse_command(&args(&["ls"]), false) {
        Ok(CommandOf::List) => {}
        _ => panic!("not listed"),
    }
    match parse_command(&args(&["help"]), false) {
        Err(CliFaultOf::Usage) => {}
        _ => panic!("no help"),
    }
}

#[test]
fn what_is_wrong_with_a_command_line() {
    match parse_command(&args(&[]), false) {
        Err(CliFaultOf::Usage) => {}
        _ => panic!("taken"),
    }
    match parse_command(&args(&["unmount"]), false) {
        Err(CliFaultOf::UnmountUsage) => {}
        _ => panic!("taken"),
    }
    match parse_command(&args(&["mount"]), true) {
        Err(CliFaultOf::MissingRemote { mount: true }) => {}
        _ => panic!("taken"),
    }
    match parse_command(&args(&["mount", "h:", "-p"]), true) {
        Err(CliFaultOf::MissingMountPoint) => {}
        _ => panic!("taken"),
    }
    match parse_command(&args(&["h:", "-p", "65536"]), false) {
        Err(CliFaultOf::BadPort(s)) => assert_eq!(s, "65536"),
        _ => panic!("taken"),
    }
    match parse_command(&args(&["h:", "-p"]), false) {
        Err(CliFaultOf::MissingPort) => {}
        _ => panic!("taken"),
    }
    match parse_command(&args(&["h:", "--smb-port", "x"]), false) {
        Err(CliFaultOf::BadSmbPort(s)) => assert_eq!(s, "x"),
        _ => panic!("taken"),
    }
    match parse_command(&args(&["h:", "--smb-port"]), false) {
        Err(CliFaultOf::MissingSmbPort) => {}
        _ => panic!("taken"),
    }
    match parse_command(&args(&["h:", "--odd"]), false) {
        Err(CliFaultOf::UnknownOption(s)) => assert_eq!(s, "--odd"),
        _ => panic!("taken"),
    }
    match parse_command(&args(&["h:", "-h"]), false) {
        Err(CliFaultOf::Usage) => {}
        _ => panic!("taken"),
    }
}

#[test]
fn mount_commands() {
    assert_eq!(
        mount_cmd_hint(true, 445, "s"),
        "mount_smbfs //guest@localhost:445/s <mountpoint>"
    );
    assert_eq!(
        mount_cmd_hint(false, 10445, "s"),
        "gio mount smb://guest@127.0.0.1:10445/s"
    );
    assert_eq!(
        mount_command(true, 1, "s", "/m"),
        vec!["mount_smbfs", "//guest@localhost:1/s", "/m"]
    );
    assert_eq!(
        mount_command(false, 1, "s", "/m"),
        vec!["gio", "mount", "smb://guest@127.0.0.1:1/s"]
    );
}

#[test]
fn the_background_process_is_watched() {
    let none = 0u128;
    assert_eq!(poll_daemon(true, "Mounted at /x", none), DaemonState::Exited);
    assert_eq!(poll_daemon(false, "log\nMounted at /x\n", none), DaemonState::Mounted);
    assert_eq!(poll_daemon(false, "Mount failed.", none), DaemonState::Failed);
    assert_eq!(
        poll_daemon(false, "SSH connection failed: x", none),
        DaemonState::Failed
    );
    assert_eq!(poll_daemon(false, "", 30_000_000_000), DaemonState::Waiting);
    assert_eq!(poll_daemon(false, "", 30_000_000_001), DaemonState::TimedOut);
    assert_eq!(daemon_log_path(4711), "/tmp/mounter-4711.log");
}

#[test]
fn mounts_are_found() {
    let output = "/dev/disk1 on / (apfs, local)\r\n\
        //guest:@localhost:51000/srv on /Users/x/srv (smbfs, nodev)\n\
        //guest@box:51001/box on /Volumes/box (smbfs)\n\
        //guest@box.localhost:51002/box on /b (smbfs)\n\
        //guest@other:51003/box on /c (smbfs)\n\
        //guest@localhost:0/zero on /d (smbfs)\n\
        //guest@localhost:51004/short on /e\n\
        //guest@localhost:99999/big on /f (smbfs)";
    let found = find_smb_mounts(output);
    let list: Vec<(String, u16, String)> = found
        .iter()
        .map(|m| (m.share.clone(), m.port, m.path.clone()))
        .collect();
    assert_eq!(
        list,
        vec![
            ("srv".to_string(), 51000, "/Users/x/srv".to_string()),
            ("box".to_string(), 51001, "/Volumes/box".to_string()),
            ("box".to_string(), 51002, "/b".to_string()),
        ]
    );
    assert!(find_smb_mounts("").is_empty());
}

fn mount(share: &str, path: &str) -> MountInfo {
    MountInfo {
        share: share.to_string(),
        port: 7,
        path: path.to_string(),
    }
}

#[test]
fn targets_are_chosen() {
    let mounts = vec![mount("a", "/m/x"), mount("b", "/m/a"), mount("c", "/m/ya")];
    match plan_unmount(&mounts, "a") {
        UnmountPlan::Unmount(list) => assert_eq!(list, vec![0, 1]),
        _ => panic!("nothing chosen"),
    }
    match plan_unmount(&mounts, "all") {
        UnmountPlan::Unmount(list) => assert_eq!(list, vec![0, 1, 2]),
        _ => panic!("nothing chosen"),
    }
    match plan_unmount(&mounts, "/m/ya") {
        UnmountPlan::Unmount(list) => assert_eq!(list, vec![2]),
        _ => panic!("nothing chosen"),
    }
    match plan_unmount(&mounts, "zzz") {
        UnmountPlan::NoMatch => {}
        _ => panic!("chosen"),
    }
    match plan_unmount(&Vec::new(), "all") {
        UnmountPlan::NothingMounted => {}
        _ => panic!("chosen"),
    }
    assert_eq!(unmount_exit_code(0), 0);
    assert_eq!(unmount_exit_code(2), 1);
}

#[test]
fn mounts_are_listed_in_columns() {
    assert_eq!(
        list_line(&mount("srv", "/m")),
        "srv                  /m (port 7)"
    );
    assert_eq!(
        list_line(&mount("a-name-of-more-than-twenty", "/m")),
        "a-name-of-more-than-twenty /m (port 7)"
    );
}

#[test]
fn unmounting_escalates() {
    assert_eq!(
        unmount_one(UnmountStage::Plain, true, true),
        UnmountNext::Done {
            ok: true,
            kill_after: true
        }
    );
    assert_eq!(
        unmount_one(UnmountStage::Plain, true, false),
        UnmountNext::Try {
            stage: UnmountStage::Diskutil,
            kill_first: false
        }
    );
    assert_eq!(
        unmount_one(UnmountStage::Plain, false, false),
        UnmountNext::Try {
            stage: UnmountStage::Force,
            kill_first: true
        }
    );
    assert_eq!(
        unmount_one(UnmountStage::Force, false, false),
        UnmountNext::Done {
            ok: false,
            kill_after: false
        }
    );
    assert_eq!(
        unmount_command(UnmountStage::Force, true, "/m"),
        vec!["diskutil", "unmount", "force", "/m"]
    );
    assert_eq!(
        unmount_command(UnmountStage::Force, false, "/m"),
        vec!["umount", "-l", "/m"]
    );
    assert_eq!(
        unmount_command(UnmountStage::Plain, false, "/m"),
        vec!["umount", "/m"]
    );
    assert_eq!(
        unmount_command(UnmountStage::Diskutil, true, "/m"),
        vec!["diskutil", "unmount", "/m"]
    );
}

#[test]
fn process_numbers_are_read() {
    assert_eq!(parse_pids("12\n 345\tx 99999999999 7"), vec![12, 345, 7]);
    assert_eq!(parse_pids(""), Vec::<u32>::new());
    assert!(is_mounter("/usr/bin/mounter\n"));
    assert!(!is_mounter("mount"));
}

#[test]
fn only_processes_of_this_program_are_killed() {
    let found = vec![
        (1, Some("/usr/bin/mounter\n".to_string())),
        (2, Some("sshd\n".to_string())),
        (3, None),
        (4, Some("mounter".to_string())),
    ];
    assert_eq!(pids_to_kill(&found), vec![1, 4]);
    assert!(pids_to_kill(&found[1..3].to_vec()).is_empty());
}

#[test]
fn a_share_is_given_up_when_its_connection_is_lost() {
    assert_eq!(watch_step(true, None), WatchNext::Wait);
    assert_eq!(watch_step(false, None), WatchNext::Reconnect);
    assert_eq!(watch_step(false, Some(CONN_STATE_CONNECTED)), WatchNext::Wait);
    assert_eq!(watch_step(false, Some(CONN_STATE_RECONNECTING)), WatchNext::Wait);
    assert_eq!(watch_step(false, Some(CONN_STATE_DISCONNECTED)), WatchNext::Unmount);
}
