use mounter::sftp::call::{CallOf, SftpReply};
use mounter::sftp::pool::{
    PoolEvent, PoolTurn, ReconnectingSftp, SweepTurn, CONN_STATE_CONNECTED,
    CONN_STATE_DISCONNECTED, CONN_STATE_RECONNECTING,
};
use mounter::wire::SftpError;

#[test]
fn opened_handles_lead_back_to_their_session() {
    let mut pool = ReconnectingSftp::dummy();
    pool.next_session = 6;
    let job = match pool.open("/f", 1, 0) {
        PoolTurn::Run(j) => j,
        _ => panic!("the file was not opened"),
    };
    assert_eq!(job.index, 2);
    let handle = match job.on_event(PoolEvent::Ran(SftpReply::Handle(Ok(vec![7, 8])))) {
        PoolTurn::Finish(SftpReply::Handle(Ok(h))) => h,
        _ => panic!("no handle"),
    };
    assert_eq!(handle, vec![2, 7, 8]);
    match pool.read(&handle, 10, 20) {
        PoolTurn::Run(j) => {
            assert_eq!(j.index, 2);
            match j.call {
                CallOf::Read { handle, offset, len } => {
                    assert_eq!((handle, offset, len), (vec![7, 8], 10, 20));
                }
                _ => panic!("not a read"),
            }
        }
        _ => panic!("the file was not read"),
    }
    assert_eq!(pool.next_session, 7);
}

#[test]
fn a_broken_operation_is_tried_once_more() {
    let mut pool = ReconnectingSftp::dummy();
    let job = match pool.lstat("/f") {
        PoolTurn::Run(j) => j,
        _ => panic!("not run"),
    };
    assert_eq!(job.index, 0);
    let broken = PoolEvent::Ran(SftpReply::Attrs(Err(SftpError::Disconnected)));
    let job = match job.on_event(broken) {
        PoolTurn::Reconnect(j) => j,
        _ => panic!("not reconnected"),
    };
    let job = match job.on_event(PoolEvent::Reconnected(true)) {
        PoolTurn::Run(j) => j,
        _ => panic!("not run again"),
    };
    assert!(job.again);
    let broken = PoolEvent::Ran(SftpReply::Attrs(Err(SftpError::Protocol("x".to_string()))));
    match job.on_event(broken) {
        PoolTurn::Finish(SftpReply::Attrs(Err(SftpError::Protocol(_)))) => {}
        _ => panic!("tried a third time"),
    }
}

#[test]
fn a_refusal_is_not_tried_again() {
    let mut pool = ReconnectingSftp::dummy();
    let job = match pool.mkdir("/d", 0o755) {
        PoolTurn::Run(j) => j,
        _ => panic!("not run"),
    };
    let refused = PoolEvent::Ran(SftpReply::Nothing(Err(SftpError::Status(3, "".to_string()))));
    match job.on_event(refused) {
        PoolTurn::Finish(SftpReply::Nothing(Err(SftpError::Status(3, _)))) => {}
        _ => panic!("tried again"),
    }
}

#[test]
fn reads_and_writes_are_not_tried_again() {
    let mut pool = ReconnectingSftp::dummy();
    let job = match pool.write(&[1, 9], 0, b"data") {
        PoolTurn::Run(j) => j,
        _ => panic!("not run"),
    };
    assert_eq!(job.index, 1);
    match job.on_event(PoolEvent::Absent) {
        PoolTurn::Finish(SftpReply::Nothing(Err(SftpError::Disconnected))) => {}
        _ => panic!("went on"),
    }
}

#[test]
fn a_handle_without_a_session_counts_as_closed() {
    let mut pool = ReconnectingSftp::dummy();
    match pool.close(&[]) {
        PoolTurn::Finish(SftpReply::Nothing(Ok(()))) => {}
        _ => panic!("not closed"),
    }
    match pool.read(&[], 0, 1) {
        PoolTurn::Finish(SftpReply::Data(Err(SftpError::Disconnected))) => {}
        _ => panic!("read"),
    }
    let job = match pool.close(&[3, 1]) {
        PoolTurn::Run(j) => j,
        _ => panic!("not run"),
    };
    match job.on_event(PoolEvent::Absent) {
        PoolTurn::Finish(SftpReply::Nothing(Ok(()))) => {}
        _ => panic!("not closed"),
    }
}

#[test]
fn a_poisoned_place_ends_the_operation() {
    let mut pool = ReconnectingSftp::dummy();
    let job = match pool.realpath(".") {
        PoolTurn::Run(j) => j,
        _ => panic!("not run"),
    };
    match job.on_event(PoolEvent::Poisoned) {
        PoolTurn::Finish(SftpReply::Path(Err(SftpError::Disconnected))) => {}
        _ => panic!("went on"),
    }
}

#[test]
fn three_failures_in_a_row_lose_the_connection() {
    let mut pool = ReconnectingSftp::dummy();
    assert!(pool.is_connected());
    assert_eq!(pool.state(), CONN_STATE_CONNECTED);
    pool.reconnect_session(0);
    assert!(!pool.is_connected());
    pool.reconnect_done(0, false);
    assert_eq!(pool.state(), CONN_STATE_RECONNECTING);
    pool.reconnect_done(0, false);
    assert_eq!(pool.state(), CONN_STATE_RECONNECTING);
    pool.reconnect_done(0, false);
    assert_eq!(pool.state(), CONN_STATE_DISCONNECTED);
    pool.reconnect_done(0, true);
    assert_eq!(pool.state(), CONN_STATE_CONNECTED);
    assert_eq!(pool.fail_count, 0);
    assert!(pool.is_connected());
    pool.session_poisoned();
    assert_eq!(pool.state(), CONN_STATE_DISCONNECTED);
}

#[test]
fn a_sweep_visits_every_session() {
    let mut pool = ReconnectingSftp::dummy();
    pool.fail_count = 2;
    let mut sweep = pool.force_reconnect();
    assert_eq!(pool.fail_count, 0);
    let mut visited = vec![];
    let any = loop {
        visited.push(sweep.index);
        match sweep.record(visited.len() == 2) {
            SweepTurn::Reconnect(s) => sweep = s,
            SweepTurn::Done(any) => break any,
        }
    };
    assert_eq!(visited, vec![0, 1, 2, 3]);
    assert!(any);
}

#[test]
fn a_pool_needs_its_first_session() {
    let pool =
        ReconnectingSftp::connect("h", 22, None, None, Ok(()), &[true, false, true]).unwrap();
    assert_eq!(pool.live, vec![true, true, false, true]);
    match ReconnectingSftp::connect(
        "h",
        22,
        None,
        None,
        Err(SftpError::Io("no route".to_string())),
        &[false, false, false],
    ) {
        Err(SftpError::Io(text)) => assert_eq!(text, "no route"),
        _ => panic!("connected"),
    }
}

#[test]
fn files_are_opened_in_turn() {
    let mut pool = ReconnectingSftp::dummy();
    for k in 0..9usize {
        let _ = pool.lstat("/f");
        let job = match pool.open("/f", 1, 0) {
            PoolTurn::Run(j) => j,
            _ => panic!("the file was not opened"),
        };
        assert_eq!(job.index, k % 4);
        let handle = match job.on_event(PoolEvent::Ran(SftpReply::Handle(Ok(vec![9])))) {
            PoolTurn::Finish(SftpReply::Handle(Ok(h))) => h,
            _ => panic!("no handle"),
        };
        for turn in [pool.read(&handle, 0, 1), pool.write(&handle, 0, b"x"), pool.close(&handle)] {
            match turn {
                PoolTurn::Run(j) => {
                    assert_eq!(j.index, k % 4);
                    match j.call {
                        CallOf::Read { handle, .. }
                        | CallOf::Write { handle, .. }
                        | CallOf::Close { handle } => assert_eq!(handle, vec![9]),
                        _ => panic!("another operation"),
                    }
                }
                _ => panic!("not run"),
            }
        }
    }
}
