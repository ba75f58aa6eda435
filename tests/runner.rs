use discord_fix::runner::{Launch, Notice, RunStep, Runner, WatchStep};
use discord_fix::Error;

fn started(r: &mut Runner) {
    assert_eq!(r.run(), RunStep::Launch);
    assert_eq!(r.record_launch(Launch::Alive), Ok(Some(Notice::Started)));
}

#[test]
fn new_runner_is_idle() {
    let r = Runner::new();
    assert!(!r.is_enabled());
    assert!(r.is_stopped());
}

#[test]
fn start_enables_when_process_alive() {
    let mut r = Runner::new();
    started(&mut r);
    assert!(r.is_enabled());
    assert!(!r.is_stopped());
}

#[test]
fn start_fails_when_process_exited_at_once() {
    let mut r = Runner::new();
    assert_eq!(r.run(), RunStep::Launch);
    assert_eq!(r.record_launch(Launch::Exited), Err(Error::FailedRunWinwsProcess));
    assert!(!r.is_enabled());
    assert!(r.is_stopped());
    assert_eq!(r.run(), RunStep::Launch);
}

#[test]
fn start_fails_with_resolution_error() {
    let mut r = Runner::new();
    assert_eq!(r.run(), RunStep::Launch);
    let e = Error::FailedParseBatFile("x".to_string());
    assert_eq!(r.record_launch(Launch::Failed(e.clone_for_test())), Err(e));
    assert!(!r.is_enabled());
}

trait CloneForTest {
    fn clone_for_test(&self) -> Self;
}

impl CloneForTest for Error {
    fn clone_for_test(&self) -> Self {
        match self {
            Error::String(s) => Error::String(s.clone()),
            Error::FailedReadBatsList(s) => Error::FailedReadBatsList(s.clone()),
            Error::FailedParseBatFile(s) => Error::FailedParseBatFile(s.clone()),
            Error::FailedRunWinwsProcess => Error::FailedRunWinwsProcess,
        }
    }
}

#[test]
fn stop_while_idle_is_complete_at_once() {
    let mut r = Runner::new();
    r.stop();
    assert!(r.is_stopped());
    assert!(!r.is_enabled());
    assert_eq!(r.run(), RunStep::Launch);
}

#[test]
fn start_then_stop_ends_idle() {
    let mut r = Runner::new();
    started(&mut r);
    assert_eq!(r.watch(false), WatchStep::Wait);
    r.stop();
    assert!(!r.is_stopped());
    assert_eq!(r.watch(false), WatchStep::Teardown);
    assert!(!r.is_stopped());
    assert_eq!(r.finish_teardown(), Some(Notice::Stopped));
    assert!(r.is_stopped());
    assert!(!r.is_enabled());
    assert_eq!(r.watch(false), WatchStep::Done);
    started(&mut r);
}

#[test]
fn process_death_tears_down() {
    let mut r = Runner::new();
    started(&mut r);
    assert_eq!(r.watch(true), WatchStep::Teardown);
    assert_eq!(r.finish_teardown(), Some(Notice::Stopped));
    assert!(r.is_stopped());
}

#[test]
fn second_start_is_refused() {
    let mut r = Runner::new();
    assert_eq!(r.run(), RunStep::Launch);
    assert_eq!(r.run(), RunStep::Busy);
    assert_eq!(r.record_launch(Launch::Alive), Ok(Some(Notice::Started)));
    assert_eq!(r.run(), RunStep::Busy);
    assert_eq!(r.record_launch(Launch::Alive), Ok(None));
    assert!(r.is_enabled());
}

#[test]
fn stop_during_launch_tears_down_after_it() {
    let mut r = Runner::new();
    assert_eq!(r.run(), RunStep::Launch);
    r.stop();
    assert_eq!(r.record_launch(Launch::Alive), Ok(Some(Notice::Started)));
    assert_eq!(r.watch(false), WatchStep::Teardown);
    assert_eq!(r.finish_teardown(), Some(Notice::Stopped));
    assert!(r.is_stopped());
}

#[test]
fn forced_stop_sends_no_notice_and_blocks_runs() {
    let mut r = Runner::new();
    started(&mut r);
    r.stop_unsafe();
    assert_eq!(r.watch(false), WatchStep::Teardown);
    assert_eq!(r.finish_teardown(), None);
    assert!(!r.is_enabled());
    assert!(r.is_stopped());
    assert_eq!(r.run(), RunStep::Busy);
}

#[test]
fn finish_teardown_without_release_changes_nothing() {
    let mut r = Runner::new();
    assert_eq!(r.finish_teardown(), None);
    started(&mut r);
    assert_eq!(r.finish_teardown(), None);
    assert!(r.is_enabled());
}

#[test]
fn notice_names_and_icons() {
    assert_eq!(Notice::Started.event_name(), "process-started");
    assert_eq!(Notice::Stopped.event_name(), "process-stopped");
    assert_eq!(Notice::Started.icon(), "icon.ico");
    assert_eq!(Notice::Stopped.icon(), "icon2.ico");
}

#[test]
fn notices_alternate_over_cycles() {
    let mut r = Runner::new();
    let mut notices = vec![];
    for exited in [false, true, false] {
        assert_eq!(r.run(), RunStep::Launch);
        notices.extend(r.record_launch(Launch::Alive).unwrap());
        assert_eq!(r.run(), RunStep::Busy);
        if !exited {
            r.stop();
        }
        assert_eq!(r.watch(exited), WatchStep::Teardown);
        notices.extend(r.finish_teardown());
    }
    assert_eq!(
        notices,
        vec![
            Notice::Started,
            Notice::Stopped,
            Notice::Started,
            Notice::Stopped,
            Notice::Started,
            Notice::Stopped
        ]
    );
}

#[test]
fn forced_stop_while_idle_blocks_runs() {
    let mut r = Runner::new();
    r.stop_unsafe();
    assert!(r.is_stopped());
    assert!(!r.is_enabled());
    assert_eq!(r.run(), RunStep::Busy);
    assert_eq!(r.watch(false), WatchStep::Done);
}

#[test]
fn repeated_stops_while_idle_leave_next_run_alone() {
    let mut r = Runner::new();
    r.stop();
    r.stop();
    assert!(r.is_stopped());
    started(&mut r);
    assert_eq!(r.watch(false), WatchStep::Wait);
    assert!(r.is_enabled());
}
