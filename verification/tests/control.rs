use tthsd::config::{default_config, DownloadTask};
use tthsd::errors::DownloadError;
use tthsd::event::EventType;
use tthsd::json::JsonValue;
use tthsd::manager::{Registry, CODE_ALREADY_RUNNING, CODE_NO_SESSION};
use tthsd::session::{
    pause_message, stop_message, start_event, end_event, task_event_plan, Session,
};

fn one_task() -> Vec<DownloadTask> {
    vec![DownloadTask {
        url: String::from("http://example.com/a.bin"),
        save_path: String::from("/tmp/a.bin"),
        show_name: String::from("a.bin"),
        id: String::from("t1"),
    }]
}

#[test]
fn second_start_reports_already_running() {
    // Two starts on one handle: exactly one succeeds.
    let mut s = Session::new(default_config(one_task(), 4, 10));
    assert_eq!(s.start(), Ok(()));
    assert_eq!(s.start(), Err(DownloadError::AlreadyRunning));
}

#[test]
fn pause_then_resume() {
    let mut s = Session::new(default_config(one_task(), 4, 10));
    assert_eq!(s.start(), Ok(()));
    assert!(s.pause());
    assert!(!s.state.running);
    // resume is start from the current task list
    assert_eq!(s.start(), Ok(()));
    assert!(s.state.running);
    let msg = pause_message();
    assert_eq!(msg.event.event_type, EventType::Msg);
    assert_eq!(msg.data[0].0, "Text");
}

#[test]
fn stop_fires_cancel_and_disables() {
    let mut s = Session::new(default_config(one_task(), 4, 10));
    assert_eq!(s.start(), Ok(()));
    assert!(s.stop());
    assert!(!s.state.running);
    assert!(s.state.stopped);
    let msg = stop_message();
    assert_eq!(msg.event.event_type, EventType::Msg);
}

#[test]
fn run_level_events() {
    assert_eq!(start_event(false).event_type, EventType::Start);
    assert_eq!(start_event(true).event_type, EventType::Start);
    assert_eq!(end_event(false).event_type, EventType::End);
}

#[test]
fn task_events_on_success() {
    let plan = task_event_plan(
        &String::from("http://x/f"),
        &String::from("/tmp/f"),
        &String::from("f"),
        &String::from("id1"),
        0,
        3,
        None,
        false,
    );
    assert_eq!(plan.len(), 2);
    assert_eq!(plan[0].event.event_type, EventType::StartOne);
    assert_eq!(plan[1].event.event_type, EventType::EndOne);
    // Index is 1-based; Total is the task count.
    assert_eq!(plan[0].data[3].0, "Index");
    assert_eq!(plan[0].data[4].0, "Total");
}

#[test]
fn task_events_on_failure_err_precedes_end_one() {
    let e = DownloadError::BadStatus(500);
    let plan = task_event_plan(
        &String::from("http://x/f"),
        &String::from("/tmp/f"),
        &String::from("f"),
        &String::from("id1"),
        1,
        3,
        Some(&e),
        false,
    );
    assert_eq!(plan.len(), 3);
    assert_eq!(plan[0].event.event_type, EventType::StartOne);
    assert_eq!(plan[1].event.event_type, EventType::Error);
    assert_eq!(plan[1].data[0].0, "Error");
    assert_eq!(plan[2].event.event_type, EventType::EndOne);
}

#[test]
fn task_events_cancelled_failure_is_silent() {
    // A cancelled task emits no err, only its endOne.
    let e = DownloadError::Cancelled;
    let plan = task_event_plan(
        &String::from("http://x/f"),
        &String::from("/tmp/f"),
        &String::from("f"),
        &String::from("id1"),
        0,
        1,
        Some(&e),
        true,
    );
    assert_eq!(plan.len(), 2);
    assert_eq!(plan[0].event.event_type, EventType::StartOne);
    assert_eq!(plan[1].event.event_type, EventType::EndOne);
}

#[test]
fn manager_handles_are_monotonic_from_one() {
    let mut reg = Registry::new();
    assert_eq!(reg.create(default_config(one_task(), 4, 10)), 1);
    assert_eq!(reg.create(default_config(one_task(), 4, 10)), 2);
}

#[test]
fn manager_rejects_empty_task_list() {
    let mut reg = Registry::new();
    assert_eq!(reg.create(default_config(Vec::new(), 4, 10)), -1);
}

#[test]
fn manager_concurrent_start_exactly_one_succeeds() {
    let mut reg = Registry::new();
    let id = reg.create(default_config(one_task(), 4, 10));
    assert_eq!(reg.start_by_id(id), 0);
    assert_eq!(reg.start_by_id(id), CODE_ALREADY_RUNNING);
    assert_eq!(reg.start_multiple_by_id(id), CODE_ALREADY_RUNNING);
}

#[test]
fn manager_unknown_handle() {
    let mut reg = Registry::new();
    assert_eq!(reg.start_by_id(7), CODE_NO_SESSION);
    assert_eq!(reg.pause_by_id(0), CODE_NO_SESSION);
    assert_eq!(reg.stop_by_id(-3), CODE_NO_SESSION);
}

#[test]
fn manager_stop_is_idempotent() {
    // The second stop returns the error code and nothing more happens.
    let mut reg = Registry::new();
    let id = reg.create(default_config(one_task(), 4, 10));
    assert_eq!(reg.start_by_id(id), 0);
    assert_eq!(reg.stop_by_id(id), 0);
    assert_eq!(reg.stop_by_id(id), CODE_NO_SESSION);
    assert_eq!(reg.start_by_id(id), CODE_NO_SESSION);
}

#[test]
fn manager_pause_and_resume_by_handle() {
    let mut reg = Registry::new();
    let id = reg.create(default_config(one_task(), 4, 10));
    assert_eq!(reg.start_by_id(id), 0);
    assert_eq!(reg.pause_by_id(id), 0);
    assert_eq!(reg.resume_by_id(id), 0);
    assert_eq!(reg.resume_by_id(id), CODE_ALREADY_RUNNING);
}

#[test]
fn unregister_channel_removes_route() {
    let mut reg = Registry::new();
    let id = reg.create(default_config(one_task(), 4, 10));
    reg.unregister_channel(id);
    assert_eq!(reg.start_by_id(id), CODE_NO_SESSION);
}

#[test]
fn owner_of_routes_by_task_id() {
    let mut reg = Registry::new();
    let c1 = default_config(one_task(), 4, 10);
    let h1 = reg.create(c1);
    let mut other = one_task();
    other[0].id = String::from("t2");
    let h2 = reg.create(default_config(other, 4, 10));
    assert_eq!(tthsd::manager::owner_of(&reg, "t1"), Some(h1));
    assert_eq!(tthsd::manager::owner_of(&reg, "t2"), Some(h2));
    assert_eq!(tthsd::manager::owner_of(&reg, "unknown"), None);
    assert_eq!(reg.stop_by_id(h1), 0);
    assert_eq!(tthsd::manager::owner_of(&reg, "t1"), None);
}

#[test]
fn task_plan_payload_values() {
    let plan = task_event_plan(
        &String::from("http://x/f"),
        &String::from("/tmp/f"),
        &String::from("f"),
        &String::from("id9"),
        1,
        3,
        None,
        false,
    );
    for data in [&plan[0].data, &plan[1].data] {
        assert_eq!(data[0], (String::from("URL"), JsonValue::Str(String::from("http://x/f"))));
        assert_eq!(
            data[1],
            (String::from("SavePath"), JsonValue::Str(String::from("/tmp/f")))
        );
        assert_eq!(data[2], (String::from("ShowName"), JsonValue::Str(String::from("f"))));
        assert_eq!(data[3], (String::from("Index"), JsonValue::Num(2)));
        assert_eq!(data[4], (String::from("Total"), JsonValue::Num(3)));
    }
}
