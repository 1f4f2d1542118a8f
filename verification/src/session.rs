//! The session: a runnable unit owning tasks, a cancel signal and a sink.
//!
//! A session is running exactly while its cancel signal is set. The
//! transitions here decide what each control operation does and which events
//! it emits; the asynchronous run loop outside the library performs the I/O
//! and delivers the events in the order given.

use vstd::prelude::*;
use crate::config::DownloadConfig;
use crate::errors::DownloadError;
use crate::event::{Event, EventType};
use crate::json::JsonValue;

verus! {

/// The control state of a session: running exactly while the cancel signal
/// is set; stopped once `stop` has made the session unusable.
#[derive(Debug, Clone, Copy, PartialEq, Eq, Structural)]
pub struct SessionState {
    pub running: bool,
    pub stopped: bool,
}

/// What `start` does to a session state: refused while running, otherwise
/// the cancel signal is armed. The second component tells whether the call
/// succeeded.
pub open spec fn start_transition(s: SessionState) -> (SessionState, bool) {
    if s.running {
        (s, false)
    } else {
        (SessionState { running: true, ..s }, true)
    }
}

/// What `pause` does: the cancel signal is taken and fired if present, so
/// the session is no longer running and `resume` is valid again.
pub open spec fn pause_transition(s: SessionState) -> SessionState {
    SessionState { running: false, ..s }
}

/// What `stop` does: pause, then the session becomes unusable.
pub open spec fn stop_transition(s: SessionState) -> SessionState {
    SessionState { running: false, stopped: true }
}

/// Of any number of concurrent `start` calls on one idle session, exactly
/// one succeeds: the lock serializes them into some order; the first
/// succeeds and leaves the session running, and on a running session every
/// further `start` fails and changes nothing, so each of the rest fails.
pub proof fn lemma_concurrent_starts_exclusive(s: SessionState, t: SessionState)
    requires
        !s.running,
        t.running,
    ensures
        start_transition(s).1,
        start_transition(s).0.running,
        !start_transition(t).1,
        start_transition(t).0 == t,
{
}

/// A session: the shared configuration, the control state, and the index of
/// the task a UI may highlight.
pub struct Session {
    pub config: DownloadConfig,
    pub state: SessionState,
    pub current_task_index: usize,
}

impl Session {
    /// A fresh, idle session around a configuration.
    pub fn new(config: DownloadConfig) -> (r: Session)
        ensures
            r.config == config,
            r.state == (SessionState { running: false, stopped: false }),
            r.current_task_index == 0,
    {
        Session {
            config,
            state: SessionState { running: false, stopped: false },
            current_task_index: 0,
        }
    }

    /// Try to begin a run: fails with `AlreadyRunning` while the session is
    /// running, otherwise arms the cancel signal.
    pub fn start(&mut self) -> (r: Result<(), DownloadError>)
        ensures
            final(self).state == start_transition(old(self).state).0,
            final(self).config == old(self).config,
            final(self).current_task_index == old(self).current_task_index,
            r is Ok <==> start_transition(old(self).state).1,
            old(self).state.running ==> r == Err::<(), DownloadError>(
                DownloadError::AlreadyRunning,
            ),
    {
        if self.state.running {
            Err(DownloadError::AlreadyRunning)
        } else {
            self.state.running = true;
            Ok(())
        }
    }

    /// The run loop has settled: the cancel signal is cleared.
    pub fn finish_run(&mut self)
        ensures
            final(self).state == pause_transition(old(self).state),
            final(self).config == old(self).config,
            final(self).current_task_index == old(self).current_task_index,
    {
        self.state.running = false;
    }

    /// Fire and clear the cancel signal. Returns whether a signal was fired,
    /// that is, whether the session had been running.
    pub fn pause(&mut self) -> (fired: bool)
        ensures
            final(self).state == pause_transition(old(self).state),
            final(self).config == old(self).config,
            final(self).current_task_index == old(self).current_task_index,
            fired == old(self).state.running,
    {
        let fired = self.state.running;
        self.state.running = false;
        fired
    }

    /// Pause and make the session unusable; its sinks are to be closed.
    pub fn stop(&mut self) -> (fired: bool)
        ensures
            final(self).state == stop_transition(old(self).state),
            final(self).config == old(self).config,
            final(self).current_task_index == old(self).current_task_index,
            fired == old(self).state.running,
    {
        let fired = self.state.running;
        self.state.running = false;
        self.state.stopped = true;
        fired
    }
}

// ---------------------------------------------------------------------------
// Event plans
// ---------------------------------------------------------------------------
/// An event together with its data payload, ready for a sink.
pub struct PlannedEvent {
    pub event: Event,
    pub data: Vec<(String, JsonValue)>,
}

/// The top-level `start` event of a run.
pub fn start_event(multiple: bool) -> (r: Event)
    ensures
        r.event_type == EventType::Start,
        r.name@ == if multiple {
            "开始批量下载"@
        } else {
            "开始下载"@
        },
        r.show_name@ == "全局"@,
        r.id@.len() == 0,
{
    Event {
        event_type: EventType::Start,
        name: if multiple {
            String::from_str("开始批量下载")
        } else {
            String::from_str("开始下载")
        },
        show_name: String::from_str("全局"),
        id: String::new(),
    }
}

/// The top-level `end` event of a run.
pub fn end_event(multiple: bool) -> (r: Event)
    ensures
        r.event_type == EventType::End,
        r.name@ == if multiple {
            "结束批量下载"@
        } else {
            "结束所有下载"@
        },
        r.show_name@ == "全局"@,
        r.id@.len() == 0,
{
    Event {
        event_type: EventType::End,
        name: if multiple {
            String::from_str("结束批量下载")
        } else {
            String::from_str("结束所有下载")
        },
        show_name: String::from_str("全局"),
        id: String::new(),
    }
}

/// The `msg` event of `pause`, with the text `"下载已暂停"` ("paused").
pub fn pause_message() -> (r: PlannedEvent)
    ensures
        r.event.event_type == EventType::Msg,
        r.event.name@ == "暂停"@,
        r.event.id@.len() == 0,
        r.data@.len() == 1,
        r.data@[0].0@ == "Text"@,
        r.data@[0].1 is Str && r.data@[0].1->Str_0@ == "下载已暂停"@,
{
    let mut data: Vec<(String, JsonValue)> = Vec::new();
    data.push((String::from_str("Text"), JsonValue::Str(String::from_str("下载已暂停"))));
    PlannedEvent {
        event: Event {
            event_type: EventType::Msg,
            name: String::from_str("暂停"),
            show_name: String::from_str("全局"),
            id: String::new(),
        },
        data,
    }
}

/// The `msg` event of `stop`, with the text `"下载已停止"` ("stopped").
pub fn stop_message() -> (r: PlannedEvent)
    ensures
        r.event.event_type == EventType::Msg,
        r.event.name@ == "停止"@,
        r.event.id@.len() == 0,
        r.data@.len() == 1,
        r.data@[0].0@ == "Text"@,
        r.data@[0].1 is Str && r.data@[0].1->Str_0@ == "下载已停止"@,
{
    let mut data: Vec<(String, JsonValue)> = Vec::new();
    data.push((String::from_str("Text"), JsonValue::Str(String::from_str("下载已停止"))));
    PlannedEvent {
        event: Event {
            event_type: EventType::Msg,
            name: String::from_str("停止"),
            show_name: String::from_str("全局"),
            id: String::new(),
        },
        data,
    }
}

/// The exact payload a `startOne` / `endOne` event carries on the wire:
/// the task's URL, save path and display name, its 1-based index, and the
/// task count.
pub open spec fn is_task_payload(
    data: Seq<(String, JsonValue)>,
    url: String,
    save_path: String,
    show_name: String,
    index: int,
    total: int,
) -> bool {
    &&& data.len() == 5
    &&& data[0].0@ == "URL"@ && data[0].1 == JsonValue::Str(url)
    &&& data[1].0@ == "SavePath"@ && data[1].1 == JsonValue::Str(save_path)
    &&& data[2].0@ == "ShowName"@ && data[2].1 == JsonValue::Str(show_name)
    &&& data[3].0@ == "Index"@ && data[3].1 == JsonValue::Num((index + 1) as u64)
    &&& data[4].0@ == "Total"@ && data[4].1 == JsonValue::Num(total as u64)
}

/// The payload every `startOne` / `endOne` event carries.
fn task_data(
    url: &String,
    save_path: &String,
    show_name: &String,
    index: usize,
    total: usize,
) -> (r: Vec<(String, JsonValue)>)
    requires
        index < total,
        total <= 0xFFFF_FFFF,
    ensures
        is_task_payload(r@, *url, *save_path, *show_name, index as int, total as int),
{
    let mut data: Vec<(String, JsonValue)> = Vec::new();
    data.push((String::from_str("URL"), JsonValue::Str(url.clone())));
    data.push((String::from_str("SavePath"), JsonValue::Str(save_path.clone())));
    data.push((String::from_str("ShowName"), JsonValue::Str(show_name.clone())));
    data.push((String::from_str("Index"), JsonValue::Num((index + 1) as u64)));
    data.push((String::from_str("Total"), JsonValue::Num(total as u64)));
    data
}

/// How many events of a type a plan holds.
pub open spec fn count_events(plan: Seq<PlannedEvent>, t: EventType) -> int
    decreases plan.len(),
{
    if plan.len() == 0 {
        0
    } else {
        count_events(plan.drop_last(), t) + if plan.last().event.event_type == t {
            1int
        } else {
            0int
        }
    }
}

/// The full event sequence of one task's life, in emission order: one
/// `startOne`, then — only when the task failed and the session was not
/// cancelled — one `err` carrying the error text, then one `endOne`.
pub fn task_event_plan(
    url: &String,
    save_path: &String,
    show_name: &String,
    id: &String,
    index: usize,
    total: usize,
    failure: Option<&DownloadError>,
    cancelled: bool,
) -> (plan: Vec<PlannedEvent>)
    requires
        index < total,
        total <= 0xFFFF_FFFF,
        failure matches Some(e) ==> e.wf(),
    ensures
        plan@.len() == (if failure is Some && !cancelled {
            3int
        } else {
            2int
        }),
        plan@[0].event.event_type == EventType::StartOne,
        plan@[plan@.len() - 1].event.event_type == EventType::EndOne,
        is_task_payload(
            plan@[0].data@,
            *url,
            *save_path,
            *show_name,
            index as int,
            total as int,
        ),
        is_task_payload(
            plan@[plan@.len() - 1].data@,
            *url,
            *save_path,
            *show_name,
            index as int,
            total as int,
        ),
        failure is Some && !cancelled ==> plan@[1].event.event_type == EventType::Error
            && plan@[1].data@.len() == 1 && plan@[1].data@[0].0@ == "Error"@
            && plan@[1].data@[0].1 is Str && plan@[1].data@[0].1->Str_0@
            == failure->Some_0.message_chars(),
        forall|i: int| 0 <= i < plan@.len() ==> (#[trigger] plan@[i]).event.id == *id,
        forall|i: int|
            0 <= i < plan@.len() ==> (#[trigger] plan@[i]).event.show_name == *show_name,
{
    let mut plan: Vec<PlannedEvent> = Vec::new();
    plan.push(
        PlannedEvent {
            event: Event {
                event_type: EventType::StartOne,
                name: String::from_str("开始一个下载"),
                show_name: show_name.clone(),
                id: id.clone(),
            },
            data: task_data(url, save_path, show_name, index, total),
        },
    );
    if let Some(e) = failure {
        if !cancelled {
            let mut err_data: Vec<(String, JsonValue)> = Vec::new();
            err_data.push((String::from_str("Error"), JsonValue::Str(e.message())));
            plan.push(
                PlannedEvent {
                    event: Event {
                        event_type: EventType::Error,
                        name: String::from_str("错误"),
                        show_name: show_name.clone(),
                        id: id.clone(),
                    },
                    data: err_data,
                },
            );
        }
    }
    plan.push(
        PlannedEvent {
            event: Event {
                event_type: EventType::EndOne,
                name: String::from_str("结束一个下载"),
                show_name: show_name.clone(),
                id: id.clone(),
            },
            data: task_data(url, save_path, show_name, index, total),
        },
    );
    plan
}

/// Event discipline per task: a plan shaped like `task_event_plan`'s output
/// carries exactly one `startOne` and one `endOne`, at most one `err`, and
/// the `err` — if present — precedes the `endOne`.
pub proof fn lemma_task_event_discipline(plan: Seq<PlannedEvent>)
    requires
        2 <= plan.len() <= 3,
        plan[0].event.event_type == EventType::StartOne,
        plan[plan.len() - 1].event.event_type == EventType::EndOne,
        plan.len() == 3 ==> plan[1].event.event_type == EventType::Error,
    ensures
        count_events(plan, EventType::StartOne) == 1,
        count_events(plan, EventType::EndOne) == 1,
        count_events(plan, EventType::Error) == if plan.len() == 3 {
            1int
        } else {
            0int
        },
        forall|i: int, j: int|
            0 <= i < plan.len() && 0 <= j < plan.len() && plan[i].event.event_type
                == EventType::Error && plan[j].event.event_type == EventType::EndOne ==> i < j,
{
    let e = Seq::<PlannedEvent>::empty();
    let s1 = seq![plan[0]];
    assert(s1.drop_last() =~= e);
    assert(count_events(e, EventType::StartOne) == 0);
    assert(count_events(e, EventType::EndOne) == 0);
    assert(count_events(e, EventType::Error) == 0);
    assert(count_events(s1, EventType::StartOne) == 1);
    assert(count_events(s1, EventType::EndOne) == 0);
    assert(count_events(s1, EventType::Error) == 0);
    if plan.len() == 2 {
        assert(plan.drop_last() =~= s1);
        assert(count_events(plan, EventType::StartOne) == 1);
        assert(count_events(plan, EventType::EndOne) == 1);
        assert(count_events(plan, EventType::Error) == 0);
    } else {
        let s2 = seq![plan[0], plan[1]];
        assert(s2.drop_last() =~= s1);
        assert(count_events(s2, EventType::StartOne) == 1);
        assert(count_events(s2, EventType::EndOne) == 0);
        assert(count_events(s2, EventType::Error) == 1);
        assert(plan.drop_last() =~= s2);
        assert(count_events(plan, EventType::StartOne) == 1);
        assert(count_events(plan, EventType::EndOne) == 1);
        assert(count_events(plan, EventType::Error) == 1);
    }
}

} // verus!
