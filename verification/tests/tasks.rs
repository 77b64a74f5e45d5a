use shortcut_release_helper::tasks::{Arrival, StreamAction, StreamEvent, StreamedTasks};

fn stops(events: &[StreamEvent]) -> Vec<bool> {
    let mut tasks = StreamedTasks::new();
    events.iter().map(|event| tasks.step(*event)).collect()
}

#[test]
fn loop_stops_when_the_stream_closes_with_nothing_running() {
    assert_eq!(stops(&[StreamEvent::Idle, StreamEvent::Closed]), vec![false, true]);
}

#[test]
fn loop_goes_on_until_running_tasks_finish() {
    assert_eq!(
        stops(&[
            StreamEvent::Started,
            StreamEvent::Started,
            StreamEvent::Finished,
            StreamEvent::Closed,
            StreamEvent::Closed,
            StreamEvent::Finished,
        ]),
        vec![false, false, false, false, false, true]
    );
}

#[test]
fn loop_goes_on_while_the_stream_is_open() {
    assert_eq!(
        stops(&[StreamEvent::Started, StreamEvent::Finished, StreamEvent::Idle]),
        vec![false, false, false]
    );
}

#[test]
fn running_tasks_are_counted() {
    let mut tasks = StreamedTasks::new();
    tasks.step(StreamEvent::Started);
    tasks.step(StreamEvent::Started);
    tasks.step(StreamEvent::Finished);
    assert_eq!(tasks, StreamedTasks { closed: false, running: 1 });
}

#[test]
fn given_tasks_are_started_in_order() {
    let mut tasks = StreamedTasks::new();
    let mut started = Vec::new();
    let mut stopped_at = None;
    let arrivals = vec![
        Arrival::Running(None),
        Arrival::Stream(Some("a")),
        Arrival::Stream(Some("b")),
        Arrival::Running(Some(())),
        Arrival::Stream(Some("c")),
        Arrival::Stream(None),
        Arrival::Running(Some(())),
        Arrival::Running(Some(())),
    ];
    for (i, arrival) in arrivals.into_iter().enumerate() {
        match tasks.arrive(arrival) {
            StreamAction::Start(task) => started.push(task),
            StreamAction::Continue => {}
            StreamAction::Stop => stopped_at = Some(i),
        }
    }
    assert_eq!(started, vec!["a", "b", "c"]);
    assert_eq!(stopped_at, Some(7));
    assert_eq!(tasks, StreamedTasks { closed: true, running: 0 });
}

#[test]
fn task_given_after_the_close_is_started() {
    let mut tasks = StreamedTasks { closed: true, running: 0 };
    assert!(matches!(tasks.arrive(Arrival::Stream(Some("late"))), StreamAction::Start("late")));
    assert!(matches!(tasks.arrive(Arrival::Stream(None::<&str>)), StreamAction::Continue));
    assert!(matches!(tasks.arrive(Arrival::<&str>::Running(Some(()))), StreamAction::Stop));
}
