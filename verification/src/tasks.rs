//! When a loop that runs tasks off a stream has come to its end.
//!
//! The loop takes whichever comes first, a new task or the end of a running
//! one. It may stop only when the stream has closed and nothing runs any more.

use vstd::prelude::*;

verus! {

/// What the loop hears of next.
#[derive(Clone, Copy, Debug, PartialEq, Eq, Structural)]
pub enum StreamEvent {
    /// The stream gave a task, which was started.
    Started,
    /// The stream has no more tasks to give.
    Closed,
    /// A running task has come to its end.
    Finished,
    /// There was no running task to wait for.
    Idle,
}

/// What comes to the loop: something from the stream of tasks, or from the tasks
/// that run.
pub enum Arrival<F> {
    /// What the stream gave: a task, or nothing because it has closed.
    Stream(Option<F>),
    /// What the running tasks gave: the end of one, or nothing because none runs.
    Running(Option<()>),
}

/// What the loop does next.
pub enum StreamAction<F> {
    /// Start the task, and go on.
    Start(F),
    /// Go on.
    Continue,
    /// Stop.
    Stop,
}

impl<F> Arrival<F> {
    /// What the loop hears by this.
    pub open spec fn event(self) -> StreamEvent {
        match self {
            Arrival::Stream(Some(_)) => StreamEvent::Started,
            Arrival::Stream(None) => StreamEvent::Closed,
            Arrival::Running(Some(_)) => StreamEvent::Finished,
            Arrival::Running(None) => StreamEvent::Idle,
        }
    }

    /// Whether this is a task that the stream gave.
    pub open spec fn is_task(self) -> bool {
        self matches Arrival::Stream(Some(_))
    }

    /// The task that the stream gave.
    pub open spec fn task(self) -> F {
        self->Stream_0->0
    }
}

/// What the loop has to remember.
#[derive(Clone, Copy, Debug, PartialEq, Eq, Structural)]
pub struct StreamedTasks {
    /// Whether the stream has closed.
    pub closed: bool,
    /// How many tasks run.
    pub running: usize,
}

impl StreamedTasks {
    /// Before the first event: the stream is open and nothing runs.
    pub fn new() -> (tasks: Self)
        ensures
            !tasks.closed,
            tasks.running == 0,
    {
        StreamedTasks { closed: false, running: 0 }
    }

    /// Whether the loop may stop.
    pub open spec fn done(self) -> bool {
        self.closed && self.running == 0
    }

    /// Whether `event` can come next: only a running task can finish, and the
    /// number of running tasks fits in a machine word.
    pub open spec fn possible(self, event: StreamEvent) -> bool {
        &&& event is Started ==> self.running < usize::MAX
        &&& event is Finished ==> self.running > 0
    }

    /// What the loop has to remember after `event`.
    pub open spec fn after(self, event: StreamEvent) -> StreamedTasks {
        match event {
            StreamEvent::Started => StreamedTasks { running: (self.running + 1) as usize, ..self },
            StreamEvent::Closed => StreamedTasks { closed: true, ..self },
            StreamEvent::Finished => StreamedTasks { running: (self.running - 1) as usize, ..self },
            StreamEvent::Idle => self,
        }
    }

    /// Takes note of `event`; the result is whether the loop stops.
    pub fn step(&mut self, event: StreamEvent) -> (stop: bool)
        requires
            old(self).possible(event),
        ensures
            *final(self) == old(self).after(event),
            stop == final(self).done(),
    {
        match event {
            StreamEvent::Started => {
                self.running = self.running + 1;
            },
            StreamEvent::Closed => {
                self.closed = true;
            },
            StreamEvent::Finished => {
                self.running = self.running - 1;
            },
            StreamEvent::Idle => {},
        }
        self.running == 0 && self.closed
    }

    /// What the loop does about `arrival`: it starts the task that the stream gave,
    /// or stops if it may, or goes on.
    pub open spec fn action<F>(self, arrival: Arrival<F>) -> StreamAction<F> {
        if arrival.is_task() {
            StreamAction::Start(arrival.task())
        } else if self.after(arrival.event()).done() {
            StreamAction::Stop
        } else {
            StreamAction::Continue
        }
    }

    /// Takes in `arrival`; the result is what the loop does about it.
    pub fn arrive<F>(&mut self, arrival: Arrival<F>) -> (action: StreamAction<F>)
        requires
            old(self).possible(arrival.event()),
        ensures
            *final(self) == old(self).after(arrival.event()),
            action == old(self).action(arrival),
    {
        let event = match &arrival {
            Arrival::Stream(Some(_)) => StreamEvent::Started,
            Arrival::Stream(None) => StreamEvent::Closed,
            Arrival::Running(Some(_)) => StreamEvent::Finished,
            Arrival::Running(None) => StreamEvent::Idle,
        };
        let stop = self.step(event);
        match arrival {
            Arrival::Stream(Some(task)) => StreamAction::Start(task),
            _ => if stop {
                StreamAction::Stop
            } else {
                StreamAction::Continue
            },
        }
    }

    /// What the loop has to remember after `events`.
    pub open spec fn after_events(self, events: Seq<StreamEvent>) -> StreamedTasks
        decreases events.len(),
    {
        if events.len() == 0 {
            self
        } else {
            self.after_events(events.drop_last()).after(events.last())
        }
    }

    /// Whether `events` can come one after the other.
    pub open spec fn possible_events(self, events: Seq<StreamEvent>) -> bool
        decreases events.len(),
    {
        events.len() > 0 ==> {
            &&& self.possible_events(events.drop_last())
            &&& self.after_events(events.drop_last()).possible(events.last())
        }
    }
}

/// How often `event` occurs among `events`.
pub open spec fn occurrences(events: Seq<StreamEvent>, event: StreamEvent) -> nat {
    events.filter(|e: StreamEvent| e == event).len()
}

/// The occurrences among `events` are those before the last, and the last.
proof fn lemma_occurrences_last(events: Seq<StreamEvent>, event: StreamEvent)
    requires
        events.len() > 0,
    ensures
        occurrences(events, event) == occurrences(events.drop_last(), event) + (if events.last()
            == event {
            1nat
        } else {
            0nat
        }),
{
    reveal(Seq::filter);
}

/// No task is lost: from its start, the loop counts as running exactly the tasks
/// that were started and have not finished, and knows that the stream has
/// closed exactly when it has.
pub proof fn law_running_tasks_are_counted(start: StreamedTasks, events: Seq<StreamEvent>)
    requires
        !start.closed,
        start.running == 0,
        start.possible_events(events),
    ensures
        start.after_events(events).running == occurrences(events, StreamEvent::Started)
            - occurrences(events, StreamEvent::Finished),
        start.after_events(events).closed <==> events.contains(StreamEvent::Closed),
    decreases events.len(),
{
    if events.len() > 0 {
        let earlier = events.drop_last();
        law_running_tasks_are_counted(start, earlier);
        lemma_occurrences_last(events, StreamEvent::Started);
        lemma_occurrences_last(events, StreamEvent::Finished);
        assert(events == earlier.push(events.last()));
        if earlier.contains(StreamEvent::Closed) {
            let i = choose|i: int| 0 <= i < earlier.len() && earlier[i] == StreamEvent::Closed;
            assert(events[i] == StreamEvent::Closed);
        }
        if events.last() == StreamEvent::Closed {
            assert(events[events.len() - 1] == StreamEvent::Closed);
        }
    } else {
        reveal(Seq::filter);
    }
}

/// The loop stops exactly when the stream has closed and every task that was
/// started has finished.
pub proof fn law_stops_when_all_is_done(start: StreamedTasks, events: Seq<StreamEvent>)
    requires
        !start.closed,
        start.running == 0,
        start.possible_events(events),
    ensures
        start.after_events(events).done() <==> {
            &&& events.contains(StreamEvent::Closed)
            &&& occurrences(events, StreamEvent::Started) == occurrences(
                events,
                StreamEvent::Finished,
            )
        },
{
    law_running_tasks_are_counted(start, events);
}

/// What the loop hears by `arrivals`, one after the other.
pub open spec fn events_of<F>(arrivals: Seq<Arrival<F>>) -> Seq<StreamEvent> {
    arrivals.map_values(|arrival: Arrival<F>| arrival.event())
}

/// The tasks that the stream gave, in order.
pub open spec fn given_tasks<F>(arrivals: Seq<Arrival<F>>) -> Seq<F> {
    arrivals.filter(|arrival: Arrival<F>| arrival.is_task()).map_values(
        |arrival: Arrival<F>| arrival.task(),
    )
}

/// The tasks that the loop starts on `arrivals`, in order.
pub open spec fn started_tasks<F>(start: StreamedTasks, arrivals: Seq<Arrival<F>>) -> Seq<F>
    decreases arrivals.len(),
{
    if arrivals.len() == 0 {
        seq![]
    } else {
        let earlier = arrivals.drop_last();
        match start.after_events(events_of(earlier)).action(arrivals.last()) {
            StreamAction::Start(task) => started_tasks(start, earlier).push(task),
            _ => started_tasks(start, earlier),
        }
    }
}

/// The loop starts the tasks that the stream gave: all of them, no others, in their
/// order and each once.
pub proof fn law_given_tasks_are_started<F>(start: StreamedTasks, arrivals: Seq<Arrival<F>>)
    ensures
        started_tasks(start, arrivals) == given_tasks(arrivals),
    decreases arrivals.len(),
{
    reveal(Seq::filter);
    if arrivals.len() == 0 {
        assert(started_tasks(start, arrivals) =~= given_tasks(arrivals));
    } else {
        law_given_tasks_are_started(start, arrivals.drop_last());
        assert(started_tasks(start, arrivals) =~= given_tasks(arrivals));
    }
}

/// The loop hears of as many starts as the stream gave tasks.
proof fn lemma_starts_are_given_tasks<F>(arrivals: Seq<Arrival<F>>)
    ensures
        occurrences(events_of(arrivals), StreamEvent::Started) == given_tasks(arrivals).len(),
    decreases arrivals.len(),
{
    reveal(Seq::filter);
    if arrivals.len() > 0 {
        lemma_starts_are_given_tasks(arrivals.drop_last());
        lemma_occurrences_last(events_of(arrivals), StreamEvent::Started);
        assert(events_of(arrivals).drop_last() == events_of(arrivals.drop_last()));
    }
}

/// When the loop stops, the stream has closed, and as many tasks have finished as
/// the stream gave.
pub proof fn law_stops_after_all_given_tasks<F>(
    start: StreamedTasks,
    arrivals: Seq<Arrival<F>>,
    last: Arrival<F>,
)
    requires
        !start.closed,
        start.running == 0,
        start.possible_events(events_of(arrivals.push(last))),
        start.after_events(events_of(arrivals)).action(last) is Stop,
    ensures
        events_of(arrivals.push(last)).contains(StreamEvent::Closed),
        occurrences(events_of(arrivals.push(last)), StreamEvent::Finished) == given_tasks(
            arrivals.push(last),
        ).len(),
{
    let all = arrivals.push(last);
    assert(events_of(all).drop_last() == events_of(arrivals));
    assert(events_of(all).last() == last.event());
    law_stops_when_all_is_done(start, events_of(all));
    lemma_starts_are_given_tasks(all);
}

/// Whatever runs and whatever came before, a task that the stream gives is started.
pub proof fn law_given_task_is_started<F>(tasks: StreamedTasks, task: F)
    ensures
        tasks.action(Arrival::Stream(Some(task))) == StreamAction::Start(task),
{
}

/// What comes to the loop is counted as what it is: one more task runs after the
/// stream gave one, one less after one has finished, and the stream has closed once
/// it gave nothing.
pub proof fn law_arrivals_are_counted<F>(tasks: StreamedTasks, task: F)
    ensures
        tasks.running < usize::MAX ==> {
            let after = tasks.after(Arrival::Stream(Some(task)).event());
            after.running == tasks.running + 1 && after.closed == tasks.closed
        },
        tasks.running > 0 ==> {
            let after = tasks.after(Arrival::<F>::Running(Some(())).event());
            after.running == tasks.running - 1 && after.closed == tasks.closed
        },
        ({
            let after = tasks.after(Arrival::<F>::Stream(None).event());
            after.running == tasks.running && after.closed
        }),
        tasks.after(Arrival::<F>::Running(None).event()) == tasks,
        tasks.running < usize::MAX ==> tasks.possible(Arrival::Stream(Some(task)).event()),
        tasks.running > 0 ==> tasks.possible(Arrival::<F>::Running(Some(())).event()),
        tasks.possible(Arrival::<F>::Stream(None).event()),
        tasks.possible(Arrival::<F>::Running(None).event()),
{
}

/// From any state, whatever comes that is not a task stops the loop exactly when it
/// leaves the stream closed and nothing running.
pub proof fn law_loop_stops_exactly_when_idle_and_closed<F>(
    tasks: StreamedTasks,
    arrival: Arrival<F>,
)
    requires
        !(arrival matches Arrival::Stream(Some(_))),
        (arrival matches Arrival::Running(Some(_))) ==> tasks.running > 0,
    ensures
        tasks.action(arrival) is Stop <==> {
            &&& tasks.closed || (arrival matches Arrival::Stream(None))
            &&& tasks.running == (match arrival {
                Arrival::Running(Some(_)) => 1int,
                _ => 0int,
            })
        },
        !(tasks.action(arrival) is Stop) ==> tasks.action(arrival) is Continue,
{
}

/// The tasks that were given and the tasks that have finished, told by what came.
proof fn lemma_arrivals_by_kind<F>(arrivals: Seq<Arrival<F>>)
    ensures
        arrivals.filter(|a: Arrival<F>| a matches Arrival::Stream(Some(_))).len() == occurrences(
            events_of(arrivals),
            StreamEvent::Started,
        ),
        arrivals.filter(|a: Arrival<F>| a matches Arrival::Running(Some(_))).len() == occurrences(
            events_of(arrivals),
            StreamEvent::Finished,
        ),
        events_of(arrivals).contains(StreamEvent::Closed) <==> exists|i: int|
            0 <= i < arrivals.len() && (#[trigger] arrivals[i] matches Arrival::Stream(None)),
    decreases arrivals.len(),
{
    reveal(Seq::filter);
    let events = events_of(arrivals);
    if arrivals.len() > 0 {
        let earlier = arrivals.drop_last();
        lemma_arrivals_by_kind(earlier);
        lemma_occurrences_last(events, StreamEvent::Started);
        lemma_occurrences_last(events, StreamEvent::Finished);
        assert(events.drop_last() == events_of(earlier));
    }
    if events.contains(StreamEvent::Closed) {
        let i = choose|i: int| 0 <= i < events.len() && events[i] == StreamEvent::Closed;
        assert(arrivals[i] matches Arrival::Stream(None));
    }
    if exists|i: int|
        0 <= i < arrivals.len() && (#[trigger] arrivals[i] matches Arrival::Stream(None)) {
        let i = choose|i: int|
            0 <= i < arrivals.len() && (#[trigger] arrivals[i] matches Arrival::Stream(None));
        assert(events[i] == StreamEvent::Closed);
    }
}

/// From its start, the loop stops on what comes last, if that is not a task, exactly
/// when the stream has closed and as many tasks have finished as the stream gave.
pub proof fn law_stops_exactly_after_all_given_tasks<F>(
    start: StreamedTasks,
    arrivals: Seq<Arrival<F>>,
    last: Arrival<F>,
)
    requires
        !start.closed,
        start.running == 0,
        start.possible_events(events_of(arrivals.push(last))),
        !(last matches Arrival::Stream(Some(_))),
    ensures
        start.after_events(events_of(arrivals)).action(last) is Stop <==> {
            let all = arrivals.push(last);
            &&& exists|i: int|
                0 <= i < all.len() && (#[trigger] all[i] matches Arrival::Stream(None))
            &&& all.filter(|a: Arrival<F>| a matches Arrival::Stream(Some(_))).len()
                == all.filter(|a: Arrival<F>| a matches Arrival::Running(Some(_))).len()
        },
{
    let all = arrivals.push(last);
    assert(events_of(all).drop_last() == events_of(arrivals));
    assert(events_of(all).last() == last.event());
    law_stops_when_all_is_done(start, events_of(all));
    lemma_arrivals_by_kind(all);
}

/// From its start, the loop starts what the stream gave, in order and each once, and
/// counts as running what was given and has not finished.
pub proof fn law_every_given_task_is_started_and_counted<F>(
    start: StreamedTasks,
    arrivals: Seq<Arrival<F>>,
)
    requires
        !start.closed,
        start.running == 0,
        start.possible_events(events_of(arrivals)),
    ensures
        started_tasks(start, arrivals) == arrivals.filter(
            |a: Arrival<F>| a matches Arrival::Stream(Some(_)),
        ).map_values(|a: Arrival<F>| a->Stream_0->0),
        start.after_events(events_of(arrivals)).running == arrivals.filter(
            |a: Arrival<F>| a matches Arrival::Stream(Some(_)),
        ).len() - arrivals.filter(|a: Arrival<F>| a matches Arrival::Running(Some(_))).len(),
{
    let p = |a: Arrival<F>| a matches Arrival::Stream(Some(_));
    let q = |a: Arrival<F>| a.is_task();
    assert(p =~= q);
    law_given_tasks_are_started(start, arrivals);
    assert(arrivals.filter(p).map_values(|a: Arrival<F>| a->Stream_0->0) =~= given_tasks(arrivals));
    law_running_tasks_are_counted(start, events_of(arrivals));
    lemma_arrivals_by_kind(arrivals);
}

} // verus!
