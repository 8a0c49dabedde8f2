//! The task registry: one task per outstanding request, each driven through
//! the bidding protocol once per tick.
//!
//! States, in the protocol's words: `New`; `DelayTake` (bidding: waiting out
//! the bid delay); `Take` (claim); `CabWatchdog` (watching another node's cab
//! call); `CompleteWatchdog` (watching a claimant); `CheckLocalComplete`
//! (waiting for the own car to serve it); `Complete` (done).
use vstd::prelude::*;

use crate::cost::{
    complete_delay, cost_function_delay_complete, cost_function_delay_take, cap_u64, take_delay,
};
use crate::elev_controller::{
    all_buttons, handle_order_spec, publish, remove_first, request_events, ElevController,
    ElevState,
};
use crate::types::{
    floor_index_valid, is_cab_call, ButtonEvent, Command, FloorSignal, Light, MotorDir, Order,
    RequestType, N_FLOORS,
};

verus! {

/// Period of the re-broadcast of another node's unserved cab call.
pub const CAB_REBROADCAST_MS: u64 = 10000;
/// How long a served cab call is kept, to absorb trailing duplicates.
pub const CAB_GRACE_MS: u64 = 5000;
/// Initial waiting time of a fresh task.
pub const INITIAL_WAIT_MS: u64 = 1000;

#[derive(Clone, Copy, Debug, PartialEq, Eq, Structural)]
pub enum States {
    New,
    DelayTake,
    Take,
    CabWatchdog,
    CompleteWatchdog,
    CheckLocalComplete,
    Complete,
}

/// A running deadline: it expires once more than `waiting_time` has passed
/// since `current_time`.
#[derive(Clone, Copy, Debug, PartialEq, Eq, Structural)]
pub struct CostFunctionDelay {
    pub current_time: u64,
    pub waiting_time: u64,
}

/// The registry's record of one request.
#[derive(Clone, Copy, Debug, PartialEq, Eq, Structural)]
pub struct Task {
    pub order: Order,
    pub state: States,
    /// Some node has announced a claim.
    pub taken: bool,
    /// Some car has served the request.
    pub complete: bool,
    /// When `complete` was first set.
    pub complete_time: u64,
    pub task_delay: CostFunctionDelay,
    /// The node that saw the button press (the owner, for a cab call).
    pub origin_id: u32,
}

/// The identity of a request: its order, and for a cab call its owner.
pub open spec fn request_key(order: Order, origin: u32) -> (Order, u32) {
    (order, if order.is_cab() { origin } else { 0 })
}

pub open spec fn key_of(t: Task) -> (Order, u32) {
    request_key(t.order, t.origin_id)
}

/// No two tasks stand for the same request.
pub open spec fn tasks_unique(ts: Seq<Task>) -> bool {
    forall|i: int, j: int|
        0 <= i < ts.len() && 0 <= j < ts.len() && i != j ==> key_of(#[trigger] ts[i]) != key_of(
            #[trigger] ts[j],
        )
}

pub open spec fn fresh_task(order: Order, origin: u32) -> Task {
    Task {
        order,
        state: States::New,
        taken: false,
        complete: false,
        complete_time: 0,
        task_delay: CostFunctionDelay { current_time: 0, waiting_time: INITIAL_WAIT_MS },
        origin_id: origin,
    }
}

/// The index of the task for the request, or `-1`.
pub open spec fn match_index(ts: Seq<Task>, order: Order, origin: u32) -> int
    decreases ts.len(),
{
    if ts.len() == 0 {
        -1
    } else if key_of(ts.last()) == request_key(order, origin) {
        ts.len() - 1
    } else {
        match_index(ts.drop_last(), order, origin)
    }
}

/// A `Request` event: a new task, or a fresh start for a task that is done.
pub open spec fn add_task_spec(ts: Seq<Task>, order: Order, origin: u32) -> Seq<Task> {
    let k = match_index(ts, order, origin);
    if !order.valid() {
        ts
    } else if k < 0 {
        ts.push(fresh_task(order, origin))
    } else if ts[k].state is Complete {
        ts.update(k, fresh_task(order, origin))
    } else {
        ts
    }
}

/// A `Taken` event: the claimed flag of the matching task is set.
pub open spec fn mark_taken(ts: Seq<Task>, order: Order, origin: u32) -> Seq<Task> {
    Seq::new(
        ts.len(),
        |i: int|
            if key_of(ts[i]) == request_key(order, origin) {
                Task { taken: true, ..ts[i] }
            } else {
                ts[i]
            },
    )
}

/// A `Complete` event: the fulfilled flag of the matching task is set; the
/// time is recorded the first time only.
pub open spec fn mark_complete(ts: Seq<Task>, order: Order, origin: u32, now: u64) -> Seq<Task> {
    Seq::new(
        ts.len(),
        |i: int|
            if key_of(ts[i]) == request_key(order, origin) && !ts[i].complete {
                Task { complete: true, complete_time: now, ..ts[i] }
            } else {
                ts[i]
            },
    )
}

/// More than `d` has passed from `since` to `now`.
pub open spec fn expired(since: u64, now: u64, d: u64) -> bool {
    now as int - since as int > d as int
}

/// What one task step produces: the task (none if it is removed), the drive
/// queue, and the commands issued.
pub struct StepResult {
    pub tasks: Seq<Task>,
    pub queue: Seq<Order>,
    pub commands: Seq<Command>,
}

pub open spec fn keep(t: Task, q: Seq<Order>, cmds: Seq<Command>) -> StepResult {
    StepResult { tasks: seq![t], queue: q, commands: cmds }
}

/// The command for the lamp of the button of `o`.
pub open spec fn button_light(o: Order, l: Light) -> Command {
    Command::ButtonLight(o.order_type, o.floor, l)
}

/// One step of the state machine of task `t`, on a node with drive queue `q`,
/// at floor `cf`, last resting floor `lf`, with id `id`, at time `now`.
pub open spec fn step_task(t: Task, q: Seq<Order>, cf: int, lf: int, id: u32, now: u64) -> StepResult {
    match t.state {
        States::New => {
            if t.origin_id != id && t.order.is_cab() {
                keep(
                    Task {
                        state: States::CabWatchdog,
                        task_delay: CostFunctionDelay { current_time: now, ..t.task_delay },
                        ..t
                    },
                    q,
                    seq![],
                )
            } else {
                keep(
                    Task {
                        state: States::DelayTake,
                        task_delay: CostFunctionDelay {
                            current_time: now,
                            waiting_time: cap_u64(take_delay(t.order, q, cf, lf, id)) as u64,
                        },
                        ..t
                    },
                    q,
                    seq![button_light(t.order, Light::On)],
                )
            }
        },
        States::DelayTake => {
            if t.taken {
                keep(
                    Task {
                        state: States::CompleteWatchdog,
                        task_delay: CostFunctionDelay {
                            current_time: now,
                            waiting_time: cap_u64(complete_delay(t.order, q, cf, lf, id)) as u64,
                        },
                        ..t
                    },
                    q,
                    seq![],
                )
            } else if expired(t.task_delay.current_time, now, t.task_delay.waiting_time) {
                keep(Task { state: States::Take, ..t }, q, seq![])
            } else {
                keep(t, q, seq![])
            }
        },
        States::CabWatchdog => {
            if t.complete {
                keep(Task { state: States::Complete, ..t }, q, seq![])
            } else if expired(t.task_delay.current_time, now, CAB_REBROADCAST_MS) {
                keep(
                    Task { task_delay: CostFunctionDelay { current_time: now, ..t.task_delay }, ..t },
                    q,
                    seq![publish(RequestType::Request, t.order, t.origin_id)],
                )
            } else {
                keep(t, q, seq![])
            }
        },
        States::Take => keep(
            Task { state: States::CheckLocalComplete, ..t },
            q.push(t.order),
            seq![publish(RequestType::Taken, t.order, id)],
        ),
        States::CompleteWatchdog => {
            if t.complete {
                keep(Task { state: States::Complete, ..t }, q, seq![])
            } else if expired(t.task_delay.current_time, now, t.task_delay.waiting_time) {
                keep(Task { state: States::Take, ..t }, q, seq![])
            } else {
                keep(t, q, seq![])
            }
        },
        States::CheckLocalComplete => {
            if t.complete {
                let q2 = if t.order.is_cab() { q } else { remove_first(q, t.order) };
                keep(Task { state: States::Complete, ..t }, q2, seq![])
            } else {
                keep(t, q, seq![])
            }
        },
        States::Complete => {
            let cmds = if !t.order.is_cab() || t.origin_id == id {
                seq![button_light(t.order, Light::Off)]
            } else {
                seq![]
            };
            if !t.order.is_cab() || expired(t.complete_time, now, CAB_GRACE_MS) {
                StepResult { tasks: seq![], queue: q, commands: cmds }
            } else {
                keep(t, q, cmds)
            }
        },
    }
}

/// The steps of all tasks of `ts`, in order, each seeing the drive queue
/// left by the ones before it.
pub open spec fn step_tasks(ts: Seq<Task>, q: Seq<Order>, cf: int, lf: int, id: u32, now: u64) -> StepResult
    decreases ts.len(),
{
    if ts.len() == 0 {
        StepResult { tasks: seq![], queue: q, commands: seq![] }
    } else {
        let before = step_tasks(ts.drop_last(), q, cf, lf, id, now);
        let last = step_task(ts.last(), before.queue, cf, lf, id, now);
        StepResult {
            tasks: before.tasks + last.tasks,
            queue: last.queue,
            commands: before.commands + last.commands,
        }
    }
}

/// The mathematical state of a `TaskManager`.
pub struct ManagerState {
    pub elevator: ElevState,
    pub tasks: Seq<Task>,
    pub id: u32,
}

impl ManagerState {
    pub open spec fn wf(self) -> bool {
        &&& self.elevator.wf()
        &&& self.elevator.id == self.id
        &&& tasks_unique(self.tasks)
        &&& forall|i: int| 0 <= i < self.tasks.len() ==> (#[trigger] self.tasks[i]).order.valid()
    }
}

/// The engine after its own part of a tick: the stop interlock (first, so
/// that a latched stop holds for the car step), the car step and the button
/// scan.
pub open spec fn engine_tick(
    e: ElevState,
    fs: FloorSignal,
    pressed: Seq<bool>,
    stop: bool,
    now: u64,
) -> ElevState {
    let e0 = if stop {
        ElevState { stopped: true, commands: e.commands.push(Command::Motor(MotorDir::Stop)), ..e }
    } else {
        e
    };
    let e1 = handle_order_spec(e0, fs, now);
    ElevState { commands: e1.commands + request_events(all_buttons(), pressed, e1.id), ..e1 }
}

/// One scheduling tick of a node.
pub open spec fn tick_spec(
    s: ManagerState,
    fs: FloorSignal,
    pressed: Seq<bool>,
    stop: bool,
    now: u64,
) -> ManagerState {
    let e = engine_tick(s.elevator, fs, pressed, stop, now);
    let r = step_tasks(s.tasks, e.queue, e.current_floor.index(), e.previous_floor.index(), s.id, now);
    ManagerState {
        elevator: ElevState { queue: r.queue, commands: e.commands + r.commands, ..e },
        tasks: r.tasks,
        id: s.id,
    }
}

/// The registry after an inbound event.
pub open spec fn message_spec(s: ManagerState, msg: ButtonEvent, now: u64) -> ManagerState {
    let ts = match msg.request {
        RequestType::Request => add_task_spec(s.tasks, msg.order, msg.origin),
        RequestType::Taken => mark_taken(s.tasks, msg.order, msg.origin),
        RequestType::Complete => mark_complete(s.tasks, msg.order, msg.origin, now),
    };
    ManagerState { tasks: ts, ..s }
}

pub open spec fn opt_seq(t: Option<Task>) -> Seq<Task> {
    match t {
        Some(u) => seq![u],
        None => seq![],
    }
}

/// The manager after task `t` has taken its step against the manager's
/// engine (the task list itself is left alone).
pub open spec fn step_applied(s: ManagerState, t: Task, cf: int, lf: int, now: u64) -> ManagerState {
    let r = step_task(t, s.elevator.queue, cf, lf, s.id, now);
    ManagerState {
        elevator: ElevState {
            queue: r.queue,
            commands: s.elevator.commands + r.commands,
            ..s.elevator
        },
        ..s
    }
}

pub(crate) proof fn lemma_match_index(ts: Seq<Task>, order: Order, origin: u32)
    ensures
        match_index(ts, order, origin) < 0 <==> forall|i: int|
            0 <= i < ts.len() ==> key_of(#[trigger] ts[i]) != request_key(order, origin),
        match_index(ts, order, origin) >= 0 ==> {
            let k = match_index(ts, order, origin);
            &&& k < ts.len()
            &&& key_of(ts[k]) == request_key(order, origin)
            &&& forall|i: int|
                k < i < ts.len() ==> key_of(#[trigger] ts[i]) != request_key(order, origin)
        },
    decreases ts.len(),
{
    if ts.len() > 0 {
        let init = ts.drop_last();
        lemma_match_index(init, order, origin);
        assert forall|i: int| 0 <= i < init.len() implies #[trigger] init[i] == ts[i] by {}
        if key_of(ts.last()) == request_key(order, origin) {
            assert(key_of(ts[ts.len() - 1]) == request_key(order, origin));
        } else {
            assert(ts.last() == ts[ts.len() - 1]);
            if match_index(init, order, origin) < 0 {
                assert forall|i: int|
                    0 <= i < ts.len() implies key_of(#[trigger] ts[i]) != request_key(order, origin) by {
                    if i < init.len() {
                        assert(init[i] == ts[i]);
                    }
                }
            } else {
                let k = match_index(init, order, origin);
                assert(init[k] == ts[k]);
                assert forall|i: int|
                    k < i < ts.len() implies key_of(#[trigger] ts[i]) != request_key(order, origin) by {
                    if i < init.len() {
                        assert(init[i] == ts[i]);
                    }
                }
            }
        }
    }
}

proof fn lemma_step_task_keeps_key(t: Task, q: Seq<Order>, cf: int, lf: int, id: u32, now: u64)
    ensures
        step_task(t, q, cf, lf, id, now).tasks.len() <= 1,
        !(t.state is Complete) ==> step_task(t, q, cf, lf, id, now).tasks.len() == 1,
        step_task(t, q, cf, lf, id, now).tasks.len() == 1 ==> {
            let u = step_task(t, q, cf, lf, id, now).tasks[0];
            u.order == t.order && u.origin_id == t.origin_id
        },
{
}

/// The tasks left after a tick are tasks of the same requests, each at most
/// once.
pub(crate) proof fn lemma_step_tasks_keys(ts: Seq<Task>, q: Seq<Order>, cf: int, lf: int, id: u32, now: u64)
    requires
        tasks_unique(ts),
    ensures
        tasks_unique(step_tasks(ts, q, cf, lf, id, now).tasks),
        forall|k: int|
            0 <= k < step_tasks(ts, q, cf, lf, id, now).tasks.len() ==> exists|j: int|
                0 <= j < ts.len() && (#[trigger] step_tasks(ts, q, cf, lf, id, now).tasks[k]).order
                    == ts[j].order && step_tasks(ts, q, cf, lf, id, now).tasks[k].origin_id
                    == ts[j].origin_id,
        forall|j: int|
            0 <= j < ts.len() && !(#[trigger] ts[j].state is Complete) ==> exists|k: int|
                0 <= k < step_tasks(ts, q, cf, lf, id, now).tasks.len() && key_of(
                    step_tasks(ts, q, cf, lf, id, now).tasks[k],
                ) == key_of(ts[j]),
    decreases ts.len(),
{
    if ts.len() > 0 {
        let init = ts.drop_last();
        assert forall|i: int, j: int|
            0 <= i < init.len() && 0 <= j < init.len() && i != j implies key_of(
            #[trigger] init[i],
        ) != key_of(#[trigger] init[j]) by {
            assert(init[i] == ts[i] && init[j] == ts[j]);
        }
        lemma_step_tasks_keys(init, q, cf, lf, id, now);
        let before = step_tasks(init, q, cf, lf, id, now);
        let last = step_task(ts.last(), before.queue, cf, lf, id, now);
        lemma_step_task_keeps_key(ts.last(), before.queue, cf, lf, id, now);
        let r = step_tasks(ts, q, cf, lf, id, now);
        assert(r.tasks == before.tasks + last.tasks);
        assert forall|k: int| 0 <= k < r.tasks.len() implies exists|j: int|
            0 <= j < ts.len() && (#[trigger] r.tasks[k]).order == ts[j].order && r.tasks[k].origin_id
                == ts[j].origin_id by {
            if k < before.tasks.len() {
                let j = choose|j: int|
                    0 <= j < init.len() && (#[trigger] before.tasks[k]).order == init[j].order
                        && before.tasks[k].origin_id == init[j].origin_id;
                assert(init[j] == ts[j]);
            } else {
                assert(r.tasks[k] == last.tasks[0]);
                assert(ts.last() == ts[ts.len() - 1]);
            }
        }
        assert forall|a: int, b: int|
            0 <= a < r.tasks.len() && 0 <= b < r.tasks.len() && a != b implies key_of(
            #[trigger] r.tasks[a],
        ) != key_of(#[trigger] r.tasks[b]) by {
            if a < before.tasks.len() && b < before.tasks.len() {
            } else if a >= before.tasks.len() && b >= before.tasks.len() {
            } else {
                let (x, y) = if a < before.tasks.len() { (a, b) } else { (b, a) };
                let j = choose|j: int|
                    0 <= j < init.len() && (#[trigger] before.tasks[x]).order == init[j].order
                        && before.tasks[x].origin_id == init[j].origin_id;
                assert(init[j] == ts[j]);
                assert(r.tasks[y] == last.tasks[0]);
                assert(ts.last() == ts[ts.len() - 1]);
            }
        }
        assert forall|j: int| 0 <= j < ts.len() && !(#[trigger] ts[j].state is Complete) implies exists|k: int|
            0 <= k < r.tasks.len() && key_of(r.tasks[k]) == key_of(ts[j]) by {
            if j < init.len() {
                assert(init[j] == ts[j]);
                let k = choose|k: int|
                    0 <= k < before.tasks.len() && key_of(before.tasks[k]) == key_of(init[j]);
                assert(r.tasks[k] == before.tasks[k]);
            } else {
                assert(ts.last() == ts[j]);
                assert(r.tasks[before.tasks.len() as int] == last.tasks[0]);
            }
        }
    }
}

impl Task {
    /// A task for a freshly seen request.
    pub fn new(order: Order, origin_id: u32) -> (r: Task)
        ensures
            r == fresh_task(order, origin_id),
    {
        Task {
            order,
            state: States::New,
            taken: false,
            complete: false,
            complete_time: 0,
            task_delay: CostFunctionDelay { current_time: 0, waiting_time: INITIAL_WAIT_MS },
            origin_id,
        }
    }
}

fn same_request(t: &Task, order: &Order, origin: u32) -> (r: bool)
    ensures
        r == (key_of(*t) == request_key(*order, origin)),
{
    t.order == *order && (!is_cab_call(order) || t.origin_id == origin)
}

fn expired_exec(since: u64, now: u64, d: u64) -> (r: bool)
    ensures
        r == expired(since, now, d),
{
    now >= since && now - since > d
}

pub struct TaskManager {
    elevator: ElevController,
    task_list: Vec<Task>,
    elevator_id: u32,
}

impl View for TaskManager {
    type V = ManagerState;

    closed spec fn view(&self) -> ManagerState {
        ManagerState { elevator: self.elevator@, tasks: self.task_list@, id: self.elevator_id }
    }
}

impl TaskManager {
    /// A registry with no tasks, driving a car resting at `floor`.
    pub fn new(elevator_id: u32, floor: FloorSignal, now: u64) -> (r: Self)
        requires
            floor.valid(),
        ensures
            r@.wf(),
            r@.id == elevator_id,
            r@.tasks == Seq::<Task>::empty(),
            r@.elevator.queue == Seq::<Order>::empty(),
            r@.elevator.current_floor == floor,
            r@.elevator.previous_floor == floor,
            r@.elevator.door.complete,
            r@.elevator.commands == Seq::<Command>::empty(),
    {
        let elevator = ElevController::new(elevator_id, floor, now);
        TaskManager { elevator, task_list: Vec::new(), elevator_id }
    }

    /// Handles a `Request` event.
    pub fn add_new_task(&mut self, order: Order, origin_id: u32)
        requires
            old(self)@.wf(),
        ensures
            final(self)@.wf(),
            final(self)@ == (ManagerState {
                tasks: add_task_spec(old(self)@.tasks, order, origin_id),
                ..old(self)@
            }),
    {
        proof {
            lemma_match_index(self.task_list@, order, origin_id);
        }
        if order.floor >= N_FLOORS {
            return;
        }
        let ghost ts = self.task_list@;
        let mut found: usize = self.task_list.len();
        let mut i: usize = 0;
        while i < self.task_list.len()
            invariant
                ts == self.task_list@,
                i <= ts.len(),
                found <= ts.len(),
                found == ts.len() ==> match_index(ts.subrange(0, i as int), order, origin_id) < 0,
                found < ts.len() ==> found as int == match_index(ts.subrange(0, i as int), order, origin_id),
            decreases ts.len() - i,
        {
            assert(ts.subrange(0, i + 1).drop_last() =~= ts.subrange(0, i as int));
            if same_request(&self.task_list[i], &order, origin_id) {
                found = i;
            }
            i = i + 1;
        }
        assert(ts.subrange(0, ts.len() as int) =~= ts);
        let new_task = Task::new(order, origin_id);
        if found == self.task_list.len() {
            self.task_list.push(new_task);
            assert forall|a: int, b: int|
                0 <= a < self.task_list@.len() && 0 <= b < self.task_list@.len() && a != b implies key_of(
                #[trigger] self.task_list@[a],
            ) != key_of(#[trigger] self.task_list@[b]) by {
                if a < ts.len() && b < ts.len() {
                    assert(self.task_list@[a] == ts[a] && self.task_list@[b] == ts[b]);
                } else if a < ts.len() {
                    assert(self.task_list@[a] == ts[a]);
                } else {
                    assert(self.task_list@[b] == ts[b]);
                }
            }
        } else if self.task_list[found].state == States::Complete {
            self.task_list.set(found, new_task);
            assert forall|a: int, b: int|
                0 <= a < self.task_list@.len() && 0 <= b < self.task_list@.len() && a != b implies key_of(
                #[trigger] self.task_list@[a],
            ) != key_of(#[trigger] self.task_list@[b]) by {
                if a != found && b != found {
                    assert(self.task_list@[a] == ts[a] && self.task_list@[b] == ts[b]);
                } else if a == found {
                    assert(self.task_list@[b] == ts[b]);
                    assert(key_of(ts[a]) == key_of(new_task));
                } else {
                    assert(self.task_list@[a] == ts[a]);
                    assert(key_of(ts[b]) == key_of(new_task));
                }
            }
        }
    }

    /// Handles a `Taken` event.
    pub fn set_task_taken(&mut self, order: Order, origin_id: u32)
        requires
            old(self)@.wf(),
        ensures
            final(self)@.wf(),
            final(self)@ == (ManagerState {
                tasks: mark_taken(old(self)@.tasks, order, origin_id),
                ..old(self)@
            }),
    {
        let ghost ts = self.task_list@;
        let mut i: usize = 0;
        while i < self.task_list.len()
            invariant
                ts.len() == self.task_list@.len(),
                i <= ts.len(),
                self.elevator == old(self).elevator,
                self.elevator_id == old(self).elevator_id,
                ts == old(self)@.tasks,
                forall|j: int| 0 <= j < i ==> #[trigger] self.task_list@[j] == mark_taken(ts, order, origin_id)[j],
                forall|j: int| i <= j < ts.len() ==> #[trigger] self.task_list@[j] == ts[j],
            decreases ts.len() - i,
        {
            let t = self.task_list[i];
            if same_request(&t, &order, origin_id) {
                self.task_list.set(i, Task { taken: true, ..t });
            }
            i = i + 1;
        }
        assert(self.task_list@ =~= mark_taken(ts, order, origin_id));
        assert forall|a: int, b: int|
            0 <= a < self.task_list@.len() && 0 <= b < self.task_list@.len() && a != b implies key_of(
            #[trigger] self.task_list@[a],
        ) != key_of(#[trigger] self.task_list@[b]) by {
            assert(key_of(self.task_list@[a]) == key_of(ts[a]));
            assert(key_of(self.task_list@[b]) == key_of(ts[b]));
        }
        assert forall|a: int| 0 <= a < self.task_list@.len() implies (#[trigger] self.task_list@[a]).order.valid() by {
            assert(self.task_list@[a].order == ts[a].order);
        }
    }

    /// Handles a `Complete` event received at time `now`.
    pub fn set_task_complete(&mut self, order: Order, origin_id: u32, now: u64)
        requires
            old(self)@.wf(),
        ensures
            final(self)@.wf(),
            final(self)@ == (ManagerState {
                tasks: mark_complete(old(self)@.tasks, order, origin_id, now),
                ..old(self)@
            }),
    {
        let ghost ts = self.task_list@;
        let mut i: usize = 0;
        while i < self.task_list.len()
            invariant
                ts.len() == self.task_list@.len(),
                i <= ts.len(),
                self.elevator == old(self).elevator,
                self.elevator_id == old(self).elevator_id,
                ts == old(self)@.tasks,
                forall|j: int| 0 <= j < i ==> #[trigger] self.task_list@[j] == mark_complete(ts, order, origin_id, now)[j],
                forall|j: int| i <= j < ts.len() ==> #[trigger] self.task_list@[j] == ts[j],
            decreases ts.len() - i,
        {
            let t = self.task_list[i];
            if same_request(&t, &order, origin_id) && !t.complete {
                self.task_list.set(i, Task { complete: true, complete_time: now, ..t });
            }
            i = i + 1;
        }
        assert(self.task_list@ =~= mark_complete(ts, order, origin_id, now));
        assert forall|a: int, b: int|
            0 <= a < self.task_list@.len() && 0 <= b < self.task_list@.len() && a != b implies key_of(
            #[trigger] self.task_list@[a],
        ) != key_of(#[trigger] self.task_list@[b]) by {
            assert(key_of(self.task_list@[a]) == key_of(ts[a]));
            assert(key_of(self.task_list@[b]) == key_of(ts[b]));
        }
        assert forall|a: int| 0 <= a < self.task_list@.len() implies (#[trigger] self.task_list@[a]).order.valid() by {
            assert(self.task_list@[a].order == ts[a].order);
        }
    }
}

impl TaskManager {
    /// Moves task `t` one step through its state machine, calling into the
    /// engine as the step demands. `None` when the task is to be removed.
    fn step_task(&mut self, t: Task, cf: isize, lf: isize, now: u64) -> (r: Option<Task>)
        requires
            t.order.valid(),
            floor_index_valid(cf as int),
            floor_index_valid(lf as int),
            old(self)@.elevator.id == old(self)@.id,
        ensures
            opt_seq(r) == step_task(t, old(self)@.elevator.queue, cf as int, lf as int, old(self)@.id, now).tasks,
            final(self)@ == step_applied(old(self)@, t, cf as int, lf as int, now),
    {
        let id = self.elevator_id;
        let ghost c0 = self@.elevator.commands;
        assert(c0 + seq![] =~= c0);
        assert forall|x: Command| c0.push(x) =~= #[trigger] (c0 + seq![x]) by {}
        match t.state {
            States::New => {
                if t.origin_id != id && is_cab_call(&t.order) {
                    Some(
                        Task {
                            state: States::CabWatchdog,
                            task_delay: CostFunctionDelay { current_time: now, ..t.task_delay },
                            ..t
                        },
                    )
                } else {
                    let q = self.elevator.get_order_list();
                    let w = cost_function_delay_take(&t.order, &q, cf, lf, id);
                    assert(w == cap_u64(take_delay(t.order, old(self)@.elevator.queue, cf as int, lf as int, id)) as u64);
                    self.elevator.set_button_light_for_order(&t.order.order_type, t.order.floor, Light::On);
                    Some(
                        Task {
                            state: States::DelayTake,
                            task_delay: CostFunctionDelay { current_time: now, waiting_time: w },
                            ..t
                        },
                    )
                }
            },
            States::DelayTake => {
                if t.taken {
                    let q = self.elevator.get_order_list();
                    let w = cost_function_delay_complete(&t.order, &q, cf, lf, id);
                    assert(w == cap_u64(complete_delay(t.order, old(self)@.elevator.queue, cf as int, lf as int, id)) as u64);
                    Some(
                        Task {
                            state: States::CompleteWatchdog,
                            task_delay: CostFunctionDelay { current_time: now, waiting_time: w },
                            ..t
                        },
                    )
                } else if expired_exec(t.task_delay.current_time, now, t.task_delay.waiting_time) {
                    Some(Task { state: States::Take, ..t })
                } else {
                    Some(t)
                }
            },
            States::CabWatchdog => {
                if t.complete {
                    Some(Task { state: States::Complete, ..t })
                } else if expired_exec(t.task_delay.current_time, now, CAB_REBROADCAST_MS) {
                    self.elevator.broadcast_order(t.order, RequestType::Request, t.origin_id);
                    Some(
                        Task {
                            task_delay: CostFunctionDelay { current_time: now, ..t.task_delay },
                            ..t
                        },
                    )
                } else {
                    Some(t)
                }
            },
            States::Take => {
                self.elevator.add_order(t.order);
                Some(Task { state: States::CheckLocalComplete, ..t })
            },
            States::CompleteWatchdog => {
                if t.complete {
                    Some(Task { state: States::Complete, ..t })
                } else if expired_exec(t.task_delay.current_time, now, t.task_delay.waiting_time) {
                    Some(Task { state: States::Take, ..t })
                } else {
                    Some(t)
                }
            },
            States::CheckLocalComplete => {
                if t.complete {
                    if !is_cab_call(&t.order) {
                        self.elevator.delete_order(&t.order);
                    }
                    Some(Task { state: States::Complete, ..t })
                } else {
                    Some(t)
                }
            },
            States::Complete => {
                if !is_cab_call(&t.order) || t.origin_id == id {
                    self.elevator.set_button_light_for_order(&t.order.order_type, t.order.floor, Light::Off);
                }
                if !is_cab_call(&t.order) || expired_exec(t.complete_time, now, CAB_GRACE_MS) {
                    None
                } else {
                    Some(t)
                }
            },
        }
    }

    /// One scheduling tick: the car step with the floor sensor reading `fs`,
    /// the button scan (`pressed[i]` is the signal of `button_orders()[i]`),
    /// the stop interlock, then one step of every task.
    pub fn run_state_machine(&mut self, fs: FloorSignal, pressed: &Vec<bool>, stop: bool, now: u64)
        requires
            old(self)@.wf(),
            fs.valid(),
            pressed@.len() == all_buttons().len(),
        ensures
            final(self)@.wf(),
            final(self)@ == tick_spec(old(self)@, fs, pressed@, stop, now),
    {
        self.elevator.handle_stop_signal(stop);
        self.elevator.handle_order(fs, now);
        self.elevator.broadcast_active_buttons(pressed);
        let cf = self.elevator.get_current_floor();
        let lf = self.elevator.get_previous_floor();
        let ghost e = self.elevator@;
        let ghost ts = self.task_list@;
        let ghost id = self.elevator_id;
        assert(e == engine_tick(old(self)@.elevator, fs, pressed@, stop, now));
        let mut next: Vec<Task> = Vec::new();
        let mut i: usize = 0;
        while i < self.task_list.len()
            invariant
                ts == self.task_list@,
                i <= ts.len(),
                id == self.elevator_id,
                id == old(self)@.id,
                e.wf(),
                e.id == id,
                cf as int == e.current_floor.index(),
                lf as int == e.previous_floor.index(),
                forall|j: int| 0 <= j < ts.len() ==> (#[trigger] ts[j]).order.valid(),
                next@ == step_tasks(ts.subrange(0, i as int), e.queue, cf as int, lf as int, id, now).tasks,
                self.elevator@ == (ElevState {
                    queue: step_tasks(ts.subrange(0, i as int), e.queue, cf as int, lf as int, id, now).queue,
                    commands: e.commands + step_tasks(ts.subrange(0, i as int), e.queue, cf as int, lf as int, id, now).commands,
                    ..e
                }),
            decreases ts.len() - i,
        {
            let t = self.task_list[i];
            let res = self.step_task(t, cf, lf, now);
            assert(ts.subrange(0, i + 1).drop_last() =~= ts.subrange(0, i as int));
            assert(ts.subrange(0, i + 1).last() == t);
            match res {
                Some(u) => {
                    next.push(u);
                },
                None => {},
            }
            assert(self.elevator@.commands =~= e.commands + step_tasks(ts.subrange(0, i + 1), e.queue, cf as int, lf as int, id, now).commands);
            i = i + 1;
        }
        assert(ts.subrange(0, ts.len() as int) =~= ts);
        self.task_list = next;
        proof {
            lemma_step_tasks_keys(ts, e.queue, cf as int, lf as int, id, now);
            let r = step_tasks(ts, e.queue, cf as int, lf as int, id, now);
            assert forall|k: int| 0 <= k < r.tasks.len() implies (#[trigger] r.tasks[k]).order.valid() by {
                let j = choose|j: int|
                    0 <= j < ts.len() && (#[trigger] r.tasks[k]).order == ts[j].order
                        && r.tasks[k].origin_id == ts[j].origin_id;
            }
        }
    }

    /// The number of live tasks.
    pub fn task_count(&self) -> (r: usize)
        ensures
            r == self@.tasks.len(),
    {
        self.task_list.len()
    }

    /// The task for a request (`origin_id` matters for a cab call only).
    pub fn find_task(&self, order: &Order, origin_id: u32) -> (r: Option<Task>)
        ensures
            match_index(self@.tasks, *order, origin_id) < 0 ==> r is None,
            match_index(self@.tasks, *order, origin_id) >= 0 ==> r == Some(
                self@.tasks[match_index(self@.tasks, *order, origin_id)],
            ),
    {
        proof {
            lemma_match_index(self@.tasks, *order, origin_id);
        }
        let ghost ts = self@.tasks;
        let mut i: usize = self.task_list.len();
        while i > 0
            invariant
                ts == self.task_list@,
                i <= ts.len(),
                forall|j: int| i <= j < ts.len() ==> key_of(#[trigger] ts[j]) != request_key(*order, origin_id),
            decreases i,
        {
            if same_request(&self.task_list[i - 1], order, origin_id) {
                proof {
                    lemma_match_index(ts, *order, origin_id);
                }
                return Some(self.task_list[i - 1]);
            }
            i = i - 1;
        }
        None
    }

    /// A copy of the live tasks.
    pub fn get_task_list(&self) -> (r: Vec<Task>)
        ensures
            r@ == self@.tasks,
    {
        let mut r: Vec<Task> = Vec::new();
        let mut i: usize = 0;
        while i < self.task_list.len()
            invariant
                i <= self.task_list@.len(),
                r@ == self.task_list@.subrange(0, i as int),
            decreases self.task_list@.len() - i,
        {
            r.push(self.task_list[i]);
            assert(r@ =~= self.task_list@.subrange(0, i + 1));
            i = i + 1;
        }
        assert(r@ =~= self.task_list@);
        r
    }

    /// The engine of this node.
    pub fn get_elevator(&self) -> (r: &ElevController)
        ensures
            r@ == self@.elevator,
    {
        &self.elevator
    }

    /// Hands over the commands issued so far, in order, and forgets them.
    pub fn take_commands(&mut self) -> (r: Vec<Command>)
        requires
            old(self)@.wf(),
        ensures
            r@ == old(self)@.elevator.commands,
            final(self)@ == (ManagerState {
                elevator: ElevState { commands: seq![], ..old(self)@.elevator },
                ..old(self)@
            }),
            final(self)@.wf(),
    {
        self.elevator.take_commands()
    }
}

/// Routes an inbound event (from the network or looped back) to the registry.
pub fn handle_network_message(task_mgr: &mut TaskManager, msg: ButtonEvent, now: u64)
    requires
        old(task_mgr)@.wf(),
    ensures
        final(task_mgr)@.wf(),
        final(task_mgr)@ == message_spec(old(task_mgr)@, msg, now),
{
    match msg.request {
        RequestType::Request => task_mgr.add_new_task(msg.order, msg.origin),
        RequestType::Taken => task_mgr.set_task_taken(msg.order, msg.origin),
        RequestType::Complete => task_mgr.set_task_complete(msg.order, msg.origin, now),
    }
}

} // verus!
