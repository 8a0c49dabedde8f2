//! What the protocol guarantees, stated over the models of the registry and
//! the engine and proved from them.
use vstd::prelude::*;

use crate::cost::{cap_u64, complete_delay, lemma_score_bounds, take_delay};
use crate::elev_controller::{
    all_buttons, completions_at, drive, handle_order_spec, lemma_completions_no_motion, no_motion,
    publish, remove_first, request_events, stops_at, ElevState,
};
use crate::task_manager::{
    add_task_spec, button_light, engine_tick, expired, request_key, fresh_task, key_of, lemma_match_index, lemma_step_tasks_keys,
    mark_complete, mark_taken, match_index, message_spec, step_task, step_tasks, tasks_unique,
    tick_spec,
    ManagerState, Task, CAB_REBROADCAST_MS,
};
use crate::types::{
    floor_index_valid, ButtonEvent, Command, FloorSignal, Light, MotorDir, Order, RequestType,
};

verus! {

proof fn lemma_add_task_unique(ts: Seq<Task>, order: Order, origin: u32)
    requires
        tasks_unique(ts),
    ensures
        tasks_unique(add_task_spec(ts, order, origin)),
{
    lemma_match_index(ts, order, origin);
    let r = add_task_spec(ts, order, origin);
    let k = match_index(ts, order, origin);
    assert forall|a: int, b: int|
        0 <= a < r.len() && 0 <= b < r.len() && a != b implies key_of(#[trigger] r[a]) != key_of(
        #[trigger] r[b],
    ) by {
        if order.valid() && k < 0 {
            if a < ts.len() && b < ts.len() {
                assert(r[a] == ts[a] && r[b] == ts[b]);
            } else if a < ts.len() {
                assert(r[a] == ts[a]);
            } else {
                assert(r[b] == ts[b]);
            }
        } else if order.valid() && ts[k].state is Complete {
            assert(key_of(fresh_task(order, origin)) == key_of(ts[k]));
            if a != k && b != k {
                assert(r[a] == ts[a] && r[b] == ts[b]);
            } else if a == k {
                assert(r[b] == ts[b]);
            } else {
                assert(r[a] == ts[a]);
            }
        }
    }
}

proof fn lemma_marks_keep_keys(ts: Seq<Task>, order: Order, origin: u32, now: u64)
    requires
        tasks_unique(ts),
    ensures
        tasks_unique(mark_taken(ts, order, origin)),
        tasks_unique(mark_complete(ts, order, origin, now)),
{
    let a1 = mark_taken(ts, order, origin);
    let a2 = mark_complete(ts, order, origin, now);
    assert forall|a: int, b: int|
        0 <= a < a1.len() && 0 <= b < a1.len() && a != b implies key_of(#[trigger] a1[a]) != key_of(
        #[trigger] a1[b],
    ) by {
        assert(key_of(a1[a]) == key_of(ts[a]) && key_of(a1[b]) == key_of(ts[b]));
    }
    assert forall|a: int, b: int|
        0 <= a < a2.len() && 0 <= b < a2.len() && a != b implies key_of(#[trigger] a2[a]) != key_of(
        #[trigger] a2[b],
    ) by {
        assert(key_of(a2[a]) == key_of(ts[a]) && key_of(a2[b]) == key_of(ts[b]));
    }
}

/// Uniqueness: whatever event arrives and whatever a tick does, the registry
/// keeps at most one task per request, that is per floor and button kind, and
/// for a cab call also per owning node. After a `Request` for a valid floor
/// there is a task for it (exactly one, by the above). A tick creates no task
/// and removes only tasks that were done.
pub proof fn lemma_one_task_per_request(
    s: ManagerState,
    msg: ButtonEvent,
    fs: FloorSignal,
    pressed: Seq<bool>,
    stop: bool,
    now: u64,
)
    requires
        tasks_unique(s.tasks),
    ensures
        tasks_unique(message_spec(s, msg, now).tasks),
        tasks_unique(tick_spec(s, fs, pressed, stop, now).tasks),
        forall|i: int, j: int|
            0 <= i < s.tasks.len() && 0 <= j < s.tasks.len() && key_of(#[trigger] s.tasks[i])
                == key_of(#[trigger] s.tasks[j]) ==> i == j,
        msg.request is Request && msg.order.valid() ==> exists|i: int|
            0 <= i < message_spec(s, msg, now).tasks.len() && key_of(
                #[trigger] message_spec(s, msg, now).tasks[i],
            ) == request_key(msg.order, msg.origin),
        forall|k: int|
            0 <= k < tick_spec(s, fs, pressed, stop, now).tasks.len() ==> exists|j: int|
                0 <= j < s.tasks.len() && key_of(#[trigger] tick_spec(s, fs, pressed, stop, now).tasks[k])
                    == key_of(s.tasks[j]),
        forall|j: int|
            0 <= j < s.tasks.len() && !(#[trigger] s.tasks[j].state is Complete) ==> exists|k: int|
                0 <= k < tick_spec(s, fs, pressed, stop, now).tasks.len() && key_of(
                    tick_spec(s, fs, pressed, stop, now).tasks[k],
                ) == key_of(s.tasks[j]),
{
    lemma_add_task_unique(s.tasks, msg.order, msg.origin);
    lemma_marks_keep_keys(s.tasks, msg.order, msg.origin, now);
    let en = engine_tick(s.elevator, fs, pressed, stop, now);
    lemma_step_tasks_keys(
        s.tasks,
        en.queue,
        en.current_floor.index(),
        en.previous_floor.index(),
        s.id,
        now,
    );
    let r = tick_spec(s, fs, pressed, stop, now).tasks;
    assert forall|k: int| 0 <= k < r.len() implies exists|j: int|
        0 <= j < s.tasks.len() && key_of(#[trigger] r[k]) == key_of(s.tasks[j]) by {
        let j = choose|j: int|
            0 <= j < s.tasks.len() && (#[trigger] r[k]).order == s.tasks[j].order
                && r[k].origin_id == s.tasks[j].origin_id;
    }
    if msg.request is Request && msg.order.valid() {
        lemma_match_index(s.tasks, msg.order, msg.origin);
        let k = match_index(s.tasks, msg.order, msg.origin);
        let ts = message_spec(s, msg, now).tasks;
        if k < 0 {
            assert(key_of(ts[s.tasks.len() as int]) == request_key(msg.order, msg.origin));
        } else {
            assert(key_of(ts[k]) == request_key(msg.order, msg.origin));
        }
    }
}

/// Idempotence: delivering the same event twice (at any two times) leaves the
/// registry exactly as delivering it once. This holds for `Taken` and
/// `Complete`, and also for `Request`.
pub proof fn lemma_duplicate_event_is_harmless(s: ManagerState, msg: ButtonEvent, t1: u64, t2: u64)
    ensures
        message_spec(message_spec(s, msg, t1), msg, t2) == message_spec(s, msg, t1),
{
    let ts = s.tasks;
    let order = msg.order;
    let origin = msg.origin;
    match msg.request {
        RequestType::Request => {
            lemma_match_index(ts, order, origin);
            let k = match_index(ts, order, origin);
            let once = add_task_spec(ts, order, origin);
            lemma_match_index(once, order, origin);
            let k2 = match_index(once, order, origin);
            if order.valid() {
                if k < 0 {
                    assert(once[ts.len() as int] == fresh_task(order, origin));
                    assert(k2 == ts.len());
                } else if ts[k].state is Complete {
                    assert(once[k] == fresh_task(order, origin));
                    assert(forall|i: int| k < i < once.len() ==> once[i] == ts[i]);
                    assert(k2 == k);
                }
            }
            assert(add_task_spec(once, order, origin) == once);
        },
        RequestType::Taken => {
            let once = mark_taken(ts, order, origin);
            assert(mark_taken(once, order, origin) =~= once);
        },
        RequestType::Complete => {
            let once = mark_complete(ts, order, origin, t1);
            assert(mark_complete(once, order, origin, t2) =~= once);
        },
    }
}

/// No silent drop: a node that sees another node's cab call starts to watch
/// it, and while it is not fulfilled keeps it, re-broadcasting the same
/// `Request` (with the owner as origin) each time the watchdog period runs
/// out.
pub proof fn lemma_remote_cab_call_reasserted(
    t: Task,
    q: Seq<Order>,
    cf: int,
    lf: int,
    id: u32,
    now: u64,
)
    requires
        t.order.is_cab(),
        t.origin_id != id,
        !t.complete,
        t.state is New || t.state is CabWatchdog,
    ensures
        ({
            let r = step_task(t, q, cf, lf, id, now);
            &&& r.tasks.len() == 1
            &&& r.tasks[0].state is CabWatchdog
            &&& r.tasks[0].order == t.order && r.tasks[0].origin_id == t.origin_id
            &&& r.queue == q
            &&& t.state is New ==> r.tasks[0].task_delay.current_time == now && r.commands.len() == 0
            &&& (t.state is CabWatchdog && expired(t.task_delay.current_time, now, CAB_REBROADCAST_MS))
                ==> r.commands == seq![publish(RequestType::Request, t.order, t.origin_id)]
                && r.tasks[0].task_delay.current_time == now
            &&& (t.state is CabWatchdog && !expired(
                t.task_delay.current_time,
                now,
                CAB_REBROADCAST_MS,
            )) ==> r.commands.len() == 0 && r.tasks[0] == t
        }),
{
}

proof fn lemma_no_motion_concat(a: Seq<Command>, b: Seq<Command>)
    requires
        no_motion(a),
        no_motion(b),
    ensures
        no_motion(a + b),
{
    assert forall|i: int| 0 <= i < (a + b).len() implies #[trigger] (a + b)[i] != Command::Motor(
        MotorDir::Up,
    ) && (a + b)[i] != Command::Motor(MotorDir::Down) by {
        if i < a.len() {
            assert((a + b)[i] == a[i]);
        } else {
            assert((a + b)[i] == b[i - a.len()]);
        }
    }
}

proof fn lemma_request_events_no_motion(buttons: Seq<Order>, pressed: Seq<bool>, id: u32)
    ensures
        no_motion(request_events(buttons, pressed, id)),
    decreases buttons.len(),
{
    if buttons.len() > 0 && pressed.len() >= buttons.len() {
        lemma_request_events_no_motion(buttons.drop_last(), pressed, id);
        let r = request_events(buttons, pressed, id);
        let rest = request_events(buttons.drop_last(), pressed, id);
        assert forall|i: int| 0 <= i < r.len() implies #[trigger] r[i] != Command::Motor(MotorDir::Up)
            && r[i] != Command::Motor(MotorDir::Down) by {
            if i < rest.len() {
                assert(r[i] == rest[i]);
            }
        }
    }
}

proof fn lemma_step_tasks_no_motion(ts: Seq<Task>, q: Seq<Order>, cf: int, lf: int, id: u32, now: u64)
    ensures
        no_motion(step_tasks(ts, q, cf, lf, id, now).commands),
    decreases ts.len(),
{
    if ts.len() > 0 {
        lemma_step_tasks_no_motion(ts.drop_last(), q, cf, lf, id, now);
        let before = step_tasks(ts.drop_last(), q, cf, lf, id, now);
        let last = step_task(ts.last(), before.queue, cf, lf, id, now);
        assert(no_motion(last.commands));
        lemma_no_motion_concat(before.commands, last.commands);
    }
}

/// The car step keeps the commands issued before it and adds none that sets
/// the motor moving while the interlock is latched or the door is held open.
proof fn lemma_handle_order_added(x: ElevState, fs: FloorSignal, now: u64)
    ensures
        handle_order_spec(x, fs, now).commands.len() >= x.commands.len(),
        handle_order_spec(x, fs, now).commands.subrange(0, x.commands.len() as int) == x.commands,
        x.stopped || x.door_held(now) ==> no_motion(
            handle_order_spec(x, fs, now).commands.skip(x.commands.len() as int),
        ),
{
    let r = handle_order_spec(x, fs, now);
    let n = x.commands.len() as int;
    let added: Seq<Command> = if !x.door.complete {
        if x.door_held(now) {
            seq![]
        } else {
            seq![Command::DoorLight(Light::Off)]
        }
    } else {
        match fs {
            FloorSignal::At(c) => {
                let y = ElevState { current_floor: fs, previous_floor: FloorSignal::At(c), ..x };
                if x.queue.len() == 0 {
                    seq![Command::FloorIndicator(c), Command::Motor(MotorDir::Stop)]
                } else if stops_at(x.queue, c) {
                    lemma_completions_no_motion(x.queue, c, x.id);
                    seq![
                        Command::FloorIndicator(c),
                        Command::Motor(MotorDir::Stop),
                        Command::DoorLight(Light::On),
                    ] + completions_at(x.queue, c, x.id)
                } else {
                    let dir = if c < x.queue[0].floor {
                        MotorDir::Up
                    } else {
                        MotorDir::Down
                    };
                    seq![Command::FloorIndicator(c), drive(y, dir)]
                }
            },
            FloorSignal::Between => {
                let y = ElevState { current_floor: fs, ..x };
                if x.queue.len() == 0 {
                    seq![drive(y, MotorDir::Down)]
                } else if x.previous_floor.index() > x.queue[0].floor as int {
                    seq![drive(y, MotorDir::Down)]
                } else if x.previous_floor.index() < x.queue[0].floor as int {
                    seq![drive(y, MotorDir::Up)]
                } else {
                    seq![]
                }
            },
        }
    };
    assert(r.commands =~= x.commands + added);
    assert(r.commands.subrange(0, n) =~= x.commands);
    assert(r.commands.skip(n) =~= added);
    if x.stopped || x.door_held(now) {
        if x.door.complete && fs is At && x.queue.len() > 0 && stops_at(x.queue, fs->0) {
            let c = fs->0;
            let comp = completions_at(x.queue, c, x.id);
            assert forall|i: int| 0 <= i < added.len() implies #[trigger] added[i] != Command::Motor(
                MotorDir::Up,
            ) && added[i] != Command::Motor(MotorDir::Down) by {
                if i >= 3 {
                    assert(added[i] == comp[i - 3]);
                }
            }
        }
    }
}

/// The commands of a tick follow those issued before it; when the interlock
/// is latched (or latches in this tick) or the door is held open, none of
/// them sets the motor moving.
proof fn lemma_tick_added(s: ManagerState, fs: FloorSignal, pressed: Seq<bool>, stop: bool, now: u64)
    requires
        s.elevator.stopped || stop || s.elevator.door_held(now),
    ensures
        ({
            let t = tick_spec(s, fs, pressed, stop, now).elevator.commands;
            let n = s.elevator.commands.len() as int;
            &&& t.len() >= n
            &&& t.subrange(0, n) == s.elevator.commands
            &&& no_motion(t.skip(n))
        }),
{
    let e = s.elevator;
    let n = e.commands.len() as int;
    let e0 = if stop {
        ElevState { stopped: true, commands: e.commands.push(Command::Motor(MotorDir::Stop)), ..e }
    } else {
        e
    };
    let pre: Seq<Command> = if stop {
        seq![Command::Motor(MotorDir::Stop)]
    } else {
        seq![]
    };
    assert(e0.commands =~= e.commands + pre);
    lemma_handle_order_added(e0, fs, now);
    let e1 = handle_order_spec(e0, fs, now);
    let h = e1.commands.skip(e0.commands.len() as int);
    assert(e1.commands =~= e0.commands + h);
    let req = request_events(all_buttons(), pressed, e1.id);
    lemma_request_events_no_motion(all_buttons(), pressed, e1.id);
    let en = engine_tick(e, fs, pressed, stop, now);
    let r = step_tasks(s.tasks, en.queue, en.current_floor.index(), en.previous_floor.index(), s.id, now);
    lemma_step_tasks_no_motion(s.tasks, en.queue, en.current_floor.index(), en.previous_floor.index(), s.id, now);
    let t = tick_spec(s, fs, pressed, stop, now).elevator.commands;
    assert(t =~= e.commands + (pre + h + req + r.commands));
    assert(t.subrange(0, n) =~= e.commands);
    assert(t.skip(n) =~= pre + h + req + r.commands);
    lemma_no_motion_concat(pre, h);
    lemma_no_motion_concat(pre + h, req);
    lemma_no_motion_concat(pre + h + req, r.commands);
}

/// Door dwell: while the door is open and its dwell has not run out, the car
/// step only records the floor reading: the door stays as it is, the queue
/// is left alone and nothing is commanded. A whole tick then leaves the door
/// as it is and sets the motor moving in no command, whatever the sensor, the
/// buttons, the events and the queue changes of that tick. A tick that opens
/// the door stamps it with the time of that tick, so the door stays open from
/// its opening for at least the dwell.
pub proof fn lemma_door_dwell(
    s: ManagerState,
    fs: FloorSignal,
    pressed: Seq<bool>,
    stop: bool,
    now: u64,
    msg: ButtonEvent,
)
    ensures
        s.elevator.door_held(now) ==> handle_order_spec(s.elevator, fs, now) == (ElevState {
            current_floor: fs,
            ..s.elevator
        }),
        s.elevator.door_held(now) ==> tick_spec(s, fs, pressed, stop, now).elevator.door
            == s.elevator.door,
        s.elevator.door_held(now) ==> no_motion(
            tick_spec(s, fs, pressed, stop, now).elevator.commands.skip(
                s.elevator.commands.len() as int,
            ),
        ),
        s.elevator.door.complete && !tick_spec(s, fs, pressed, stop, now).elevator.door.complete
            ==> tick_spec(s, fs, pressed, stop, now).elevator.door.timestamp_open == now,
        message_spec(s, msg, now).elevator == s.elevator,
{
    if s.elevator.door_held(now) {
        lemma_tick_added(s, fs, pressed, stop, now);
    }
}

/// Stop interlock: in a tick where the stop signal is asserted, the first
/// command is `Stop` and the flag is latched; in that tick and in every tick
/// while the flag is latched, no command sets the motor moving.
pub proof fn lemma_stop_interlock(
    s: ManagerState,
    fs: FloorSignal,
    pressed: Seq<bool>,
    stop: bool,
    now: u64,
)
    requires
        s.elevator.stopped || stop,
    ensures
        tick_spec(s, fs, pressed, stop, now).elevator.stopped,
        no_motion(
            tick_spec(s, fs, pressed, stop, now).elevator.commands.skip(
                s.elevator.commands.len() as int,
            ),
        ),
        stop ==> tick_spec(s, fs, pressed, stop, now).elevator.commands[s.elevator.commands.len() as int]
            == Command::Motor(MotorDir::Stop),
{
    lemma_tick_added(s, fs, pressed, stop, now);
    if stop {
        let e0 = ElevState {
            stopped: true,
            commands: s.elevator.commands.push(Command::Motor(MotorDir::Stop)),
            ..s.elevator
        };
        lemma_handle_order_added(e0, fs, now);
        let e1 = handle_order_spec(e0, fs, now);
        assert(e1.commands[s.elevator.commands.len() as int] == e1.commands.subrange(
            0,
            e0.commands.len() as int,
        )[s.elevator.commands.len() as int]);
    }
}

/// Service, protocol side: a hall request that a node sees with no claim from
/// elsewhere is claimed by that node at its first step after the bid delay has
/// run out, which appends the order to the node's drive queue and announces
/// the claim. Once the order is reported fulfilled, the next step marks the
/// task done and the one after removes it. (That the car reaches the floor is
/// up to the engine and the physics.)
pub proof fn lemma_hall_request_lifecycle(
    order: Order,
    origin: u32,
    q: Seq<Order>,
    cf: int,
    lf: int,
    id: u32,
    n0: u64,
    n1: u64,
    n2: u64,
    n3: u64,
    n4: u64,
    n5: u64,
)
    requires
        !order.is_cab(),
        order.valid(),
        floor_index_valid(lf),
        n1 as int - n0 as int > cap_u64(take_delay(order, q, cf, lf, id)),
    ensures
        ({
            let r0 = step_task(fresh_task(order, origin), q, cf, lf, id, n0);
            let r1 = step_task(r0.tasks[0], r0.queue, cf, lf, id, n1);
            let r2 = step_task(r1.tasks[0], r1.queue, cf, lf, id, n2);
            let served = mark_complete(r2.tasks, order, origin, n3);
            let r3 = step_task(served[0], r2.queue, cf, lf, id, n4);
            let r4 = step_task(r3.tasks[0], r3.queue, cf, lf, id, n5);
            &&& r0.tasks.len() == 1 && r0.tasks[0].state is DelayTake
            &&& r0.commands == seq![button_light(order, Light::On)]
            &&& r1.tasks.len() == 1 && r1.tasks[0].state is Take
            &&& r2.tasks.len() == 1 && r2.tasks[0].state is CheckLocalComplete
            &&& r2.queue == q.push(order)
            &&& r2.commands == seq![publish(RequestType::Taken, order, id)]
            &&& r3.tasks.len() == 1 && r3.tasks[0].state is Complete
            &&& r3.queue == remove_first(q.push(order), order)
            &&& r4.tasks.len() == 0
            &&& r4.commands == seq![button_light(order, Light::Off)]
        }),
{
    let r0 = step_task(fresh_task(order, origin), q, cf, lf, id, n0);
    if q.len() > 0 {
        lemma_score_bounds(order, q[0], cf, lf);
    }
    assert(r0.tasks[0].task_delay.waiting_time as int == cap_u64(take_delay(order, q, cf, lf, id)));
    let r1 = step_task(r0.tasks[0], r0.queue, cf, lf, id, n1);
    let r2 = step_task(r1.tasks[0], r1.queue, cf, lf, id, n2);
    let served = mark_complete(r2.tasks, order, origin, n3);
    assert(served[0] == Task { complete: true, complete_time: n3, ..r2.tasks[0] });
}

/// Service, takeover: a node that saw another node claim a request watches
/// it; if it is not reported fulfilled before the completion delay runs out,
/// the watcher claims it itself and appends it to its own drive queue.
pub proof fn lemma_stalled_claim_taken_over(
    t: Task,
    q: Seq<Order>,
    cf: int,
    lf: int,
    id: u32,
    n0: u64,
    n1: u64,
    n2: u64,
)
    requires
        t.state is DelayTake,
        t.taken,
        !t.complete,
        t.order.valid(),
        floor_index_valid(lf),
        n1 as int - n0 as int > cap_u64(complete_delay(t.order, q, cf, lf, id)),
    ensures
        ({
            let r0 = step_task(t, q, cf, lf, id, n0);
            let r1 = step_task(r0.tasks[0], r0.queue, cf, lf, id, n1);
            let r2 = step_task(r1.tasks[0], r1.queue, cf, lf, id, n2);
            &&& r0.tasks.len() == 1 && r0.tasks[0].state is CompleteWatchdog
            &&& r0.tasks[0].task_delay.current_time == n0
            &&& r0.queue == q
            &&& r0.commands.len() == 0
            &&& r1.tasks.len() == 1 && r1.tasks[0].state is Take
            &&& r2.tasks.len() == 1 && r2.tasks[0].state is CheckLocalComplete
            &&& r2.queue == q.push(t.order)
        }),
{
    let r0 = step_task(t, q, cf, lf, id, n0);
    if q.len() > 0 {
        lemma_score_bounds(t.order, q[0], cf, lf);
    }
    assert(r0.tasks[0].task_delay.waiting_time as int == cap_u64(complete_delay(t.order, q, cf, lf, id)));
}

} // verus!
