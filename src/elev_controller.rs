//! The order execution engine of one node: it owns the drive queue, decides
//! the motor direction, times the door, and completes every order at the
//! floor where the car stops. It never touches hardware itself; it records
//! the effects as `Command`s, which the caller carries out in order.
use vstd::prelude::*;

use crate::types::{
    floor_index, is_cab_call, ButtonEvent, ButtonType, Command, FloorSignal, Light, MotorDir, Order,
    RequestType, N_FLOORS,
};

verus! {

/// How long the door stays open once opened (milliseconds).
pub const DOOR_DWELL_MS: u64 = 3000;

#[derive(Clone, Copy, Debug, PartialEq, Eq, Structural)]
pub struct DoorState {
    /// When the door was last opened.
    pub timestamp_open: u64,
    /// The door has been closed again after its dwell.
    pub complete: bool,
}

/// The mathematical state of an `ElevController`.
pub struct ElevState {
    pub queue: Seq<Order>,
    pub door: DoorState,
    pub previous_floor: FloorSignal,
    pub current_floor: FloorSignal,
    pub id: u32,
    pub stopped: bool,
    /// Every command issued and not yet taken by the caller.
    pub commands: Seq<Command>,
}

pub struct ElevController {
    queue: Vec<Order>,
    door_state: DoorState,
    previous_floor: FloorSignal,
    current_floor: FloorSignal,
    elevator_id: u32,
    stopped: bool,
    commands: Vec<Command>,
}

impl View for ElevController {
    type V = ElevState;

    closed spec fn view(&self) -> ElevState {
        ElevState {
            queue: self.queue@,
            door: self.door_state,
            previous_floor: self.previous_floor,
            current_floor: self.current_floor,
            id: self.elevator_id,
            stopped: self.stopped,
            commands: self.commands@,
        }
    }
}

impl ElevState {
    pub open spec fn wf(self) -> bool {
        self.current_floor.valid() && self.previous_floor.valid()
    }

    /// The door is open and its dwell has not run out at time `now`.
    pub open spec fn door_held(self, now: u64) -> bool {
        !self.door.complete && now as int - self.door.timestamp_open as int <= DOOR_DWELL_MS as int
    }
}

/// The event that publishes `order` with the verb `request`.
pub open spec fn publish(request: RequestType, order: Order, origin: u32) -> Command {
    Command::Publish(ButtonEvent { request, order, origin })
}

/// The orders of `q` that are not at floor `c`, in queue order.
pub open spec fn orders_not_at(q: Seq<Order>, c: u8) -> Seq<Order>
    decreases q.len(),
{
    if q.len() == 0 {
        q
    } else {
        let rest = orders_not_at(q.drop_last(), c);
        if q.last().floor == c {
            rest
        } else {
            rest.push(q.last())
        }
    }
}

/// A `Complete` event for every order of `q` at floor `c`, in queue order.
pub open spec fn completions_at(q: Seq<Order>, c: u8, id: u32) -> Seq<Command>
    decreases q.len(),
{
    if q.len() == 0 {
        seq![]
    } else {
        let rest = completions_at(q.drop_last(), c, id);
        if q.last().floor == c {
            rest.push(publish(RequestType::Complete, q.last(), id))
        } else {
            rest
        }
    }
}

pub open spec fn has_cab_at(q: Seq<Order>, c: u8) -> bool {
    exists|i: int| 0 <= i < q.len() && (#[trigger] q[i]).floor == c && q[i].is_cab()
}

/// The car stops at floor `c`: it has arrived at the head order, or it passes
/// a cab call of its own.
pub open spec fn stops_at(q: Seq<Order>, c: u8) -> bool {
    q.len() > 0 && (q[0].floor == c || has_cab_at(q, c))
}

/// The motor command that drives the car in direction `dir`; only `Stop`
/// while the stop interlock is latched.
pub open spec fn drive(s: ElevState, dir: MotorDir) -> Command {
    if s.stopped {
        Command::Motor(MotorDir::Stop)
    } else {
        Command::Motor(dir)
    }
}

/// No command of `cmds` sets the motor moving.
pub open spec fn no_motion(cmds: Seq<Command>) -> bool {
    forall|i: int|
        0 <= i < cmds.len() ==> #[trigger] cmds[i] != Command::Motor(MotorDir::Up) && cmds[i]
            != Command::Motor(MotorDir::Down)
}

/// Completion events set no motor moving.
pub proof fn lemma_completions_no_motion(q: Seq<Order>, c: u8, id: u32)
    ensures
        no_motion(completions_at(q, c, id)),
    decreases q.len(),
{
    if q.len() > 0 {
        lemma_completions_no_motion(q.drop_last(), c, id);
        let r = completions_at(q, c, id);
        let rest = completions_at(q.drop_last(), c, id);
        assert forall|i: int| 0 <= i < r.len() implies #[trigger] r[i] != Command::Motor(MotorDir::Up)
            && r[i] != Command::Motor(MotorDir::Down) by {
            if i < rest.len() {
                assert(r[i] == rest[i]);
            }
        }
    }
}

/// One tick of the engine, given the floor sensor and the time. An open door
/// is handled first: it is kept open during its dwell, then closed, and only
/// a tick that finds it closed reads the floor and moves the car.
pub open spec fn handle_order_spec(s: ElevState, fs: FloorSignal, now: u64) -> ElevState {
    let s = ElevState { current_floor: fs, ..s };
    if !s.door.complete {
        if s.door_held(now) {
            s
        } else {
            ElevState {
                door: DoorState { complete: true, ..s.door },
                commands: s.commands.push(Command::DoorLight(Light::Off)),
                ..s
            }
        }
    } else {
        match fs {
            FloorSignal::At(c) => {
                let cmds = s.commands.push(Command::FloorIndicator(c));
                let s = ElevState { previous_floor: FloorSignal::At(c), ..s };
                if s.queue.len() == 0 {
                    ElevState { commands: cmds.push(Command::Motor(MotorDir::Stop)), ..s }
                } else if stops_at(s.queue, c) {
                    ElevState {
                        queue: orders_not_at(s.queue, c),
                        door: DoorState { timestamp_open: now, complete: false },
                        commands: cmds.push(Command::Motor(MotorDir::Stop)).push(
                            Command::DoorLight(Light::On),
                        ) + completions_at(s.queue, c, s.id),
                        ..s
                    }
                } else {
                    let dir = if c < s.queue[0].floor {
                        MotorDir::Up
                    } else {
                        MotorDir::Down
                    };
                    ElevState { commands: cmds.push(drive(s, dir)), ..s }
                }
            },
            FloorSignal::Between => {
                if s.queue.len() == 0 {
                    ElevState { commands: s.commands.push(drive(s, MotorDir::Down)), ..s }
                } else {
                    let p = s.previous_floor.index();
                    let target = s.queue[0].floor as int;
                    if p > target {
                        ElevState { commands: s.commands.push(drive(s, MotorDir::Down)), ..s }
                    } else if p < target {
                        ElevState { commands: s.commands.push(drive(s, MotorDir::Up)), ..s }
                    } else {
                        s
                    }
                }
            },
        }
    }
}

/// The buttons of one floor, in scan order: cab, hall up (not at the top),
/// hall down (not at the bottom).
pub open spec fn floor_buttons(f: u8) -> Seq<Order> {
    let cab = seq![Order { floor: f, order_type: ButtonType::CabCall }];
    let up = if f != N_FLOORS - 1 {
        seq![Order { floor: f, order_type: ButtonType::HallUpCall }]
    } else {
        seq![]
    };
    let down = if f != 0 {
        seq![Order { floor: f, order_type: ButtonType::HallDownCall }]
    } else {
        seq![]
    };
    cab + up + down
}

/// The buttons of floors `0..n`, in scan order.
pub open spec fn buttons_below(n: nat) -> Seq<Order>
    decreases n,
{
    if n == 0 {
        seq![]
    } else {
        buttons_below((n - 1) as nat) + floor_buttons((n - 1) as u8)
    }
}

/// Every physical button, in scan order.
pub open spec fn all_buttons() -> Seq<Order> {
    buttons_below(N_FLOORS as nat)
}

/// A `Request` event for each button of `buttons` whose signal is high.
pub open spec fn request_events(buttons: Seq<Order>, pressed: Seq<bool>, id: u32) -> Seq<Command>
    decreases buttons.len(),
{
    if buttons.len() == 0 || pressed.len() < buttons.len() {
        seq![]
    } else {
        let n = buttons.len() - 1;
        let rest = request_events(buttons.drop_last(), pressed, id);
        if pressed[n] {
            rest.push(publish(RequestType::Request, buttons[n], id))
        } else {
            rest
        }
    }
}

/// `q` without its first entry equal to `o` (unchanged if there is none).
pub open spec fn remove_first(q: Seq<Order>, o: Order) -> Seq<Order>
    decreases q.len(),
{
    if q.len() == 0 {
        q
    } else if q[0] == o {
        q.subrange(1, q.len() as int)
    } else {
        seq![q[0]] + remove_first(q.subrange(1, q.len() as int), o)
    }
}

proof fn lemma_remove_first(q: Seq<Order>, o: Order, i: int)
    requires
        0 <= i <= q.len(),
        forall|j: int| 0 <= j < i ==> q[j] != o,
        i < q.len() ==> q[i] == o,
    ensures
        i < q.len() ==> remove_first(q, o) == q.remove(i),
        i == q.len() ==> remove_first(q, o) == q,
    decreases i,
{
    if q.len() == 0 {
    } else if i == 0 {
        assert(q.subrange(1, q.len() as int) =~= q.remove(0));
    } else {
        let tail = q.subrange(1, q.len() as int);
        lemma_remove_first(tail, o, i - 1);
        if i < q.len() {
            assert(seq![q[0]] + tail.remove(i - 1) =~= q.remove(i));
        } else {
            assert(seq![q[0]] + tail =~= q);
        }
    }
}

/// The list of buttons to read each tick, in the order that
/// `broadcast_active_buttons` expects their signals.
pub fn button_orders() -> (r: Vec<Order>)
    ensures
        r@ == all_buttons(),
        forall|i: int| 0 <= i < r@.len() ==> (#[trigger] r@[i]).valid(),
{
    let mut r: Vec<Order> = Vec::new();
    let mut f: u8 = 0;
    while f < N_FLOORS
        invariant
            f <= N_FLOORS,
            r@ == buttons_below(f as nat),
            forall|i: int| 0 <= i < r@.len() ==> (#[trigger] r@[i]).floor < f,
        decreases N_FLOORS - f,
    {
        r.push(Order { floor: f, order_type: ButtonType::CabCall });
        if f != N_FLOORS - 1 {
            r.push(Order { floor: f, order_type: ButtonType::HallUpCall });
        }
        if f != 0 {
            r.push(Order { floor: f, order_type: ButtonType::HallDownCall });
        }
        assert(r@ =~= buttons_below(f as nat) + floor_buttons(f));
        f = f + 1;
    }
    r
}

/// The motor command while the car looks for a floor at start-up: down until
/// the sensor reports a floor, then stop.
pub fn init_direction(fs: FloorSignal) -> (r: MotorDir)
    ensures
        fs is At ==> r == MotorDir::Stop,
        fs is Between ==> r == MotorDir::Down,
{
    match fs {
        FloorSignal::At(_) => MotorDir::Stop,
        FloorSignal::Between => MotorDir::Down,
    }
}

impl ElevController {
    /// An engine with an empty queue and a closed door, for a car resting
    /// at `floor` (as found by the start-up search) at time `now`.
    pub fn new(elevator_id: u32, floor: FloorSignal, now: u64) -> (r: Self)
        requires
            floor.valid(),
        ensures
            r@ == (ElevState {
                queue: seq![],
                door: DoorState { timestamp_open: now, complete: true },
                previous_floor: floor,
                current_floor: floor,
                id: elevator_id,
                stopped: false,
                commands: seq![],
            }),
    {
        ElevController {
            queue: Vec::new(),
            door_state: DoorState { timestamp_open: now, complete: true },
            previous_floor: floor,
            current_floor: floor,
            elevator_id,
            stopped: false,
            commands: Vec::new(),
        }
    }

    /// Advances the car by one tick: door timing, direction, arrival.
    pub fn handle_order(&mut self, fs: FloorSignal, now: u64)
        requires
            old(self)@.wf(),
            fs.valid(),
        ensures
            final(self)@ == handle_order_spec(old(self)@, fs, now),
            final(self)@.wf(),
            old(self)@.stopped ==> no_motion(final(self)@.commands.skip(old(self)@.commands.len() as int)),
            old(self)@.door_held(now) ==> final(self)@ == (ElevState { current_floor: fs, ..old(self)@ }),
    {
        self.current_floor = fs;
        if !self.door_state.complete {
            if now >= self.door_state.timestamp_open && now - self.door_state.timestamp_open
                > DOOR_DWELL_MS {
                self.commands.push(Command::DoorLight(Light::Off));
                self.door_state.complete = true;
            }
            return;
        }
        match fs {
            FloorSignal::At(c) => {
                self.commands.push(Command::FloorIndicator(c));
                self.previous_floor = FloorSignal::At(c);
                if self.queue.len() == 0 {
                    self.commands.push(Command::Motor(MotorDir::Stop));
                } else {
                    let head_floor = self.queue[0].floor;
                    if head_floor == c || self.cab_call_at(c) {
                        self.commands.push(Command::Motor(MotorDir::Stop));
                        self.open_door(now);
                        self.clear_orders_at(c);
                        proof {
                            let o = old(self)@;
                            lemma_completions_no_motion(o.queue, c, o.id);
                            let added = self@.commands.skip(o.commands.len() as int);
                            let comp = completions_at(o.queue, c, o.id);
                            assert(added =~= seq![
                                Command::FloorIndicator(c),
                                Command::Motor(MotorDir::Stop),
                                Command::DoorLight(Light::On),
                            ] + comp);
                            assert forall|i: int| 0 <= i < added.len() implies #[trigger] added[i]
                                != Command::Motor(MotorDir::Up) && added[i] != Command::Motor(
                                MotorDir::Down,
                            ) by {
                                if i >= 3 {
                                    assert(added[i] == comp[i - 3]);
                                }
                            }
                        }
                    } else if c < head_floor {
                        self.drive(MotorDir::Up);
                    } else {
                        self.drive(MotorDir::Down);
                    }
                }
            },
            FloorSignal::Between => {
                if self.queue.len() == 0 {
                    self.drive(MotorDir::Down);
                } else {
                    let p = self.get_previous_floor();
                    let target = self.queue[0].floor as isize;
                    if p > target {
                        self.drive(MotorDir::Down);
                    } else if p < target {
                        self.drive(MotorDir::Up);
                    }
                }
            },
        }
    }

    /// Commands the motor towards `dir`, or to a stop while the interlock is
    /// latched.
    fn drive(&mut self, dir: MotorDir)
        ensures
            final(self)@ == (ElevState {
                commands: old(self)@.commands.push(drive(old(self)@, dir)),
                ..old(self)@
            }),
    {
        if self.stopped {
            self.commands.push(Command::Motor(MotorDir::Stop));
        } else {
            self.commands.push(Command::Motor(dir));
        }
    }

    /// Whether the queue holds a cab call for floor `c`.
    fn cab_call_at(&self, c: u8) -> (r: bool)
        ensures
            r == has_cab_at(self@.queue, c),
    {
        let mut i: usize = 0;
        while i < self.queue.len()
            invariant
                i <= self.queue@.len(),
                forall|j: int| 0 <= j < i ==> !((#[trigger] self.queue@[j]).floor == c && self.queue@[j].is_cab()),
            decreases self.queue@.len() - i,
        {
            if self.queue[i].floor == c && is_cab_call(&self.queue[i]) {
                return true;
            }
            i = i + 1;
        }
        false
    }

    fn open_door(&mut self, now: u64)
        ensures
            final(self)@ == (ElevState {
                door: DoorState { timestamp_open: now, complete: false },
                commands: old(self)@.commands.push(Command::DoorLight(Light::On)),
                ..old(self)@
            }),
    {
        self.commands.push(Command::DoorLight(Light::On));
        self.door_state.complete = false;
        self.door_state.timestamp_open = now;
    }

    /// Removes every order at floor `c` from the queue and publishes its
    /// completion.
    fn clear_orders_at(&mut self, c: u8)
        ensures
            final(self)@ == (ElevState {
                queue: orders_not_at(old(self)@.queue, c),
                commands: old(self)@.commands + completions_at(old(self)@.queue, c, old(self)@.id),
                ..old(self)@
            }),
    {
        let ghost q = self.queue@;
        let ghost base = self.commands@;
        let mut kept: Vec<Order> = Vec::new();
        let mut i: usize = 0;
        while i < self.queue.len()
            invariant
                q == old(self)@.queue,
                base == old(self)@.commands,
                i <= q.len(),
                kept@ == orders_not_at(q.subrange(0, i as int), c),
                self@ == (ElevState {
                    commands: base + completions_at(q.subrange(0, i as int), c, old(self)@.id),
                    ..old(self)@
                }),
            decreases q.len() - i,
        {
            let o = self.queue[i];
            assert(q.subrange(0, i + 1).drop_last() =~= q.subrange(0, i as int));
            if o.floor == c {
                let id = self.elevator_id;
                self.broadcast_order(o, RequestType::Complete, id);
            } else {
                kept.push(o);
            }
            assert(self.commands@ =~= base + completions_at(q.subrange(0, i + 1), c, old(self)@.id));
            i = i + 1;
        }
        assert(q.subrange(0, q.len() as int) =~= q);
        self.queue = kept;
    }

    /// The floor the car is at, `-1` between floors.
    pub fn get_current_floor(&self) -> (r: isize)
        ensures
            r as int == self@.current_floor.index(),
    {
        floor_index(self.current_floor)
    }

    /// The floor the car last stood at with its door closed, `-1` if none yet.
    pub fn get_previous_floor(&self) -> (r: isize)
        ensures
            r as int == self@.previous_floor.index(),
    {
        floor_index(self.previous_floor)
    }

    /// Publishes a `Request` for each high signal; `pressed[i]` is the signal
    /// of `button_orders()[i]`.
    pub fn broadcast_active_buttons(&mut self, pressed: &Vec<bool>)
        requires
            pressed@.len() == all_buttons().len(),
        ensures
            final(self)@ == (ElevState {
                commands: old(self)@.commands + request_events(all_buttons(), pressed@, old(self)@.id),
                ..old(self)@
            }),
    {
        let buttons = button_orders();
        let ghost b = buttons@;
        let ghost base = self.commands@;
        let mut i: usize = 0;
        while i < buttons.len()
            invariant
                b == buttons@,
                b == all_buttons(),
                pressed@.len() == b.len(),
                i <= b.len(),
                self@ == (ElevState {
                    commands: base + request_events(b.subrange(0, i as int), pressed@, old(self)@.id),
                    ..old(self)@
                }),
            decreases b.len() - i,
        {
            assert(b.subrange(0, i + 1).drop_last() =~= b.subrange(0, i as int));
            if pressed[i] {
                let id = self.elevator_id;
                self.broadcast_order(buttons[i], RequestType::Request, id);
            }
            assert(self.commands@ =~= base + request_events(b.subrange(0, i + 1), pressed@, old(self)@.id));
            i = i + 1;
        }
        assert(b.subrange(0, b.len() as int) =~= b);
    }

    /// Appends `order` to the drive queue and announces the claim.
    pub fn add_order(&mut self, order: Order)
        ensures
            final(self)@ == (ElevState {
                queue: old(self)@.queue.push(order),
                commands: old(self)@.commands.push(publish(RequestType::Taken, order, old(self)@.id)),
                ..old(self)@
            }),
    {
        self.queue.push(order);
        let id = self.elevator_id;
        self.broadcast_order(order, RequestType::Taken, id);
    }

    /// Removes the first entry equal to `order`, if there is one.
    pub fn delete_order(&mut self, order: &Order)
        ensures
            final(self)@ == (ElevState {
                queue: remove_first(old(self)@.queue, *order),
                ..old(self)@
            }),
    {
        let mut i: usize = 0;
        while i < self.queue.len()
            invariant
                self@ == old(self)@,
                i <= self.queue@.len(),
                forall|j: int| 0 <= j < i ==> self.queue@[j] != *order,
            decreases self.queue@.len() - i,
        {
            if self.queue[i] == *order {
                proof {
                    lemma_remove_first(self.queue@, *order, i as int);
                }
                self.queue.remove(i);
                return;
            }
            i = i + 1;
        }
        proof {
            lemma_remove_first(self.queue@, *order, i as int);
        }
    }

    /// Hands `order` to the transport and to the local registry.
    pub fn broadcast_order(&mut self, order: Order, request: RequestType, origin: u32)
        ensures
            final(self)@ == (ElevState {
                commands: old(self)@.commands.push(publish(request, order, origin)),
                ..old(self)@
            }),
    {
        self.commands.push(Command::Publish(ButtonEvent { request, order, origin }));
    }

    /// A copy of the drive queue.
    pub fn get_order_list(&self) -> (r: Vec<Order>)
        ensures
            r@ == self@.queue,
    {
        let mut r: Vec<Order> = Vec::new();
        let mut i: usize = 0;
        while i < self.queue.len()
            invariant
                i <= self.queue@.len(),
                r@ == self.queue@.subrange(0, i as int),
            decreases self.queue@.len() - i,
        {
            r.push(self.queue[i]);
            assert(r@ =~= self.queue@.subrange(0, i + 1));
            i = i + 1;
        }
        assert(r@ =~= self.queue@);
        r
    }

    /// Turns the lamp of a button on or off.
    pub fn set_button_light_for_order(&mut self, action: &ButtonType, floor: u8, light: Light)
        ensures
            final(self)@ == (ElevState {
                commands: old(self)@.commands.push(Command::ButtonLight(*action, floor, light)),
                ..old(self)@
            }),
    {
        self.commands.push(Command::ButtonLight(*action, floor, light));
    }

    /// The safety interlock: an asserted stop signal stops the motor and
    /// latches the stopped flag.
    pub fn handle_stop_signal(&mut self, asserted: bool)
        ensures
            asserted ==> final(self)@ == (ElevState {
                stopped: true,
                commands: old(self)@.commands.push(Command::Motor(MotorDir::Stop)),
                ..old(self)@
            }),
            !asserted ==> final(self)@ == old(self)@,
    {
        if asserted {
            self.commands.push(Command::Motor(MotorDir::Stop));
            self.stopped = true;
        }
    }

    /// Whether the door is open (it has not yet been closed after its dwell).
    pub fn door_open(&self) -> (r: bool)
        ensures
            r == !self@.door.complete,
    {
        !self.door_state.complete
    }

    /// Whether the stop signal has ever been seen.
    pub fn is_stopped(&self) -> (r: bool)
        ensures
            r == self@.stopped,
    {
        self.stopped
    }

    /// Hands over the commands issued so far, in order, and forgets them.
    pub fn take_commands(&mut self) -> (r: Vec<Command>)
        ensures
            r@ == old(self)@.commands,
            final(self)@ == (ElevState { commands: seq![], ..old(self)@ }),
    {
        let mut r: Vec<Command> = Vec::new();
        std::mem::swap(&mut r, &mut self.commands);
        r
    }
}

} // verus!
