use elevator_project::elev_controller::button_orders;
use elevator_project::node_id::node_id_from_address;
use elevator_project::task_manager::{handle_network_message, States, Task, TaskManager};
use elevator_project::types::{
    ButtonEvent, ButtonType, Command, FloorSignal, Light, MotorDir, Order, RequestType,
};

fn order(floor: u8, order_type: ButtonType) -> Order {
    Order { floor, order_type }
}

fn event(request: RequestType, o: Order, origin: u32) -> ButtonEvent {
    ButtonEvent { request, order: o, origin }
}

fn no_buttons() -> Vec<bool> {
    vec![false; button_orders().len()]
}

fn published(cmds: &[Command]) -> Vec<ButtonEvent> {
    cmds.iter()
        .filter_map(|c| match c {
            Command::Publish(e) => Some(*e),
            _ => None,
        })
        .collect()
}

fn state_of(m: &TaskManager, o: Order, origin: u32) -> Option<States> {
    m.find_task(&o, origin).map(|t: Task| t.state)
}

/// A car that moves one half-floor every `ticks_per_step` ticks in the
/// direction of the last motor command.
struct Car {
    half_floors: u32,
    dir: MotorDir,
    counter: u32,
}

impl Car {
    fn signal(&self) -> FloorSignal {
        if self.half_floors % 2 == 0 {
            FloorSignal::At((self.half_floors / 2) as u8)
        } else {
            FloorSignal::Between
        }
    }

    fn apply(&mut self, cmds: &[Command]) {
        for c in cmds {
            if let Command::Motor(d) = c {
                self.dir = *d;
            }
        }
    }

    fn advance(&mut self) {
        self.counter += 1;
        if self.counter % 5 != 0 {
            return;
        }
        match self.dir {
            MotorDir::Up => self.half_floors += 1,
            MotorDir::Down => self.half_floors -= 1,
            MotorDir::Stop => {}
        }
    }
}

#[test]
fn single_node_serves_hall_up_call() {
    let id = 1;
    let mut m = TaskManager::new(id, FloorSignal::At(0), 0);
    let mut car = Car { half_floors: 0, dir: MotorDir::Stop, counter: 0 };
    let hall = order(2, ButtonType::HallUpCall);
    handle_network_message(&mut m, event(RequestType::Request, hall, id), 0);
    assert_eq!(m.task_count(), 1);

    let mut all: Vec<Command> = Vec::new();
    let mut inbox: Vec<ButtonEvent> = Vec::new();
    let mut stopped_at_two = false;
    let mut now: u64 = 0;
    for _ in 0..400 {
        for e in inbox.drain(..) {
            handle_network_message(&mut m, e, now);
        }
        m.run_state_machine(car.signal(), &no_buttons(), false, now);
        let cmds = m.take_commands();
        if car.signal() == FloorSignal::At(2) && cmds.contains(&Command::Motor(MotorDir::Stop)) {
            stopped_at_two = true;
        }
        car.apply(&cmds);
        inbox.extend(published(&cmds));
        all.extend(cmds);
        car.advance();
        now += 100;
    }
    let events = published(&all);
    let claim = event(RequestType::Taken, hall, id);
    let done = event(RequestType::Complete, hall, id);
    assert!(events.contains(&claim));
    assert!(all.contains(&Command::Motor(MotorDir::Up)));
    assert!(stopped_at_two);
    assert!(all.contains(&Command::DoorLight(Light::On)));
    assert!(events.contains(&done));
    let claim_at = events.iter().position(|e| *e == claim).unwrap();
    let done_at = events.iter().position(|e| *e == done).unwrap();
    assert!(claim_at < done_at);
    assert!(all.contains(&Command::ButtonLight(ButtonType::HallUpCall, 2, Light::On)));
    assert!(all.contains(&Command::ButtonLight(ButtonType::HallUpCall, 2, Light::Off)));
    assert_eq!(m.task_count(), 0);
    assert!(m.get_elevator().get_order_list().is_empty());
    assert_eq!(m.get_elevator().get_current_floor(), 2);
}

#[test]
fn closer_idle_node_claims_first() {
    let a_id = 1;
    let b_id = 2;
    let mut a = TaskManager::new(a_id, FloorSignal::At(0), 0);
    let mut b = TaskManager::new(b_id, FloorSignal::At(3), 0);
    // Node B is busy with its own cab call to floor 0 and travelling.
    let cab = order(0, ButtonType::CabCall);
    handle_network_message(&mut b, event(RequestType::Request, cab, b_id), 0);
    let mut now: u64 = 0;
    for _ in 0..3 {
        b.run_state_machine(FloorSignal::At(3), &no_buttons(), false, now);
        now += 100;
    }
    assert_eq!(b.get_elevator().get_order_list(), vec![cab]);
    b.take_commands();

    let hall = order(1, ButtonType::HallDownCall);
    handle_network_message(&mut a, event(RequestType::Request, hall, b_id), now);
    handle_network_message(&mut b, event(RequestType::Request, hall, b_id), now);

    let mut a_claimed_at: Option<u64> = None;
    for _ in 0..100 {
        a.run_state_machine(FloorSignal::At(0), &no_buttons(), false, now);
        b.run_state_machine(FloorSignal::Between, &no_buttons(), false, now);
        let from_a = published(&a.take_commands());
        let from_b = published(&b.take_commands());
        for e in &from_b {
            assert_ne!(e.request, RequestType::Taken);
        }
        for e in from_a {
            if e.request == RequestType::Taken && e.order == hall && a_claimed_at.is_none() {
                a_claimed_at = Some(now);
            }
            handle_network_message(&mut a, e, now);
            handle_network_message(&mut b, e, now);
        }
        now += 100;
    }
    assert!(a_claimed_at.is_some());
    assert_eq!(state_of(&b, hall, b_id), Some(States::CompleteWatchdog));
    assert!(!b.get_elevator().get_order_list().contains(&hall));
    assert!(a.get_elevator().get_order_list().contains(&hall));
}

#[test]
fn duplicate_request_revives_done_cab_call() {
    let me = 1;
    let owner = 2;
    let mut m = TaskManager::new(me, FloorSignal::At(0), 0);
    let cab = order(3, ButtonType::CabCall);
    handle_network_message(&mut m, event(RequestType::Request, cab, owner), 0);
    m.run_state_machine(FloorSignal::At(0), &no_buttons(), false, 100);
    assert_eq!(state_of(&m, cab, owner), Some(States::CabWatchdog));
    handle_network_message(&mut m, event(RequestType::Complete, cab, owner), 200);
    m.run_state_machine(FloorSignal::At(0), &no_buttons(), false, 300);
    assert_eq!(state_of(&m, cab, owner), Some(States::Complete));
    m.run_state_machine(FloorSignal::At(0), &no_buttons(), false, 400);
    assert_eq!(state_of(&m, cab, owner), Some(States::Complete));
    handle_network_message(&mut m, event(RequestType::Request, cab, owner), 500);
    assert_eq!(m.task_count(), 1);
    let t = m.find_task(&cab, owner).unwrap();
    assert_eq!(t.state, States::New);
    assert!(!t.complete);
    assert!(!t.taken);
}

#[test]
fn done_cab_call_is_evicted_after_grace() {
    let me = 1;
    let owner = 2;
    let mut m = TaskManager::new(me, FloorSignal::At(0), 0);
    let cab = order(3, ButtonType::CabCall);
    handle_network_message(&mut m, event(RequestType::Request, cab, owner), 0);
    m.run_state_machine(FloorSignal::At(0), &no_buttons(), false, 100);
    handle_network_message(&mut m, event(RequestType::Complete, cab, owner), 1000);
    m.run_state_machine(FloorSignal::At(0), &no_buttons(), false, 1100);
    m.run_state_machine(FloorSignal::At(0), &no_buttons(), false, 6000);
    assert_eq!(m.task_count(), 1);
    m.run_state_machine(FloorSignal::At(0), &no_buttons(), false, 6001);
    assert_eq!(m.task_count(), 0);
}

#[test]
fn one_task_per_request() {
    let mut m = TaskManager::new(1, FloorSignal::At(0), 0);
    let hall = order(2, ButtonType::HallUpCall);
    let cab = order(2, ButtonType::CabCall);
    handle_network_message(&mut m, event(RequestType::Request, hall, 1), 0);
    handle_network_message(&mut m, event(RequestType::Request, hall, 2), 0);
    handle_network_message(&mut m, event(RequestType::Request, hall, 1), 0);
    assert_eq!(m.task_count(), 1);
    handle_network_message(&mut m, event(RequestType::Request, cab, 1), 0);
    handle_network_message(&mut m, event(RequestType::Request, cab, 2), 0);
    handle_network_message(&mut m, event(RequestType::Request, cab, 2), 0);
    assert_eq!(m.task_count(), 3);
    m.run_state_machine(FloorSignal::At(0), &no_buttons(), false, 100);
    handle_network_message(&mut m, event(RequestType::Request, cab, 1), 200);
    assert_eq!(m.task_count(), 3);
}

#[test]
fn request_outside_the_building_is_ignored() {
    let mut m = TaskManager::new(1, FloorSignal::At(0), 0);
    handle_network_message(&mut m, event(RequestType::Request, order(4, ButtonType::HallUpCall), 1), 0);
    handle_network_message(&mut m, event(RequestType::Request, order(200, ButtonType::CabCall), 1), 0);
    assert_eq!(m.task_count(), 0);
}

#[test]
fn duplicate_claim_and_fulfilment_are_idempotent() {
    let mut m = TaskManager::new(1, FloorSignal::At(0), 0);
    let hall = order(1, ButtonType::HallDownCall);
    let cab = order(1, ButtonType::CabCall);
    handle_network_message(&mut m, event(RequestType::Request, hall, 3), 0);
    handle_network_message(&mut m, event(RequestType::Request, cab, 3), 0);
    handle_network_message(&mut m, event(RequestType::Taken, hall, 2), 10);
    let once = m.get_task_list();
    handle_network_message(&mut m, event(RequestType::Taken, hall, 2), 20);
    assert_eq!(m.get_task_list(), once);

    handle_network_message(&mut m, event(RequestType::Complete, cab, 3), 30);
    let once = m.get_task_list();
    handle_network_message(&mut m, event(RequestType::Complete, cab, 3), 4000);
    assert_eq!(m.get_task_list(), once);
    let t = m.find_task(&cab, 3).unwrap();
    assert!(t.complete);
    assert_eq!(t.complete_time, 30);
    // A cab call of another owner is a different request.
    handle_network_message(&mut m, event(RequestType::Complete, cab, 4), 50);
    assert_eq!(m.get_task_list(), once);
}

#[test]
fn claim_of_a_hall_call_matches_any_origin() {
    let mut m = TaskManager::new(1, FloorSignal::At(0), 0);
    let hall = order(1, ButtonType::HallDownCall);
    handle_network_message(&mut m, event(RequestType::Request, hall, 3), 0);
    handle_network_message(&mut m, event(RequestType::Taken, hall, 7), 10);
    assert!(m.find_task(&hall, 9).unwrap().taken);
}

#[test]
fn remote_cab_call_rebroadcast_until_fulfilled() {
    let me = 1;
    let owner = 2;
    let mut m = TaskManager::new(me, FloorSignal::At(0), 0);
    let cab = order(3, ButtonType::CabCall);
    let again = event(RequestType::Request, cab, owner);
    handle_network_message(&mut m, again, 0);
    m.run_state_machine(FloorSignal::At(0), &no_buttons(), false, 0);
    assert_eq!(state_of(&m, cab, owner), Some(States::CabWatchdog));
    assert!(!published(&m.take_commands()).contains(&again));
    m.run_state_machine(FloorSignal::At(0), &no_buttons(), false, 10000);
    assert!(!published(&m.take_commands()).contains(&again));
    m.run_state_machine(FloorSignal::At(0), &no_buttons(), false, 10001);
    assert_eq!(published(&m.take_commands()), vec![again]);
    m.run_state_machine(FloorSignal::At(0), &no_buttons(), false, 15000);
    assert!(published(&m.take_commands()).is_empty());
    m.run_state_machine(FloorSignal::At(0), &no_buttons(), false, 20002);
    assert_eq!(published(&m.take_commands()), vec![again]);
    // The cab call is never put in this node's queue nor lit here.
    assert!(m.get_elevator().get_order_list().is_empty());
    handle_network_message(&mut m, event(RequestType::Complete, cab, owner), 21000);
    m.run_state_machine(FloorSignal::At(0), &no_buttons(), false, 40000);
    assert_eq!(state_of(&m, cab, owner), Some(States::Complete));
    let cmds = m.take_commands();
    assert!(!published(&cmds).contains(&again));
    assert!(!cmds.contains(&Command::ButtonLight(ButtonType::CabCall, 3, Light::Off)));
}

#[test]
fn stalled_claimant_is_taken_over() {
    let mut m = TaskManager::new(1, FloorSignal::At(0), 0);
    let hall = order(3, ButtonType::HallDownCall);
    handle_network_message(&mut m, event(RequestType::Request, hall, 1), 0);
    m.run_state_machine(FloorSignal::At(0), &no_buttons(), false, 0);
    // Bid delay of node 1: 1000 + 500 * 3 + 150 = 2650.
    assert_eq!(m.find_task(&hall, 1).unwrap().task_delay.waiting_time, 2650);
    handle_network_message(&mut m, event(RequestType::Taken, hall, 5), 100);
    m.run_state_machine(FloorSignal::At(0), &no_buttons(), false, 200);
    let t = m.find_task(&hall, 1).unwrap();
    assert_eq!(t.state, States::CompleteWatchdog);
    assert_eq!(t.task_delay.waiting_time, 12000 + 2650);
    m.run_state_machine(FloorSignal::At(0), &no_buttons(), false, 200 + 14650);
    assert_eq!(state_of(&m, hall, 1), Some(States::CompleteWatchdog));
    m.run_state_machine(FloorSignal::At(0), &no_buttons(), false, 200 + 14651);
    assert_eq!(state_of(&m, hall, 1), Some(States::Take));
    m.take_commands();
    m.run_state_machine(FloorSignal::At(0), &no_buttons(), false, 15000);
    assert_eq!(state_of(&m, hall, 1), Some(States::CheckLocalComplete));
    assert_eq!(m.get_elevator().get_order_list(), vec![hall]);
    assert!(published(&m.take_commands()).contains(&event(RequestType::Taken, hall, 1)));
}

#[test]
fn fulfilled_elsewhere_is_dequeued_locally() {
    let mut m = TaskManager::new(1, FloorSignal::At(0), 0);
    let hall = order(3, ButtonType::HallDownCall);
    handle_network_message(&mut m, event(RequestType::Request, hall, 1), 0);
    m.run_state_machine(FloorSignal::At(0), &no_buttons(), false, 0);
    m.run_state_machine(FloorSignal::At(0), &no_buttons(), false, 3000);
    m.run_state_machine(FloorSignal::At(0), &no_buttons(), false, 3100);
    assert_eq!(m.get_elevator().get_order_list(), vec![hall]);
    handle_network_message(&mut m, event(RequestType::Complete, hall, 4), 3200);
    m.run_state_machine(FloorSignal::Between, &no_buttons(), false, 3300);
    assert_eq!(state_of(&m, hall, 1), Some(States::Complete));
    assert!(m.get_elevator().get_order_list().is_empty());
    m.take_commands();
    m.run_state_machine(FloorSignal::Between, &no_buttons(), false, 3400);
    assert_eq!(m.task_count(), 0);
    assert!(m.take_commands().contains(&Command::ButtonLight(ButtonType::HallDownCall, 3, Light::Off)));
}

#[test]
fn button_press_is_published_as_request() {
    let mut m = TaskManager::new(4, FloorSignal::At(0), 0);
    let buttons = button_orders();
    let mut pressed = no_buttons();
    let i = buttons.iter().position(|b| *b == order(2, ButtonType::CabCall)).unwrap();
    pressed[i] = true;
    m.run_state_machine(FloorSignal::At(0), &pressed, false, 0);
    assert_eq!(
        published(&m.take_commands()),
        vec![event(RequestType::Request, order(2, ButtonType::CabCall), 4)]
    );
}

#[test]
fn stop_signal_holds_the_motor() {
    let mut m = TaskManager::new(4, FloorSignal::At(0), 0);
    handle_network_message(&mut m, event(RequestType::Request, order(3, ButtonType::CabCall), 4), 0);
    m.run_state_machine(FloorSignal::At(0), &no_buttons(), false, 0);
    m.run_state_machine(FloorSignal::At(0), &no_buttons(), false, 100);
    m.run_state_machine(FloorSignal::At(0), &no_buttons(), false, 200);
    m.take_commands();
    m.run_state_machine(FloorSignal::At(0), &no_buttons(), false, 300);
    assert!(m.take_commands().contains(&Command::Motor(MotorDir::Up)));
    m.run_state_machine(FloorSignal::At(0), &no_buttons(), true, 400);
    let cmds = m.take_commands();
    assert_eq!(cmds[0], Command::Motor(MotorDir::Stop));
    let motors: Vec<&Command> = cmds.iter().filter(|c| matches!(c, Command::Motor(_))).collect();
    assert_eq!(motors, vec![&Command::Motor(MotorDir::Stop), &Command::Motor(MotorDir::Stop)]);
    assert!(m.get_elevator().is_stopped());
    // The latch holds in later ticks, with the signal released.
    m.run_state_machine(FloorSignal::Between, &no_buttons(), false, 500);
    assert_eq!(m.take_commands(), vec![Command::Motor(MotorDir::Stop)]);
}

#[test]
fn node_id_is_last_number_of_address() {
    assert_eq!(node_id_from_address("10.100.23.145"), Some(145));
    assert_eq!(node_id_from_address("192.168.0.7"), Some(7));
    assert_eq!(node_id_from_address("host1a23"), Some(23));
    assert_eq!(node_id_from_address("fe80::1:"), None);
    assert_eq!(node_id_from_address(""), None);
    assert_eq!(node_id_from_address("id99999999999"), None);
}
