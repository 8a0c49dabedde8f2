use elevator_project::cost::{
    cost_function_delay_complete, cost_function_delay_take, direction_of_call, Direction,
};
use elevator_project::types::{ButtonType, Order};

fn order(floor: u8, order_type: ButtonType) -> Order {
    Order { floor, order_type }
}

#[test]
fn idle_hall_delay_grows_with_distance_and_id() {
    let q: Vec<Order> = Vec::new();
    let o = order(2, ButtonType::HallUpCall);
    assert_eq!(cost_function_delay_take(&o, &q, 0, 0, 1), 1000 + 500 * 2 + 150);
    assert_eq!(cost_function_delay_take(&o, &q, 3, 3, 4), 1000 + 500 + 600);
    assert_eq!(cost_function_delay_take(&o, &q, 2, 2, 0), 1000);
}

#[test]
fn idle_between_floors_counts_from_sentinel() {
    let q: Vec<Order> = Vec::new();
    let o = order(1, ButtonType::HallDownCall);
    assert_eq!(cost_function_delay_take(&o, &q, -1, 0, 0), 1000 + 500 * 2);
}

#[test]
fn idle_cab_call_is_near_immediate() {
    let q: Vec<Order> = Vec::new();
    let o = order(3, ButtonType::CabCall);
    assert_eq!(cost_function_delay_take(&o, &q, 0, 0, 200), 20);
}

#[test]
fn busy_same_direction_hall_down() {
    // Car resting at 3 heading down (current 2, last 3) to a hall-down at 0.
    let q = vec![order(0, ButtonType::HallDownCall)];
    let o = order(1, ButtonType::HallDownCall);
    // score = 4 + 2 - |1 - 3| = 4; 5000 / 4 = 1250
    assert_eq!(cost_function_delay_take(&o, &q, 2, 3, 1), 2000 + 1250 + 2500 + 150);
}

#[test]
fn busy_reversed_direction_hall_down() {
    // Car going up (current 2, last 1) with a hall-down at 3 at the head.
    let q = vec![order(3, ButtonType::HallDownCall)];
    let o = order(2, ButtonType::HallUpCall);
    // score = 4 + 1 - |2 - 1| = 4
    assert_eq!(cost_function_delay_take(&o, &q, 2, 1, 0), 2000 + 1250 + 2500);
}

#[test]
fn busy_request_behind_car_gets_lowest_score() {
    let q = vec![order(3, ButtonType::HallUpCall), order(2, ButtonType::CabCall)];
    let o = order(0, ButtonType::HallUpCall);
    // going up from 1, request at 0 is behind: score 1
    assert_eq!(cost_function_delay_take(&o, &q, 2, 1, 2), 2000 + 5000 + 2 * 2500 + 300);
}

#[test]
fn busy_cab_head_towards_request() {
    let q = vec![order(0, ButtonType::CabCall)];
    let o = order(1, ButtonType::HallDownCall);
    // between floors (-1), last 3: going down, 3 > 1: score = 6 - 2 = 4
    assert_eq!(cost_function_delay_take(&o, &q, -1, 3, 2), 2000 + 1250 + 2500 + 300);
}

#[test]
fn busy_short_circuits_to_base() {
    let q = vec![order(2, ButtonType::HallUpCall), order(0, ButtonType::HallUpCall)];
    let same_floor = order(2, ButtonType::HallDownCall);
    assert_eq!(cost_function_delay_take(&same_floor, &q, 0, 0, 9), 2000);
    let cab = order(3, ButtonType::CabCall);
    assert_eq!(cost_function_delay_take(&cab, &q, 0, 0, 9), 2000);
}

#[test]
fn completion_delay_adds_three_seconds_per_floor() {
    let q: Vec<Order> = Vec::new();
    let o = order(2, ButtonType::HallUpCall);
    assert_eq!(cost_function_delay_complete(&o, &q, 0, 0, 1), 12000 + 2150);
}

#[test]
fn largest_id_does_not_overflow() {
    let q = vec![order(0, ButtonType::HallUpCall)];
    let o = order(3, ButtonType::HallUpCall);
    let d = cost_function_delay_take(&o, &q, 0, 0, u32::MAX);
    assert_eq!(d, 2000 + 5000 + 2500 + 150 * u32::MAX as u64);
}

#[test]
fn direction_follows_current_minus_last() {
    assert_eq!(direction_of_call(2, 1), Direction::Up);
    assert_eq!(direction_of_call(1, 2), Direction::Down);
    assert_eq!(direction_of_call(1, 1), Direction::Down);
    assert_eq!(direction_of_call(0, -1), Direction::Up);
}
