//! The bid-delay estimator: how long a node waits before claiming a request.
//! Every node computes a delay for every request it sees; the node whose
//! delay runs out first claims the request.
use vstd::prelude::*;

use crate::types::{floor_index_valid, is_cab_call, ButtonType, Order, N_FLOORS};

verus! {

/// Base delay when the drive queue is empty (milliseconds).
pub const IDLE_BASE_DELAY: u64 = 1000;
/// Added per floor of distance when the drive queue is empty.
pub const IDLE_DISTANCE_WEIGHT: u64 = 500;
/// Delay for a cab call when the drive queue is empty.
pub const IDLE_CAB_DELAY: u64 = 20;
/// Base delay when the drive queue is not empty.
pub const BUSY_BASE_DELAY: u64 = 2000;
/// Divided by the alignment score.
pub const SCORE_SPREAD: u64 = 5000;
/// Added per order already in the drive queue.
pub const QUEUE_PENALTY: u64 = 2500;
/// Multiplied by the node id to break ties between nodes.
pub const ID_WEIGHT: u64 = 150;
/// Extra time, per floor, that a claimant gets before others take over.
pub const COMPLETION_MS_PER_FLOOR: u64 = 3000;

/// Direction of travel of the car.
#[derive(Clone, Copy, Debug, PartialEq, Eq, Structural)]
pub enum Direction {
    Up,
    Down,
}

pub open spec fn abs_int(x: int) -> int {
    if x < 0 { -x } else { x }
}

/// The car travels up when it is above the floor it last rested at.
pub open spec fn travelling_up(current_floor: int, last_floor: int) -> bool {
    current_floor - last_floor > 0
}

/// How well a request fits the path of a busy car: higher is better.
/// `head` is the order the car is driving to.
pub open spec fn alignment_score(order: Order, head: Order, current_floor: int, last_floor: int) -> int {
    let f = order.floor as int;
    let up = travelling_up(current_floor, last_floor);
    let ahead_up = up && last_floor < f;
    let ahead_down = !up && last_floor > f;
    let same_way = N_FLOORS as int + 2 - abs_int(f - last_floor);
    let reversed = N_FLOORS as int + 1 - abs_int(f - last_floor);
    match head.order_type {
        ButtonType::CabCall => if ahead_up || ahead_down { same_way } else { 1 },
        ButtonType::HallDownCall => if ahead_down {
            same_way
        } else if ahead_up {
            reversed
        } else {
            1
        },
        ButtonType::HallUpCall => if ahead_up {
            same_way
        } else if ahead_down {
            reversed
        } else {
            1
        },
    }
}

/// The bid delay in milliseconds, before it is capped to `u64`.
pub open spec fn take_delay(
    order: Order,
    queue: Seq<Order>,
    current_floor: int,
    last_floor: int,
    id: u32,
) -> int {
    if queue.len() == 0 {
        if order.is_cab() {
            IDLE_CAB_DELAY as int
        } else {
            IDLE_BASE_DELAY + IDLE_DISTANCE_WEIGHT * abs_int(current_floor - order.floor as int)
                + ID_WEIGHT * id
        }
    } else if order.is_cab() || order.floor == queue[0].floor {
        BUSY_BASE_DELAY as int
    } else {
        BUSY_BASE_DELAY + SCORE_SPREAD as int / alignment_score(
            order,
            queue[0],
            current_floor,
            last_floor,
        ) + QUEUE_PENALTY * queue.len() + ID_WEIGHT * id
    }
}

/// The time a node that saw a claim waits for completion before it takes the
/// request over itself.
pub open spec fn complete_delay(
    order: Order,
    queue: Seq<Order>,
    current_floor: int,
    last_floor: int,
    id: u32,
) -> int {
    COMPLETION_MS_PER_FLOOR * N_FLOORS + take_delay(order, queue, current_floor, last_floor, id)
}

/// `d` capped to the largest `u64`.
pub open spec fn cap_u64(d: int) -> int {
    if d > u64::MAX { u64::MAX as int } else { d }
}

pub open spec fn direction_spec(current_floor: int, last_floor: int) -> Direction {
    if travelling_up(current_floor, last_floor) { Direction::Up } else { Direction::Down }
}

pub fn direction_of_call(going_to: isize, last_floor: isize) -> (r: Direction)
    requires
        floor_index_valid(going_to as int),
        floor_index_valid(last_floor as int),
    ensures
        r == direction_spec(going_to as int, last_floor as int),
{
    if going_to - last_floor > 0 {
        Direction::Up
    } else {
        Direction::Down
    }
}

pub(crate) proof fn lemma_score_bounds(order: Order, head: Order, current_floor: int, last_floor: int)
    requires
        order.valid(),
        floor_index_valid(last_floor),
    ensures
        1 <= alignment_score(order, head, current_floor, last_floor) <= N_FLOORS + 2,
{
}

fn abs_diff(a: i64, b: i64) -> (r: i64)
    requires
        -1000 <= a <= 1000,
        -1000 <= b <= 1000,
    ensures
        r == abs_int(a - b),
{
    if a > b { a - b } else { b - a }
}

fn score_of(order: &Order, head: &Order, current_floor: isize, last_floor: isize) -> (r: u128)
    requires
        order.valid(),
        floor_index_valid(current_floor as int),
        floor_index_valid(last_floor as int),
    ensures
        r as int == alignment_score(*order, *head, current_floor as int, last_floor as int),
        r >= 1,
{
    proof {
        lemma_score_bounds(*order, *head, current_floor as int, last_floor as int);
    }
    let f = order.floor as i64;
    let lf = last_floor as i64;
    let up = direction_of_call(current_floor, last_floor) == Direction::Up;
    let ahead_up = up && lf < f;
    let ahead_down = !up && lf > f;
    let dist = abs_diff(f, lf);
    let same_way = (N_FLOORS as i64 + 2 - dist) as u128;
    let reversed = (N_FLOORS as i64 + 1 - dist) as u128;
    match head.order_type {
        ButtonType::CabCall => if ahead_up || ahead_down { same_way } else { 1 },
        ButtonType::HallDownCall => if ahead_down {
            same_way
        } else if ahead_up {
            reversed
        } else {
            1
        },
        ButtonType::HallUpCall => if ahead_up {
            same_way
        } else if ahead_down {
            reversed
        } else {
            1
        },
    }
}

fn cap_to_u64(d: u128) -> (r: u64)
    ensures
        r as int == cap_u64(d as int),
{
    if d > u64::MAX as u128 { u64::MAX } else { d as u64 }
}

/// The bid delay (milliseconds) of this node for `order`, given its drive
/// queue, its current floor and the floor it last rested at (`-1` between
/// floors), and its id.
pub fn cost_function_delay_take(
    order: &Order,
    elev_queue: &Vec<Order>,
    current_floor: isize,
    last_floor: isize,
    elev_id: u32,
) -> (r: u64)
    requires
        order.valid(),
        floor_index_valid(current_floor as int),
        floor_index_valid(last_floor as int),
    ensures
        r as int == cap_u64(
            take_delay(*order, elev_queue@, current_floor as int, last_floor as int, elev_id),
        ),
{
    assert(ID_WEIGHT as u128 * elev_id as u128 <= 150 * 0xffff_ffff) by (nonlinear_arith)
        requires
            ID_WEIGHT == 150,
            elev_id <= 0xffff_ffffu32,
    ;
    let id_term = ID_WEIGHT as u128 * elev_id as u128;
    if elev_queue.len() == 0 {
        if is_cab_call(order) {
            IDLE_CAB_DELAY
        } else {
            let dist = abs_diff(current_floor as i64, order.floor as i64) as u128;
            assert(IDLE_DISTANCE_WEIGHT as u128 * dist <= 5000) by (nonlinear_arith)
                requires
                    dist <= 5,
                    IDLE_DISTANCE_WEIGHT == 500,
            ;
            let d = IDLE_BASE_DELAY as u128 + IDLE_DISTANCE_WEIGHT as u128 * dist + id_term;
            cap_to_u64(d)
        }
    } else {
        let head = &elev_queue[0];
        if is_cab_call(order) || order.floor == head.floor {
            BUSY_BASE_DELAY
        } else {
            let score = score_of(order, head, current_floor, last_floor);
            assert(QUEUE_PENALTY as u128 * elev_queue.len() as u128 <= 2500 * 0xffff_ffff_ffff_ffff)
                by (nonlinear_arith)
                requires
                    QUEUE_PENALTY == 2500,
                    elev_queue.len() <= 0xffff_ffff_ffff_ffffu64,
            ;
            let queued = QUEUE_PENALTY as u128 * elev_queue.len() as u128;
            let d = BUSY_BASE_DELAY as u128 + SCORE_SPREAD as u128 / score + queued + id_term;
            cap_to_u64(d)
        }
    }
}

/// The completion-watch delay (milliseconds): much longer than the bid delay,
/// so that a busy claimant is not pre-empted.
pub fn cost_function_delay_complete(
    order: &Order,
    elev_queue: &Vec<Order>,
    current_floor: isize,
    last_floor: isize,
    elev_id: u32,
) -> (r: u64)
    requires
        order.valid(),
        floor_index_valid(current_floor as int),
        floor_index_valid(last_floor as int),
    ensures
        r as int == cap_u64(
            complete_delay(*order, elev_queue@, current_floor as int, last_floor as int, elev_id),
        ),
{
    let take = cost_function_delay_take(order, elev_queue, current_floor, last_floor, elev_id);
    let extra = COMPLETION_MS_PER_FLOOR as u128 * N_FLOORS as u128;
    cap_to_u64(extra + take as u128)
}

} // verus!
