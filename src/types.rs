//! Requests, wire events, hardware signals and the commands that the
//! library hands to whoever drives the physical car and the network.
use vstd::prelude::*;

verus! {

/// Number of floors served by every car.
pub const N_FLOORS: u8 = 4;

/// Default UDP port of the broadcast transport.
pub const BCAST_PORT: u16 = 26665;

/// Which physical button a request comes from.
#[derive(Clone, Copy, Debug, PartialEq, Eq, Structural)]
pub enum ButtonType {
    CabCall,
    HallUpCall,
    HallDownCall,
}

/// The verb of an event on the wire.
#[derive(Clone, Copy, Debug, PartialEq, Eq, Structural)]
pub enum RequestType {
    /// A button was pressed (or a watchdog re-asserts the request).
    Request,
    /// A node has put the request in its drive queue.
    Taken,
    /// A car has served the request.
    Complete,
}

/// A request: a floor and the kind of button.
#[derive(Clone, Copy, Debug, PartialEq, Eq, Structural)]
pub struct Order {
    pub floor: u8,
    pub order_type: ButtonType,
}

/// The record exchanged between nodes (and looped back locally).
#[derive(Clone, Copy, Debug, PartialEq, Eq, Structural)]
pub struct ButtonEvent {
    pub request: RequestType,
    pub order: Order,
    pub origin: u32,
}

/// Reading of the floor sensor.
#[derive(Clone, Copy, Debug, PartialEq, Eq, Structural)]
pub enum FloorSignal {
    At(u8),
    Between,
}

#[derive(Clone, Copy, Debug, PartialEq, Eq, Structural)]
pub enum MotorDir {
    Up,
    Down,
    Stop,
}

#[derive(Clone, Copy, Debug, PartialEq, Eq, Structural)]
pub enum Light {
    On,
    Off,
}

/// An effect on the outside world, produced by the library and carried out,
/// in order, by the code that owns the hardware and the transport.
#[derive(Clone, Copy, Debug, PartialEq, Eq, Structural)]
pub enum Command {
    Motor(MotorDir),
    DoorLight(Light),
    FloorIndicator(u8),
    ButtonLight(ButtonType, u8, Light),
    /// Deliver the event locally and broadcast it to the other nodes.
    Publish(ButtonEvent),
}

impl Order {
    pub open spec fn valid(self) -> bool {
        self.floor < N_FLOORS
    }

    pub open spec fn is_cab(self) -> bool {
        self.order_type is CabCall
    }
}

impl FloorSignal {
    pub open spec fn valid(self) -> bool {
        match self {
            FloorSignal::At(f) => f < N_FLOORS,
            FloorSignal::Between => true,
        }
    }

    /// The floor as a signed index, `-1` between floors.
    pub open spec fn index(self) -> int {
        match self {
            FloorSignal::At(f) => f as int,
            FloorSignal::Between => -1,
        }
    }
}

/// True when `x` is a floor index or the between-floors sentinel `-1`.
pub open spec fn floor_index_valid(x: int) -> bool {
    -1 <= x < N_FLOORS as int
}

/// The floor as a signed index, `-1` between floors.
pub fn floor_index(f: FloorSignal) -> (r: isize)
    ensures
        r as int == f.index(),
{
    match f {
        FloorSignal::At(n) => n as isize,
        FloorSignal::Between => -1,
    }
}

/// Whether `o` is a cab call.
pub fn is_cab_call(o: &Order) -> (r: bool)
    ensures
        r == o.is_cab(),
{
    match o.order_type {
        ButtonType::CabCall => true,
        _ => false,
    }
}

} // verus!
