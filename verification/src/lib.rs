//! Bridges cockpit hardware (buttons, encoders, displays on microcontrollers)
//! with a flight-simulator process: simulator variables become hardware output
//! commands, and hardware input events become simulator commands or variable
//! writes.
//!
//! The crate holds the translation core: the microcontroller line-protocol
//! codec, the simulator wire codecs, the connector state machines, the
//! rule-evaluation mapping engine, and the per-tick orchestration decisions.
//! All simulator values are carried as fixed-point numbers ([`value::SimValue`])
//! so that every rule evaluation is exact.
use vstd::prelude::*;

pub mod config;
pub mod decstr;
pub mod device;
pub mod dummy;
pub mod flash;
pub mod mapping;
pub mod msfs;
pub mod orchestrator;
pub mod protocol;
pub mod snapshot;
pub mod text;
pub mod value;
pub mod xplane;

verus! {

/// A lifecycle or data event published to subscribers, in sequence form.
pub enum EventView {
    DeviceDetected(Seq<char>),
    SimConnected(Seq<char>),
    SimDisconnected,
    VariableChanged { name: Seq<char>, value: value::SimValue },
    CommandSent(Seq<char>),
}

/// A lifecycle or data event published to subscribers.
#[derive(Debug, Clone, PartialEq)]
pub enum Event {
    /// A newly attached hardware device, by name.
    DeviceDetected(String),
    /// A simulator connector was installed, with its status label.
    SimConnected(String),
    /// The simulator connector was removed.
    SimDisconnected,
    /// A variable changed, from either direction of the bridge.
    VariableChanged { name: String, value: value::SimValue },
    /// A command was dispatched to the simulator.
    CommandSent(String),
}

impl View for Event {
    type V = EventView;

    open spec fn view(&self) -> EventView {
        match self {
            Event::DeviceDetected(name) => EventView::DeviceDetected(name@),
            Event::SimConnected(status) => EventView::SimConnected(status@),
            Event::SimDisconnected => EventView::SimDisconnected,
            Event::VariableChanged { name, value } => EventView::VariableChanged {
                name: name@,
                value: *value,
            },
            Event::CommandSent(name) => EventView::CommandSent(name@),
        }
    }
}

impl DeepView for Event {
    type V = EventView;

    open spec fn deep_view(&self) -> EventView {
        self.view()
    }
}

/// Error taxonomy for the whole core.
#[derive(Clone, Copy, Debug, PartialEq, Eq, Structural)]
pub enum CoreError {
    /// I/O failure talking to a device or simulator.
    TransportError,
    /// Operation attempted on an absent or disconnected target.
    NotConnected,
    /// Variable or device lookup miss.
    NotFound,
    /// Malformed line or document.
    ParseError,
    /// Bounded wait exceeded.
    Timeout,
}

} // verus!
