//! The synthetic connector: a demo simulator without hardware or network.
//!
//! An internal counter advances once per poll; the snapshot synthesizes a few
//! example variables as deterministic functions of the counter.
use crate::snapshot::Snapshot;
use crate::value::SimValue;
use crate::CoreError;
use vstd::prelude::*;

verus! {

/// The synthetic altitude: 1000 units plus a tenth of a unit per poll.
pub open spec fn demo_altitude(t: u32) -> SimValue {
    SimValue { micros: (1_000_000_000 + 100_000 * t) as i64 }
}

/// The synthetic gear handle: down for half of every 200-poll cycle.
pub open spec fn demo_gear(t: u32) -> SimValue {
    SimValue {
        micros: if t % 200 > 100 {
            1_000_000
        } else {
            0
        },
    }
}

/// The synthetic engine speed: 2500 units plus a sawtooth wave of amplitude
/// 100 units over every 200-poll cycle.
pub open spec fn demo_rpm(t: u32) -> SimValue {
    SimValue { micros: (2_500_000_000 + (t % 200 - 100) * 1_000_000) as i64 }
}

/// The snapshot the synthetic connector serves after `t` polls.
pub open spec fn demo_snapshot(t: u32) -> Map<Seq<char>, SimValue> {
    Map::<Seq<char>, SimValue>::empty().insert(
        "sim/flightmodel/position/altitude"@,
        demo_altitude(t),
    ).insert("sim/cockpit2/controls/gear_handle_down"@, demo_gear(t)).insert(
        "sim/flightmodel/engine/ENGN_RPM[0]"@,
        demo_rpm(t),
    )
}

/// A simulator stand-in for demonstration and testing: no hardware, no
/// network, deterministic values.
#[derive(Debug)]
pub struct DummyClient {
    /// Whether `connect` has been called.
    pub connected: bool,
    /// How many polls have run while connected.
    pub counter: u32,
}

impl DummyClient {
    /// A fresh, unconnected synthetic connector.
    pub fn new() -> (r: DummyClient)
        ensures
            !r.connected,
            r.counter == 0,
    {
        DummyClient { connected: false, counter: 0 }
    }

    /// Connects; never fails.
    pub fn connect(&mut self) -> (r: Result<(), CoreError>)
        ensures
            final(self).connected,
            final(self).counter == old(self).counter,
            r == Ok::<(), CoreError>(()),
    {
        self.connected = true;
        Ok(())
    }

    /// Disconnects; never fails.
    pub fn disconnect(&mut self) -> (r: Result<(), CoreError>)
        ensures
            !final(self).connected,
            final(self).counter == old(self).counter,
            r == Ok::<(), CoreError>(()),
    {
        self.connected = false;
        Ok(())
    }

    /// Every variable reads as zero.
    pub fn read_variable(&self, variable: &str) -> (r: Result<SimValue, CoreError>)
        ensures
            r == Ok::<SimValue, CoreError>(SimValue { micros: 0 }),
    {
        let _ = variable;
        Ok(SimValue { micros: 0 })
    }

    /// Writes are accepted and discarded.
    pub fn write_variable(&mut self, variable: &str, value: SimValue) -> (r: Result<(), CoreError>)
        ensures
            *final(self) == *old(self),
            r == Ok::<(), CoreError>(()),
    {
        let _ = variable;
        let _ = value;
        Ok(())
    }

    /// Commands are accepted and discarded.
    pub fn execute_command(&mut self, command: &str) -> (r: Result<(), CoreError>)
        ensures
            *final(self) == *old(self),
            r == Ok::<(), CoreError>(()),
    {
        let _ = command;
        Ok(())
    }

    /// Advances the counter by one while connected; wraps at the limit.
    pub fn poll(&mut self) -> (r: Result<(), CoreError>)
        ensures
            final(self).connected == old(self).connected,
            old(self).connected ==> final(self).counter == (if old(self).counter == u32::MAX {
                0u32
            } else {
                (old(self).counter + 1) as u32
            }),
            !old(self).connected ==> final(self).counter == old(self).counter,
            r == Ok::<(), CoreError>(()),
    {
        if self.connected {
            self.counter = self.counter.wrapping_add(1);
        }
        Ok(())
    }

    /// The synthetic snapshot: empty while disconnected, else the example
    /// variables as functions of the poll counter.
    pub fn get_all_variables(&self) -> (r: Snapshot)
        ensures
            r.wf(),
            self.connected ==> r@ == demo_snapshot(self.counter),
            !self.connected ==> r@ == Map::<Seq<char>, SimValue>::empty(),
    {
        let mut vars = Snapshot::new();
        if self.connected {
            let t = self.counter;
            vars.set(
                "sim/flightmodel/position/altitude",
                SimValue { micros: 1_000_000_000 + 100_000 * (t as i64) },
            );
            vars.set(
                "sim/cockpit2/controls/gear_handle_down",
                SimValue {
                    micros: if t % 200 > 100 {
                        1_000_000
                    } else {
                        0
                    },
                },
            );
            vars.set(
                "sim/flightmodel/engine/ENGN_RPM[0]",
                SimValue { micros: 2_500_000_000 + ((t % 200) as i64 - 100) * 1_000_000 },
            );
        }
        vars
    }
}

} // verus!
