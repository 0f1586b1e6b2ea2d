//! Per-tick orchestration decisions.
//!
//! One tick pulls hardware events, pulls a simulator snapshot, runs the
//! mapping engine in both directions, and dispatches the resulting actions.
//! The lock handling, the timers and the I/O live with the caller; this
//! module decides the ordering of events, the events to broadcast, the
//! simulator actions to dispatch, and which device receives each hardware
//! action.
use crate::mapping::{
    input_actions, sim_of, HardwareAction, MappingEngine, SimAction, SimActionView,
};
use crate::protocol::{Command, Response, ResponseView};
use crate::value::SimValue;
use crate::{Event, EventView};
use vstd::prelude::*;

verus! {

/// Injected events come first: externally injected hardware responses are
/// consumed ahead of real device events in the same tick, so test and demo
/// triggers preempt real hardware.
pub fn merge_event_queues(
    injected: Vec<(String, Response)>,
    polled: Vec<(String, Response)>,
) -> (r: Vec<(String, Response)>)
    ensures
        r@ == injected@ + polled@,
{
    let mut r = injected;
    let mut rest = polled;
    r.append(&mut rest);
    r
}

/// The broadcast events one hardware response produces: an input event
/// publishes the changed variable under `device:label`, with its raw value
/// parsed (default 0); other responses publish nothing.
pub open spec fn response_events(device: Seq<char>, resp: ResponseView) -> Seq<EventView> {
    match resp {
        ResponseView::InputEvent { name, value } => seq![
            EventView::VariableChanged {
                name: device + ":"@ + name,
                value: sim_of(crate::mapping::literal_or(value, 0)),
            },
        ],
        _ => Seq::empty(),
    }
}

/// The broadcast events of a tick's hardware responses, in arrival order.
pub open spec fn responses_events(responses: Seq<(String, Response)>) -> Seq<EventView>
    decreases responses.len(),
{
    if responses.len() == 0 {
        Seq::empty()
    } else {
        responses_events(responses.drop_last()) + response_events(
            responses.last().0@,
            responses.last().1@,
        )
    }
}

/// The simulator actions of a tick's hardware responses, in arrival order:
/// each response runs through the input rules.
pub open spec fn responses_actions(
    rules: Seq<crate::config::InputConfig>,
    responses: Seq<(String, Response)>,
) -> Seq<SimActionView>
    decreases responses.len(),
{
    if responses.len() == 0 {
        Seq::empty()
    } else {
        responses_actions(rules, responses.drop_last()) + input_actions(
            rules,
            responses.last().1@,
        )
    }
}

/// Runs a tick's hardware responses through the input rules: the events to
/// broadcast and the simulator actions to dispatch, in arrival order.
/// Individual dispatch failures are the caller's to log and drop — they never
/// abort the tick.
#[verifier::loop_isolation(false)]
pub fn hardware_sync_actions(engine: &MappingEngine, responses: &Vec<(String, Response)>) -> (r: (
    Vec<Event>,
    Vec<SimAction>,
))
    ensures
        r.0.deep_view() == responses_events(responses@),
        r.1.deep_view() == responses_actions(engine.project.inputs.config@, responses@),
{
    let ghost rules = engine.project.inputs.config@;
    let mut events: Vec<Event> = Vec::new();
    let mut actions: Vec<SimAction> = Vec::new();
    let mut i: usize = 0;
    while i < responses.len()
        invariant
            i <= responses@.len(),
            events.deep_view() =~= responses_events(responses@.take(i as int)),
            actions.deep_view() =~= responses_actions(rules, responses@.take(i as int)),
        decreases responses@.len() - i,
    {
        let ghost prev_events = events.deep_view();
        let ghost prev_actions = actions.deep_view();
        let entry = &responses[i];
        match &entry.1 {
            Response::InputEvent { name, value } => {
                proof {
                    reveal_strlit(":");
                }
                let mut label = entry.0.clone();
                label.append(":");
                label.append(name.as_str());
                proof {
                    assert(label@ =~= entry.0@ + ":"@ + name@);
                }
                let raw = SimValue::parse_or(value.as_str(), SimValue::zero());
                events.push(Event::VariableChanged { name: label, value: raw });
            },
            _ => {},
        }
        let mut part = engine.process_inputs(&entry.1);
        let ghost part_view = part.deep_view();
        actions.append(&mut part);
        proof {
            assert(responses@.take(i as int + 1).drop_last() =~= responses@.take(i as int));
            assert(responses@.take(i as int + 1).last() == responses@[i as int]);
            assert(events.deep_view() =~= prev_events + response_events(
                responses@[i as int].0@,
                responses@[i as int].1@,
            ));
            assert(actions.deep_view() =~= prev_actions + part_view);
        }
        i += 1;
    }
    proof {
        assert(responses@.take(responses@.len() as int) =~= responses@);
    }
    (events, actions)
}

/// The position of the first device carrying `serial`, or `-1`.
pub open spec fn find_serial(serials: Seq<String>, serial: Seq<char>) -> int
    decreases serials.len(),
{
    if serials.len() == 0 {
        -1
    } else if serials[0]@ == serial {
        0
    } else {
        let r = find_serial(serials.drop_first(), serial);
        if r < 0 {
            -1
        } else {
            r + 1
        }
    }
}

proof fn lemma_find_serial_at(serials: Seq<String>, k: int)
    requires
        0 <= k < serials.len(),
        forall|j: int| 0 <= j < k ==> (#[trigger] serials[j]@) != serials[k]@,
    ensures
        find_serial(serials, serials[k]@) == k,
    decreases k,
{
    if k > 0 {
        lemma_find_serial_at(serials.drop_first(), k - 1);
    }
}

proof fn lemma_find_serial_none(serials: Seq<String>, serial: Seq<char>)
    requires
        forall|j: int| 0 <= j < serials.len() ==> (#[trigger] serials[j]@) != serial,
    ensures
        find_serial(serials, serial) == -1,
    decreases serials.len(),
{
    if serials.len() > 0 {
        lemma_find_serial_none(serials.drop_first(), serial);
    }
}

/// The serial identity a hardware action is addressed to.
pub open spec fn action_serial(a: HardwareAction) -> Seq<char> {
    match a {
        HardwareAction::SetPin { serial, .. } => serial@,
        HardwareAction::Set7Segment { serial, .. } => serial@,
        HardwareAction::SetLCD { serial, .. } => serial@,
    }
}

/// The routed commands of a tick: each action goes to the first device whose
/// serial matches; actions addressed to no known device are skipped.
pub open spec fn route_spec(actions: Seq<HardwareAction>, serials: Seq<String>) -> Seq<
    (usize, Command),
>
    decreases actions.len(),
{
    if actions.len() == 0 {
        Seq::empty()
    } else {
        let k = find_serial(serials, action_serial(actions.last()));
        route_spec(actions.drop_last(), serials) + if 0 <= k < serials.len() {
            seq![(k as usize, crate::device::command_of_action(actions.last()))]
        } else {
            Seq::empty()
        }
    }
}

/// Routes a tick's hardware actions to devices by serial identity. Each
/// returned pair is the position of the receiving device and the command to
/// send it.
#[verifier::loop_isolation(false)]
pub fn route_actions(actions: &Vec<HardwareAction>, serials: &Vec<String>) -> (r: Vec<
    (usize, Command),
>)
    ensures
        r@ == route_spec(actions@, serials@),
{
    let mut routed: Vec<(usize, Command)> = Vec::new();
    let mut i: usize = 0;
    while i < actions.len()
        invariant
            i <= actions@.len(),
            routed@ =~= route_spec(actions@.take(i as int), serials@),
        decreases actions@.len() - i,
    {
        let ghost prev = routed@;
        let action = &actions[i];
        let serial: &String = match action {
            HardwareAction::SetPin { serial, .. } => serial,
            HardwareAction::Set7Segment { serial, .. } => serial,
            HardwareAction::SetLCD { serial, .. } => serial,
        };
        let mut k: usize = 0;
        let mut matched = false;
        while k < serials.len() && !matched
            invariant
                k <= serials@.len(),
                !matched ==> forall|j: int| 0 <= j < k ==> (#[trigger] serials@[j]@) != serial@,
                matched ==> k < serials@.len() && serials@[k as int]@ == serial@ && find_serial(
                    serials@,
                    serial@,
                ) == k,
            decreases serials@.len() - k, (if matched {
                0int
            } else {
                1int
            }),
        {
            if crate::text::str_eq(serials[k].as_str(), serial.as_str()) {
                proof {
                    lemma_find_serial_at(serials@, k as int);
                }
                matched = true;
            } else {
                k += 1;
            }
        }
        if matched {
            routed.push((k, crate::device::action_command(action)));
        } else {
            proof {
                lemma_find_serial_none(serials@, serial@);
            }
        }
        proof {
            assert(actions@.take(i as int + 1).drop_last() =~= actions@.take(i as int));
            assert(actions@.take(i as int + 1).last() == actions@[i as int]);
            assert(routed@ =~= route_spec(actions@.take(i as int + 1), serials@));
        }
        i += 1;
    }
    proof {
        assert(actions@.take(actions@.len() as int) =~= actions@);
    }
    routed
}

/// Whether some known device already carries this name.
pub open spec fn knows_name(known: Seq<String>, name: Seq<char>) -> bool {
    exists|i: int| 0 <= i < known.len() && (#[trigger] known[i]@) == name
}

/// The ports not yet tracked, in scan order.
pub open spec fn fresh_ports(known: Seq<String>, ports: Seq<String>) -> Seq<String>
    decreases ports.len(),
{
    if ports.len() == 0 {
        Seq::empty()
    } else {
        fresh_ports(known, ports.drop_last()) + if knows_name(known, ports.last()@) {
            Seq::empty()
        } else {
            seq![ports.last()]
        }
    }
}

/// Picks the scanned ports that no tracked device claims yet: only newly
/// seen ports are opened, in scan order.
#[verifier::loop_isolation(false)]
pub fn new_ports(known: &Vec<String>, ports: &Vec<String>) -> (r: Vec<String>)
    ensures
        r@ == fresh_ports(known@, ports@),
{
    let mut fresh: Vec<String> = Vec::new();
    let mut i: usize = 0;
    while i < ports.len()
        invariant
            i <= ports@.len(),
            fresh@ =~= fresh_ports(known@, ports@.take(i as int)),
        decreases ports@.len() - i,
    {
        let ghost prev = fresh@;
        let port = &ports[i];
        let mut k: usize = 0;
        let mut seen = false;
        while k < known.len() && !seen
            invariant
                k <= known@.len(),
                !seen ==> forall|j: int| 0 <= j < k ==> (#[trigger] known@[j]@) != port@,
                seen ==> knows_name(known@, port@),
            decreases known@.len() - k, (if seen {
                0int
            } else {
                1int
            }),
        {
            if crate::text::str_eq(known[k].as_str(), port.as_str()) {
                seen = true;
            } else {
                k += 1;
            }
        }
        if !seen {
            fresh.push(port.clone());
        }
        proof {
            if !seen {
                assert(!knows_name(known@, port@));
            }
            assert(ports@.take(i as int + 1).drop_last() =~= ports@.take(i as int));
            assert(ports@.take(i as int + 1).last() == ports@[i as int]);
            assert(fresh@ =~= fresh_ports(known@, ports@.take(i as int + 1)));
        }
        i += 1;
    }
    proof {
        assert(ports@.take(ports@.len() as int) =~= ports@);
    }
    fresh
}

} // verus!
