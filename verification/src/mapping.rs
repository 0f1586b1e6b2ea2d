//! The mapping engine: pure, stateless evaluation over an immutable
//! configuration.
//!
//! Output rules are evaluated against a simulator variable snapshot and
//! produce hardware actions; input rules are evaluated against hardware
//! events and produce simulator actions.
use crate::config::{Action, Comparison, Display, InputConfig, MobiFlightProject, OutputConfig};
use crate::protocol::{Response, ResponseView};
use crate::snapshot::Snapshot;
use crate::text::{all_digits, dec_val, digit_value, is_digit_char, str_eq};
use crate::value::{literal_micros, SimValue};
use vstd::prelude::*;

verus! {

/// An action for a hardware device, in sequence form.
pub enum HardwareActionView {
    SetPin { serial: Seq<char>, pin: u8, value: u8 },
    Set7Segment { serial: Seq<char>, module: u8, index: u8, value: Seq<char> },
    SetLCD { serial: Seq<char>, display_id: u8, line: u8, text: Seq<char> },
}

/// An action for a hardware device, routed by the device's serial identity.
#[derive(Debug, Clone, PartialEq)]
pub enum HardwareAction {
    SetPin { serial: String, pin: u8, value: u8 },
    Set7Segment { serial: String, module: u8, index: u8, value: String },
    SetLCD { serial: String, display_id: u8, line: u8, text: String },
}

impl View for HardwareAction {
    type V = HardwareActionView;

    open spec fn view(&self) -> HardwareActionView {
        match self {
            HardwareAction::SetPin { serial, pin, value } => HardwareActionView::SetPin {
                serial: serial@,
                pin: *pin,
                value: *value,
            },
            HardwareAction::Set7Segment { serial, module, index, value } => {
                HardwareActionView::Set7Segment {
                    serial: serial@,
                    module: *module,
                    index: *index,
                    value: value@,
                }
            },
            HardwareAction::SetLCD { serial, display_id, line, text } => {
                HardwareActionView::SetLCD {
                    serial: serial@,
                    display_id: *display_id,
                    line: *line,
                    text: text@,
                }
            },
        }
    }
}

impl DeepView for HardwareAction {
    type V = HardwareActionView;

    open spec fn deep_view(&self) -> HardwareActionView {
        self.view()
    }
}

/// An action for the simulator, in sequence form.
pub enum SimActionView {
    Command(Seq<char>),
    WriteDataref(Seq<char>, SimValue),
    NoAction,
}

/// An action for the simulator connector.
#[derive(Debug, Clone, PartialEq)]
pub enum SimAction {
    /// Execute a named simulator command.
    Command(String),
    /// Write a value to a named simulator variable.
    WriteDataref(String, SimValue),
    /// Nothing to do: the rule named neither a command nor a variable.
    NoAction,
}

impl View for SimAction {
    type V = SimActionView;

    open spec fn view(&self) -> SimActionView {
        match self {
            SimAction::Command(cmd) => SimActionView::Command(cmd@),
            SimAction::WriteDataref(name, value) => SimActionView::WriteDataref(name@, *value),
            SimAction::NoAction => SimActionView::NoAction,
        }
    }
}

impl DeepView for SimAction {
    type V = SimActionView;

    open spec fn deep_view(&self) -> SimActionView {
        self.view()
    }
}

/// The value denoted by a literal, or `default` when it is malformed or out
/// of range.
pub open spec fn literal_or(s: Seq<char>, default: int) -> int {
    match literal_micros(s) {
        Some(v) => v,
        None => default,
    }
}

/// The value as a `SimValue`; every literal value fits.
pub open spec fn sim_of(v: int) -> SimValue {
    SimValue { micros: v as i64 }
}

/// Whether the comparison operator holds between a value and its threshold.
/// `=`/`==` is exact equality of the fixed-point representations and `!=` is
/// its strict complement; an unrecognized operator never holds.
pub open spec fn comparison_met(op: Seq<char>, val: int, target: int) -> bool {
    if op == ">"@ {
        val > target
    } else if op == "<"@ {
        val < target
    } else if op == "=="@ || op == "="@ {
        val == target
    } else if op == ">="@ {
        val >= target
    } else if op == "<="@ {
        val <= target
    } else if op == "!="@ {
        val != target
    } else {
        false
    }
}

/// The effective value after a comparison: the if-value when the operator
/// holds against the threshold, the else-value otherwise. Every malformed
/// numeric literal — threshold, if-value and else-value alike — defaults
/// to 0.
pub open spec fn apply_comparison_spec(val: int, comp: Comparison) -> int {
    let target = literal_or(comp.value@, 0);
    if comparison_met(comp.operand@, val, target) {
        literal_or(comp.if_value@, 0)
    } else {
        literal_or(comp.else_value@, 0)
    }
}

/// The pin number denoted by a digit string, or 0 when malformed.
pub open spec fn pin_number(s: Seq<char>) -> u8 {
    if s.len() > 0 && all_digits(s) && dec_val(s) <= 255 {
        dec_val(s) as u8
    } else {
        0
    }
}

/// The actions one display target emits for an effective value. An unknown
/// display kind produces no action: forward-compatible, not an error.
pub open spec fn display_actions(desc: Seq<char>, display: Display, eff: int) -> Seq<
    HardwareActionView,
> {
    if display.display_type@ == "Pin"@ {
        seq![
            HardwareActionView::SetPin {
                serial: display.serial@,
                pin: pin_number(display.pin@),
                value: sim_of(eff).pin_value_spec(),
            },
        ]
    } else if display.display_type@ == "7Segment"@ {
        seq![
            HardwareActionView::Set7Segment {
                serial: display.serial@,
                module: 0,
                index: 0,
                value: sim_of(eff).rounded_str(),
            },
        ]
    } else if display.display_type@ == "LCD"@ {
        seq![
            HardwareActionView::SetLCD {
                serial: display.serial@,
                display_id: 0,
                line: 0,
                text: desc + ": "@ + sim_of(eff).rounded_str(),
            },
        ]
    } else {
        Seq::empty()
    }
}

/// The actions one output rule emits against a snapshot. A disabled rule, a
/// rule without source or display, and a rule whose source variable is absent
/// from the snapshot all emit nothing.
pub open spec fn rule_actions(rule: OutputConfig, snap: Map<Seq<char>, SimValue>) -> Seq<
    HardwareActionView,
> {
    if !rule.active {
        Seq::empty()
    } else {
        match (rule.settings.source, rule.settings.display) {
            (Some(source), Some(display)) => {
                if snap.contains_key(source.name@) {
                    let raw = snap[source.name@].as_int();
                    let eff = match rule.settings.comparison {
                        Some(comp) => if comp.active {
                            apply_comparison_spec(raw, comp)
                        } else {
                            raw
                        },
                        None => raw,
                    };
                    display_actions(rule.description@, display, eff)
                } else {
                    Seq::empty()
                }
            },
            _ => Seq::empty(),
        }
    }
}

/// The actions a rule list emits against a snapshot, in configuration order.
pub open spec fn output_actions(rules: Seq<OutputConfig>, snap: Map<Seq<char>, SimValue>) -> Seq<
    HardwareActionView,
>
    decreases rules.len(),
{
    if rules.len() == 0 {
        Seq::empty()
    } else {
        output_actions(rules.drop_last(), snap) + rule_actions(rules.last(), snap)
    }
}

/// The simulator action one configured action denotes: the command if one is
/// named, else a write of the parsed value (default 0), else nothing.
pub open spec fn sim_action_of(a: Action) -> SimActionView {
    match a.command {
        Some(cmd) => SimActionView::Command(cmd@),
        None => match a.dataref {
            Some(dref) => {
                let v = match a.value {
                    Some(lit) => literal_or(lit@, 0),
                    None => 0,
                };
                SimActionView::WriteDataref(dref@, sim_of(v))
            },
            None => SimActionView::NoAction,
        },
    }
}

/// The simulator actions one input rule emits for an event. Button rules
/// select on-press when the raw value is `"1"`, else on-release; encoder
/// rules select on-left when it is `"0"`, else on-right.
pub open spec fn one_input_rule(rule: InputConfig, name: Seq<char>, value: Seq<char>) -> Seq<
    SimActionView,
> {
    if !rule.active || rule.description@ != name {
        Seq::empty()
    } else {
        let from_button = match rule.settings.button {
            Some(button) => {
                let selected = if value == "1"@ {
                    button.on_press
                } else {
                    button.on_release
                };
                match selected {
                    Some(a) => seq![sim_action_of(a)],
                    None => Seq::empty(),
                }
            },
            None => Seq::empty(),
        };
        let from_encoder = match rule.settings.encoder {
            Some(encoder) => {
                let selected = if value == "0"@ {
                    encoder.on_left
                } else {
                    encoder.on_right
                };
                match selected {
                    Some(a) => seq![sim_action_of(a)],
                    None => Seq::empty(),
                }
            },
            None => Seq::empty(),
        };
        from_button + from_encoder
    }
}

/// The simulator actions a rule list emits for an event, in configuration
/// order. Every matching rule fires.
pub open spec fn input_rule_actions(
    rules: Seq<InputConfig>,
    name: Seq<char>,
    value: Seq<char>,
) -> Seq<SimActionView>
    decreases rules.len(),
{
    if rules.len() == 0 {
        Seq::empty()
    } else {
        input_rule_actions(rules.drop_last(), name, value) + one_input_rule(
            rules.last(),
            name,
            value,
        )
    }
}

/// The simulator actions a response triggers: only input events participate.
pub open spec fn input_actions(rules: Seq<InputConfig>, resp: ResponseView) -> Seq<SimActionView> {
    match resp {
        ResponseView::InputEvent { name, value } => input_rule_actions(rules, name, value),
        _ => Seq::empty(),
    }
}

/// Holds a loaded configuration and evaluates its rules.
pub struct MappingEngine {
    pub project: MobiFlightProject,
}

impl MappingEngine {
    /// Wraps a loaded project.
    pub fn new(project: MobiFlightProject) -> (r: MappingEngine)
        ensures
            r.project == project,
    {
        MappingEngine { project }
    }

    /// Whether the comparison operator holds between a value and a threshold.
    pub fn comparison_holds(op: &str, val: SimValue, target: SimValue) -> (r: bool)
        ensures
            r == comparison_met(op@, val.as_int(), target.as_int()),
    {
        if str_eq(op, ">") {
            val.micros > target.micros
        } else if str_eq(op, "<") {
            val.micros < target.micros
        } else if str_eq(op, "==") || str_eq(op, "=") {
            val.micros == target.micros
        } else if str_eq(op, ">=") {
            val.micros >= target.micros
        } else if str_eq(op, "<=") {
            val.micros <= target.micros
        } else if str_eq(op, "!=") {
            val.micros != target.micros
        } else {
            false
        }
    }

    /// Applies a comparison to a value.
    pub fn apply_comparison(&self, val: SimValue, comp: &Comparison) -> (r: SimValue)
        ensures
            r == sim_of(apply_comparison_spec(val.as_int(), *comp)),
    {
        let target = SimValue::parse_or(comp.value.as_str(), SimValue::zero());
        if Self::comparison_holds(comp.operand.as_str(), val, target) {
            SimValue::parse_or(comp.if_value.as_str(), SimValue::zero())
        } else {
            SimValue::parse_or(comp.else_value.as_str(), SimValue::zero())
        }
    }

    /// Parses a pin number, defaulting to 0 when malformed.
    #[verifier::loop_isolation(false)]
    pub fn parse_pin(s: &str) -> (r: u8)
        ensures
            r == pin_number(s@),
    {
        let n = s.unicode_len();
        if n == 0 {
            return 0;
        }
        let mut acc: u32 = 0;
        let mut k: usize = 0;
        while k < n
            invariant
                k <= n,
                all_digits(s@.take(k as int)),
                acc == dec_val(s@.take(k as int)),
                acc <= 255,
            decreases n - k,
        {
            let c = s.get_char(k);
            proof {
                assert(s@.take(k as int + 1).drop_last() =~= s@.take(k as int));
                assert(s@.take(k as int + 1).last() == s@[k as int]);
            }
            if !is_digit_char(c) {
                proof {
                    assert(!all_digits(s@));
                }
                return 0;
            }
            let d = digit_value(c);
            let next = acc * 10 + d;
            if next > 255 {
                proof {
                    if all_digits(s@) {
                        crate::text::lemma_dec_val_prefix_le(s@, k as int + 1);
                    }
                }
                return 0;
            }
            acc = next;
            k += 1;
        }
        proof {
            assert(s@.take(n as int) =~= s@);
        }
        acc as u8
    }

    /// Evaluates every enabled output rule against a snapshot and returns the
    /// hardware actions to dispatch, in configuration order.
    #[verifier::loop_isolation(false)]
    pub fn process_outputs(&self, data: &Snapshot) -> (r: Vec<HardwareAction>)
        requires
            data.wf(),
        ensures
            r.deep_view() == output_actions(self.project.outputs.config@, data@),
    {
        let rules = &self.project.outputs.config;
        let mut actions: Vec<HardwareAction> = Vec::new();
        let mut i: usize = 0;
        while i < rules.len()
            invariant
                i <= rules@.len(),
                actions.deep_view() =~= output_actions(rules@.take(i as int), data@),
            decreases rules@.len() - i,
        {
            let ghost prev = actions.deep_view();
            let rule = &rules[i];
            if rule.active {
                match (&rule.settings.source, &rule.settings.display) {
                    (Some(source), Some(display)) => {
                        match data.lookup(source.name.as_str()) {
                            Some(raw) => {
                                let eff = match &rule.settings.comparison {
                                    Some(comp) => {
                                        if comp.active {
                                            self.apply_comparison(raw, comp)
                                        } else {
                                            raw
                                        }
                                    },
                                    None => raw,
                                };
                                proof {
                                    assert(eff == sim_of(
                                        match rule.settings.comparison {
                                            Some(comp) => if comp.active {
                                                apply_comparison_spec(raw.as_int(), comp)
                                            } else {
                                                raw.as_int()
                                            },
                                            None => raw.as_int(),
                                        },
                                    ));
                                }
                                if str_eq(display.display_type.as_str(), "Pin") {
                                    actions.push(
                                        HardwareAction::SetPin {
                                            serial: display.serial.clone(),
                                            pin: Self::parse_pin(display.pin.as_str()),
                                            value: eff.to_pin_value(),
                                        },
                                    );
                                } else if str_eq(display.display_type.as_str(), "7Segment") {
                                    actions.push(
                                        HardwareAction::Set7Segment {
                                            serial: display.serial.clone(),
                                            module: 0,
                                            index: 0,
                                            value: eff.to_rounded_string(),
                                        },
                                    );
                                } else if str_eq(display.display_type.as_str(), "LCD") {
                                    proof {
                                        reveal_strlit(": ");
                                    }
                                    let mut text = rule.description.clone();
                                    text.append(": ");
                                    text.append(eff.to_rounded_string().as_str());
                                    proof {
                                        assert(text@ =~= rule.description@ + ": "@
                                            + eff.rounded_str());
                                    }
                                    actions.push(
                                        HardwareAction::SetLCD {
                                            serial: display.serial.clone(),
                                            display_id: 0,
                                            line: 0,
                                            text,
                                        },
                                    );
                                }
                            },
                            None => {},
                        }
                    },
                    _ => {},
                }
            }
            proof {
                assert(rules@.take(i as int + 1).drop_last() =~= rules@.take(i as int));
                assert(rules@.take(i as int + 1).last() == rules@[i as int]);
                assert(actions.deep_view() =~= prev + rule_actions(rules@[i as int], data@));
            }
            i += 1;
        }
        proof {
            assert(rules@.take(rules@.len() as int) =~= rules@);
            assert(actions.deep_view() =~= output_actions(self.project.outputs.config@, data@));
        }
        actions
    }

    /// Translates one configured action into a simulator action.
    pub fn create_sim_action(&self, action: &Action) -> (r: SimAction)
        ensures
            r@ == sim_action_of(*action),
    {
        match &action.command {
            Some(cmd) => SimAction::Command(cmd.clone()),
            None => match &action.dataref {
                Some(dref) => {
                    let v = match &action.value {
                        Some(lit) => SimValue::parse_or(lit.as_str(), SimValue::zero()),
                        None => SimValue::zero(),
                    };
                    SimAction::WriteDataref(dref.clone(), v)
                },
                None => SimAction::NoAction,
            },
        }
    }

    /// Evaluates every enabled input rule against a hardware event and
    /// returns the simulator actions to dispatch, in configuration order.
    /// Every matching rule fires.
    #[verifier::loop_isolation(false)]
    pub fn process_inputs(&self, resp: &Response) -> (r: Vec<SimAction>)
        ensures
            r.deep_view() == input_actions(self.project.inputs.config@, resp@),
    {
        let mut actions: Vec<SimAction> = Vec::new();
        match resp {
            Response::InputEvent { name, value } => {
                let rules = &self.project.inputs.config;
                let mut i: usize = 0;
                while i < rules.len()
                    invariant
                        i <= rules@.len(),
                        actions.deep_view() =~= input_rule_actions(
                            rules@.take(i as int),
                            name@,
                            value@,
                        ),
                    decreases rules@.len() - i,
                {
                    let ghost prev = actions.deep_view();
                    let rule = &rules[i];
                    if rule.active && str_eq(rule.description.as_str(), name.as_str()) {
                        match &rule.settings.button {
                            Some(button) => {
                                let selected = if str_eq(value.as_str(), "1") {
                                    &button.on_press
                                } else {
                                    &button.on_release
                                };
                                match selected {
                                    Some(a) => {
                                        actions.push(self.create_sim_action(a));
                                    },
                                    None => {},
                                }
                            },
                            None => {},
                        }
                        match &rule.settings.encoder {
                            Some(encoder) => {
                                let selected = if str_eq(value.as_str(), "0") {
                                    &encoder.on_left
                                } else {
                                    &encoder.on_right
                                };
                                match selected {
                                    Some(a) => {
                                        actions.push(self.create_sim_action(a));
                                    },
                                    None => {},
                                }
                            },
                            None => {},
                        }
                    }
                    proof {
                        assert(rules@.take(i as int + 1).drop_last() =~= rules@.take(i as int));
                        assert(rules@.take(i as int + 1).last() == rules@[i as int]);
                        assert(actions.deep_view() =~= prev + one_input_rule(
                            rules@[i as int],
                            name@,
                            value@,
                        ));
                    }
                    i += 1;
                }
                proof {
                    assert(rules@.take(rules@.len() as int) =~= rules@);
                    assert(actions.deep_view() =~= input_actions(
                        self.project.inputs.config@,
                        resp@,
                    ));
                }
            },
            _ => {
                proof {
                    assert(actions.deep_view() =~= input_actions(
                        self.project.inputs.config@,
                        resp@,
                    ));
                }
            },
        }
        actions
    }
}

/// A disabled output rule never produces an action: the actions of a rule
/// list with a disabled rule are exactly those of the list without it,
/// whatever the snapshot holds.
pub proof fn lemma_disabled_output_rule_no_action(
    rules: Seq<OutputConfig>,
    snap: Map<Seq<char>, SimValue>,
    i: int,
)
    requires
        0 <= i < rules.len(),
        !rules[i].active,
    ensures
        output_actions(rules, snap) == output_actions(rules.remove(i), snap),
    decreases rules.len(),
{
    if i == rules.len() - 1 {
        assert(rules.remove(i) =~= rules.drop_last());
        assert(rule_actions(rules.last(), snap) =~= Seq::empty());
        assert(output_actions(rules, snap) =~= output_actions(rules.drop_last(), snap));
    } else {
        lemma_disabled_output_rule_no_action(rules.drop_last(), snap, i);
        assert(rules.remove(i).drop_last() =~= rules.drop_last().remove(i));
        assert(rules.remove(i).last() == rules.last());
        assert(output_actions(rules, snap) =~= output_actions(rules.remove(i), snap));
    }
}

/// A disabled input rule never produces an action: the actions of a rule
/// list with a disabled rule are exactly those of the list without it,
/// whatever event arrives.
pub proof fn lemma_disabled_input_rule_no_action(
    rules: Seq<InputConfig>,
    name: Seq<char>,
    value: Seq<char>,
    i: int,
)
    requires
        0 <= i < rules.len(),
        !rules[i].active,
    ensures
        input_rule_actions(rules, name, value) == input_rule_actions(rules.remove(i), name, value),
    decreases rules.len(),
{
    if i == rules.len() - 1 {
        assert(rules.remove(i) =~= rules.drop_last());
        assert(one_input_rule(rules.last(), name, value) =~= Seq::empty());
        assert(input_rule_actions(rules, name, value) =~= input_rule_actions(
            rules.drop_last(),
            name,
            value,
        ));
    } else {
        lemma_disabled_input_rule_no_action(rules.drop_last(), name, value, i);
        assert(rules.remove(i).drop_last() =~= rules.drop_last().remove(i));
        assert(rules.remove(i).last() == rules.last());
        assert(input_rule_actions(rules, name, value) =~= input_rule_actions(
            rules.remove(i),
            name,
            value,
        ));
    }
}

} // verus!
