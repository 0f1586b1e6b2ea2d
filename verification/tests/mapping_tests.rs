use openflite::config::{
    Action, ButtonAction, Comparison, ConfigSettings, Display, EncoderAction, InputConfig,
    Inputs, InputSettings, MobiFlightProject, OutputConfig, Outputs, Source,
};
use openflite::mapping::{HardwareAction, MappingEngine, SimAction};
use openflite::protocol::Response;
use openflite::snapshot::Snapshot;
use openflite::value::SimValue;

fn pin_rule(source: &str, operand: &str, threshold: &str, pin: &str) -> OutputConfig {
    OutputConfig {
        guid: "g1".to_string(),
        active: true,
        description: "Pitch Light".to_string(),
        settings: ConfigSettings {
            source: Some(Source {
                source_type: "SimConnect".to_string(),
                name: source.to_string(),
            }),
            comparison: Some(Comparison {
                active: true,
                value: threshold.to_string(),
                operand: operand.to_string(),
                if_value: "1".to_string(),
                else_value: "0".to_string(),
            }),
            display: Some(Display {
                display_type: "Pin".to_string(),
                serial: "SN-1".to_string(),
                trigger: "change".to_string(),
                pin: pin.to_string(),
            }),
        },
    }
}

fn project_with_outputs(rules: Vec<OutputConfig>) -> MobiFlightProject {
    MobiFlightProject {
        outputs: Outputs { config: rules },
        inputs: Inputs { config: vec![] },
    }
}

fn button_rule(label: &str, on_press: Option<Action>, on_release: Option<Action>) -> InputConfig {
    InputConfig {
        guid: "g2".to_string(),
        active: true,
        description: label.to_string(),
        settings: InputSettings {
            button: Some(ButtonAction {
                on_press,
                on_release,
            }),
            encoder: None,
        },
    }
}

fn command_action(name: &str) -> Action {
    Action {
        action_type: "XplaneAction".to_string(),
        command: Some(name.to_string()),
        dataref: None,
        value: None,
    }
}

fn input_event(label: &str, value: &str) -> Response {
    Response::InputEvent {
        name: label.to_string(),
        value: value.to_string(),
    }
}

#[test]
fn output_rule_above_threshold_sets_pin_high() {
    let engine = MappingEngine::new(project_with_outputs(vec![pin_rule("alt", ">", "1000", "13")]));
    let mut snap = Snapshot::new();
    snap.set("alt", SimValue::from_units(1200));
    let actions = engine.process_outputs(&snap);
    assert_eq!(
        actions,
        vec![HardwareAction::SetPin {
            serial: "SN-1".to_string(),
            pin: 13,
            value: 1,
        }]
    );
}

#[test]
fn output_rule_below_threshold_sets_pin_low() {
    let engine = MappingEngine::new(project_with_outputs(vec![pin_rule("alt", ">", "1000", "13")]));
    let mut snap = Snapshot::new();
    snap.set("alt", SimValue::from_units(800));
    let actions = engine.process_outputs(&snap);
    assert_eq!(
        actions,
        vec![HardwareAction::SetPin {
            serial: "SN-1".to_string(),
            pin: 13,
            value: 0,
        }]
    );
}

#[test]
fn disabled_output_rule_never_fires() {
    let mut rule = pin_rule("alt", ">", "1000", "13");
    rule.active = false;
    let engine = MappingEngine::new(project_with_outputs(vec![rule]));
    let mut snap = Snapshot::new();
    snap.set("alt", SimValue::from_units(1200));
    assert!(engine.process_outputs(&snap).is_empty());
}

#[test]
fn absent_source_variable_produces_no_action() {
    let engine = MappingEngine::new(project_with_outputs(vec![pin_rule("alt", ">", "1000", "13")]));
    let snap = Snapshot::new();
    assert!(engine.process_outputs(&snap).is_empty());
}

#[test]
fn unknown_display_kind_produces_no_action() {
    let mut rule = pin_rule("alt", ">", "1000", "13");
    rule.settings.display.as_mut().unwrap().display_type = "Hologram".to_string();
    let engine = MappingEngine::new(project_with_outputs(vec![rule]));
    let mut snap = Snapshot::new();
    snap.set("alt", SimValue::from_units(1200));
    assert!(engine.process_outputs(&snap).is_empty());
}

#[test]
fn comparison_operators_at_and_near_threshold() {
    let v = |units: i64| SimValue::from_units(units);
    let holds = MappingEngine::comparison_holds;
    assert!(!holds(">", v(1000), v(1000)));
    assert!(holds(">", v(1001), v(1000)));
    assert!(!holds("<", v(1000), v(1000)));
    assert!(holds("<", v(999), v(1000)));
    assert!(holds(">=", v(1000), v(1000)));
    assert!(holds(">=", v(1001), v(1000)));
    assert!(!holds(">=", v(999), v(1000)));
    assert!(holds("<=", v(1000), v(1000)));
    assert!(!holds("<=", v(1001), v(1000)));
    assert!(holds("==", v(1000), v(1000)));
    assert!(!holds("==", v(1001), v(1000)));
    assert!(holds("=", v(1000), v(1000)));
    assert!(!holds("!=", v(1000), v(1000)));
    assert!(holds("!=", v(1001), v(1000)));
    assert!(!holds("<>", v(1001), v(1000)));
}

#[test]
fn equality_is_exact_at_micro_resolution() {
    let a = SimValue::from_micros(1_000_000_001);
    let b = SimValue::from_micros(1_000_000_000);
    assert!(!MappingEngine::comparison_holds("==", a, b));
    assert!(MappingEngine::comparison_holds("!=", a, b));
}

#[test]
fn button_press_fires_command() {
    let project = MobiFlightProject {
        outputs: Outputs { config: vec![] },
        inputs: Inputs {
            config: vec![button_rule("GearToggle", Some(command_action("gear_unsafe")), None)],
        },
    };
    let engine = MappingEngine::new(project);
    let actions = engine.process_inputs(&input_event("GearToggle", "1"));
    assert_eq!(actions, vec![SimAction::Command("gear_unsafe".to_string())]);
}

#[test]
fn button_release_without_action_fires_nothing() {
    let project = MobiFlightProject {
        outputs: Outputs { config: vec![] },
        inputs: Inputs {
            config: vec![button_rule("GearToggle", Some(command_action("gear_unsafe")), None)],
        },
    };
    let engine = MappingEngine::new(project);
    assert!(engine.process_inputs(&input_event("GearToggle", "0")).is_empty());
}

#[test]
fn disabled_input_rule_never_fires() {
    let mut rule = button_rule("GearToggle", Some(command_action("gear_unsafe")), None);
    rule.active = false;
    let project = MobiFlightProject {
        outputs: Outputs { config: vec![] },
        inputs: Inputs { config: vec![rule] },
    };
    let engine = MappingEngine::new(project);
    assert!(engine.process_inputs(&input_event("GearToggle", "1")).is_empty());
}

#[test]
fn encoder_selects_direction_by_value() {
    let rule = InputConfig {
        guid: "g3".to_string(),
        active: true,
        description: "Heading".to_string(),
        settings: InputSettings {
            button: None,
            encoder: Some(EncoderAction {
                on_left: Some(command_action("hdg_down")),
                on_right: Some(command_action("hdg_up")),
            }),
        },
    };
    let project = MobiFlightProject {
        outputs: Outputs { config: vec![] },
        inputs: Inputs { config: vec![rule] },
    };
    let engine = MappingEngine::new(project);
    assert_eq!(
        engine.process_inputs(&input_event("Heading", "0")),
        vec![SimAction::Command("hdg_down".to_string())]
    );
    assert_eq!(
        engine.process_inputs(&input_event("Heading", "1")),
        vec![SimAction::Command("hdg_up".to_string())]
    );
}

#[test]
fn dataref_write_parses_value_with_zero_default() {
    let write = Action {
        action_type: "XplaneAction".to_string(),
        command: None,
        dataref: Some("sim/x".to_string()),
        value: Some("2.5".to_string()),
    };
    let project = MobiFlightProject {
        outputs: Outputs { config: vec![] },
        inputs: Inputs {
            config: vec![button_rule("Btn", Some(write), None)],
        },
    };
    let engine = MappingEngine::new(project);
    let actions = engine.process_inputs(&input_event("Btn", "1"));
    assert_eq!(
        actions,
        vec![SimAction::WriteDataref("sim/x".to_string(), SimValue::from_micros(2_500_000))]
    );
}

#[test]
fn seven_segment_and_lcd_render_rounded_values() {
    let mut seg_rule = pin_rule("rpm", ">", "0", "1");
    seg_rule.settings.comparison = None;
    seg_rule.settings.display.as_mut().unwrap().display_type = "7Segment".to_string();
    let mut lcd_rule = seg_rule.clone();
    lcd_rule.settings.display.as_mut().unwrap().display_type = "LCD".to_string();
    let engine = MappingEngine::new(project_with_outputs(vec![seg_rule, lcd_rule]));
    let mut snap = Snapshot::new();
    snap.set("rpm", SimValue::from_micros(2_500_500_000));
    let actions = engine.process_outputs(&snap);
    // An exact half rounds to the even neighbour.
    assert_eq!(
        actions,
        vec![
            HardwareAction::Set7Segment {
                serial: "SN-1".to_string(),
                module: 0,
                index: 0,
                value: "2500".to_string(),
            },
            HardwareAction::SetLCD {
                serial: "SN-1".to_string(),
                display_id: 0,
                line: 0,
                text: "Pitch Light: 2500".to_string(),
            },
        ]
    );
}

#[test]
fn unparsable_if_value_defaults_to_zero() {
    let mut rule = pin_rule("alt", ">", "1000", "13");
    rule.settings.comparison.as_mut().unwrap().if_value = "high".to_string();
    let engine = MappingEngine::new(project_with_outputs(vec![rule]));
    let mut snap = Snapshot::new();
    snap.set("alt", SimValue::from_units(1200));
    // The condition holds, but the malformed if-value falls back to 0.
    assert_eq!(
        engine.process_outputs(&snap),
        vec![HardwareAction::SetPin {
            serial: "SN-1".to_string(),
            pin: 13,
            value: 0,
        }]
    );
}

#[test]
fn exponent_threshold_literals_are_read() {
    let engine = MappingEngine::new(project_with_outputs(vec![pin_rule("alt", ">", "1e3", "13")]));
    let mut snap = Snapshot::new();
    snap.set("alt", SimValue::from_units(1200));
    assert_eq!(
        engine.process_outputs(&snap),
        vec![HardwareAction::SetPin {
            serial: "SN-1".to_string(),
            pin: 13,
            value: 1,
        }]
    );
}

#[test]
fn malformed_pin_and_literals_default_to_zero() {
    let rule = pin_rule("alt", ">", "not-a-number", "pin13");
    let engine = MappingEngine::new(project_with_outputs(vec![rule]));
    let mut snap = Snapshot::new();
    snap.set("alt", SimValue::from_units(5));
    // Threshold falls back to 0, so 5 > 0 selects the if-value 1; the
    // unparsable pin falls back to 0.
    assert_eq!(
        engine.process_outputs(&snap),
        vec![HardwareAction::SetPin {
            serial: "SN-1".to_string(),
            pin: 0,
            value: 1,
        }]
    );
}
