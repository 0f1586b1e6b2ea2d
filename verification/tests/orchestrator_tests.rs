use openflite::config::{Inputs, MobiFlightProject, Outputs};
use openflite::device::{action_command, DeviceInfo};
use openflite::flash::{avrdude_args, parse_progress, BoardType};
use openflite::mapping::{HardwareAction, MappingEngine};
use openflite::orchestrator::{merge_event_queues, new_ports, route_actions, hardware_sync_actions};
use openflite::protocol::{Command, Response};
use openflite::value::SimValue;
use openflite::{CoreError, Event};

fn noise(id: u8) -> Response {
    Response::Unknown(id, vec![])
}

#[test]
fn injected_events_precede_polled_events() {
    let injected = vec![("demo".to_string(), noise(20))];
    let polled = vec![("dev1".to_string(), noise(21)), ("dev2".to_string(), noise(22))];
    let merged = merge_event_queues(injected, polled);
    assert_eq!(merged.len(), 3);
    assert_eq!(merged[0].0, "demo");
    assert_eq!(merged[1].0, "dev1");
    assert_eq!(merged[2].0, "dev2");
}

#[test]
fn input_events_broadcast_variable_changes() {
    let engine = MappingEngine::new(MobiFlightProject {
        outputs: Outputs { config: vec![] },
        inputs: Inputs { config: vec![] },
    });
    let responses = vec![
        (
            "PanelA".to_string(),
            Response::InputEvent {
                name: "Gear".to_string(),
                value: "1".to_string(),
            },
        ),
        ("PanelA".to_string(), noise(33)),
    ];
    let (events, actions) = hardware_sync_actions(&engine, &responses);
    assert_eq!(
        events,
        vec![Event::VariableChanged {
            name: "PanelA:Gear".to_string(),
            value: SimValue::from_units(1),
        }]
    );
    assert!(actions.is_empty());
}

#[test]
fn actions_route_to_devices_by_serial() {
    let actions = vec![
        HardwareAction::SetPin {
            serial: "SN-2".to_string(),
            pin: 13,
            value: 1,
        },
        HardwareAction::SetPin {
            serial: "SN-9".to_string(),
            pin: 5,
            value: 0,
        },
        HardwareAction::SetLCD {
            serial: "SN-1".to_string(),
            display_id: 0,
            line: 0,
            text: "hi".to_string(),
        },
    ];
    let serials = vec!["SN-1".to_string(), "SN-2".to_string()];
    let routed = route_actions(&actions, &serials);
    assert_eq!(
        routed,
        vec![
            (1, Command::SetPin(13, 1)),
            (0, Command::SetLCD(0, 0, "hi".to_string())),
        ]
    );
}

#[test]
fn scan_opens_only_new_ports() {
    let known = vec!["COM3".to_string()];
    let ports = vec!["COM3".to_string(), "COM4".to_string(), "COM4".to_string()];
    assert_eq!(new_ports(&known, &ports), vec!["COM4".to_string(), "COM4".to_string()]);
}

#[test]
fn identity_lines_populate_device_info() {
    let info = DeviceInfo::from_identity_line("7,MyBoard,Mega,12345,1.0.0;").unwrap();
    assert_eq!(info.name, "MyBoard");
    assert_eq!(info.board_type, "Mega");
    assert_eq!(info.serial, "12345");
    assert_eq!(info.version, "1.0.0");
    assert_eq!(info.label(), "MyBoard (Mega)");
    assert_eq!(
        DeviceInfo::from_identity_line("11,Gear,1;"),
        Err(CoreError::ParseError)
    );
    assert_eq!(
        DeviceInfo::from_identity_line("garbage"),
        Err(CoreError::ParseError)
    );
}

#[test]
fn hardware_actions_become_protocol_commands() {
    let a = HardwareAction::Set7Segment {
        serial: "SN-1".to_string(),
        module: 1,
        index: 2,
        value: "8888".to_string(),
    };
    assert_eq!(action_command(&a), Command::Set7Segment(1, 2, "8888".to_string()));
}

#[test]
fn board_parameters_are_fixed() {
    assert_eq!(BoardType::ArduinoMega.avrdude_part(), "atmega2560");
    assert_eq!(BoardType::ArduinoMega.avrdude_programmer(), "wiring");
    assert_eq!(BoardType::ArduinoMega.baud_rate(), 115200);
    assert_eq!(BoardType::ArduinoMega.firmware_name(), "mobiflight_mega.hex");
    assert_eq!(BoardType::ArduinoProMicro.avrdude_part(), "atmega32u4");
    assert_eq!(BoardType::ArduinoProMicro.avrdude_programmer(), "avr109");
    assert_eq!(BoardType::ArduinoProMicro.baud_rate(), 57600);
    assert_eq!(BoardType::ArduinoProMicro.firmware_name(), "mobiflight_promicro.hex");
    assert_eq!(BoardType::ArduinoNano.avrdude_part(), "atmega328p");
    assert_eq!(BoardType::ArduinoNano.avrdude_programmer(), "arduino");
    assert_eq!(BoardType::ArduinoNano.baud_rate(), 57600);
    assert_eq!(BoardType::ArduinoNano.firmware_name(), "mobiflight_nano.hex");
}

#[test]
fn flasher_arguments_are_exact() {
    let args = avrdude_args("/dev/ttyUSB0", &BoardType::ArduinoNano, "fw/mobiflight_nano.hex");
    assert_eq!(
        args,
        vec![
            "-v",
            "-p",
            "atmega328p",
            "-c",
            "arduino",
            "-P",
            "/dev/ttyUSB0",
            "-b",
            "57600",
            "-D",
            "-U",
            "flash:w:fw/mobiflight_nano.hex:i",
        ]
    );
}

#[test]
fn flasher_progress_lines_parse() {
    assert_eq!(
        parse_progress("Writing | ################################################## | 100%"),
        Some(100)
    );
    assert_eq!(parse_progress("Reading | ## | 42% 0.05s"), Some(42));
    assert_eq!(parse_progress("avrdude: writing flash"), None);
    assert_eq!(parse_progress("%"), None);
    assert_eq!(parse_progress("999%"), None);
}
