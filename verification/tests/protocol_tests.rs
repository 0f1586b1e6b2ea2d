use openflite::protocol::{Command, Response};

#[test]
fn test_command_serialization() {
    assert_eq!(Command::GetInfo.serialize(), "7;");
    assert_eq!(Command::SetName("Test".to_string()).serialize(), "9,Test;");
    assert_eq!(Command::SetPin(13, 1).serialize(), "3,13,1;");
}

#[test]
fn test_response_parsing() {
    let input = "7,MyBoard,Mega,12345,1.0.0;";
    if let Some(Response::Info {
        name,
        board_type,
        serial,
        version,
    }) = Response::parse(input)
    {
        assert_eq!(name, "MyBoard");
        assert_eq!(board_type, "Mega");
        assert_eq!(serial, "12345");
        assert_eq!(version, "1.0.0");
    } else {
        panic!("Failed to parse info response");
    }
}

#[test]
fn serialize_every_command_kind() {
    assert_eq!(Command::Init.serialize(), "1;");
    assert_eq!(Command::ResetBoard.serialize(), "5;");
    assert_eq!(Command::GetName.serialize(), "8;");
    assert_eq!(Command::GetVersion.serialize(), "10;");
    assert_eq!(Command::Set7Segment(2, 0, "8888".to_string()).serialize(), "15,2,0,8888;");
    assert_eq!(Command::SetLCD(1, 0, "ALT: 1200".to_string()).serialize(), "16,1,0,ALT: 1200;");
    assert_eq!(Command::SetStepper(4, -250).serialize(), "17,4,-250;");
    assert_eq!(Command::SetRGB(3, 255, 0, 128).serialize(), "18,3,255,0,128;");
}

#[test]
fn parse_input_event() {
    let r = Response::parse("11,GearToggle,1;").unwrap();
    assert_eq!(
        r,
        Response::InputEvent {
            name: "GearToggle".to_string(),
            value: "1".to_string(),
        }
    );
}

#[test]
fn parse_unknown_id_is_data_not_error() {
    let r = Response::parse("42,a,b;").unwrap();
    assert_eq!(r, Response::Unknown(42, vec!["a".to_string(), "b".to_string()]));
}

#[test]
fn parse_trims_whitespace_and_semicolons() {
    let r = Response::parse(" 11,Enc,0;;\n").unwrap();
    assert_eq!(
        r,
        Response::InputEvent {
            name: "Enc".to_string(),
            value: "0".to_string(),
        }
    );
}

#[test]
fn parse_accepts_plus_signed_ids() {
    assert_eq!(Response::parse("+7;").unwrap(), Response::Unknown(7, vec![]));
    assert_eq!(
        Response::parse("+11,Enc,0;").unwrap(),
        Response::InputEvent {
            name: "Enc".to_string(),
            value: "0".to_string(),
        }
    );
    assert!(Response::parse("++7;").is_none());
    assert!(Response::parse("+;").is_none());
}

#[test]
fn parse_rejects_malformed_ids() {
    assert!(Response::parse("").is_none());
    assert!(Response::parse("abc,1;").is_none());
    assert!(Response::parse("999,x;").is_none());
    assert!(Response::parse(";").is_none());
}

#[test]
fn parse_info_needs_four_arguments() {
    let r = Response::parse("7,OnlyName;").unwrap();
    assert_eq!(r, Response::Unknown(7, vec!["OnlyName".to_string()]));
}

#[test]
fn round_trip_yields_original_fields() {
    for cmd in [
        Command::GetInfo,
        Command::SetPin(13, 1),
        Command::SetName("Panel".to_string()),
        Command::SetStepper(2, -7),
        Command::SetRGB(1, 2, 3, 4),
    ] {
        let line = cmd.serialize();
        let parsed = Response::parse(&line).unwrap();
        match parsed {
            Response::Unknown(id, args) => {
                assert_eq!(id, cmd.id());
                let expect: Vec<String> = {
                    let body = line.trim_end_matches(';');
                    let mut fields = body.split(',');
                    fields.next();
                    fields.map(|s| s.to_string()).collect()
                };
                assert_eq!(args, expect);
            }
            other => panic!("expected unclassified data, got {:?}", other),
        }
    }
}
