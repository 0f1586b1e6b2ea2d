//! Hardware device identity and the per-device command layer.
//!
//! A device is one microcontroller behind a serial connection. The connection
//! itself lives outside the library; this module decides what an identity
//! line means and which protocol command each hardware action becomes.
use crate::mapping::HardwareAction;
use crate::protocol::{parse_model, Command, Response, ResponseView};
use crate::CoreError;
use vstd::prelude::*;

verus! {

/// A device's identity, populated once from the identity response at connect
/// time.
#[derive(Debug, Clone, PartialEq)]
pub struct DeviceInfo {
    pub name: String,
    pub board_type: String,
    pub serial: String,
    pub version: String,
}

impl DeviceInfo {
    /// The placeholder identity before the query/response exchange.
    pub fn unknown() -> (r: DeviceInfo)
        ensures
            r.name@ == "Unknown"@,
            r.board_type@ == "Unknown"@,
            r.serial@ == "Unknown"@,
            r.version@ == "Unknown"@,
    {
        DeviceInfo {
            name: String::from_str("Unknown"),
            board_type: String::from_str("Unknown"),
            serial: String::from_str("Unknown"),
            version: String::from_str("Unknown"),
        }
    }

    /// Reads a device's identity from the one line answering the identity
    /// query; any line that does not decode as an identity response fails.
    pub fn from_identity_line(line: &str) -> (r: Result<DeviceInfo, CoreError>)
        ensures
            match parse_model(line@) {
                Some(resp) => match resp {
                    ResponseView::Info { name, board_type, serial, version } => (r matches Ok(info)
                        && info.name@ == name && info.board_type@ == board_type && info.serial@
                        == serial && info.version@ == version),
                    _ => r == Err::<DeviceInfo, CoreError>(CoreError::ParseError),
                },
                None => r == Err::<DeviceInfo, CoreError>(CoreError::ParseError),
            },
    {
        match Response::parse(line) {
            Some(Response::Info { name, board_type, serial, version }) => Ok(
                DeviceInfo { name, board_type, serial, version },
            ),
            _ => Err(CoreError::ParseError),
        }
    }

    /// The device's display label: its name with the board type in
    /// parentheses.
    pub fn label(&self) -> (r: String)
        ensures
            r@ == self.name@ + " ("@ + self.board_type@ + ")"@,
    {
        proof {
            reveal_strlit(" (");
            reveal_strlit(")");
        }
        let mut s = self.name.clone();
        s.append(" (");
        s.append(self.board_type.as_str());
        s.append(")");
        proof {
            assert(s@ =~= self.name@ + " ("@ + self.board_type@ + ")"@);
        }
        s
    }
}

/// The protocol command that performs one hardware action.
pub open spec fn command_of_action(a: HardwareAction) -> Command {
    match a {
        HardwareAction::SetPin { serial: _, pin, value } => Command::SetPin(pin, value),
        HardwareAction::Set7Segment { serial: _, module, index, value } => Command::Set7Segment(
            module,
            index,
            value,
        ),
        HardwareAction::SetLCD { serial: _, display_id, line, text } => Command::SetLCD(
            display_id,
            line,
            text,
        ),
    }
}

/// Builds the protocol command that performs a hardware action.
pub fn action_command(a: &HardwareAction) -> (c: Command)
    ensures
        c == command_of_action(*a),
{
    match a {
        HardwareAction::SetPin { serial: _, pin, value } => Command::SetPin(*pin, *value),
        HardwareAction::Set7Segment { serial: _, module, index, value } => Command::Set7Segment(
            *module,
            *index,
            value.clone(),
        ),
        HardwareAction::SetLCD { serial: _, display_id, line, text } => Command::SetLCD(
            *display_id,
            *line,
            text.clone(),
        ),
    }
}

} // verus!
