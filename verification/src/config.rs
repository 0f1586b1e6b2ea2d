//! The in-memory configuration consumed by the mapping engine.
//!
//! The core requires only this parsed structure; reading a configuration
//! document into it is a mechanical deserialization step that lives outside
//! the library.
use vstd::prelude::*;

verus! {

/// A loaded project: output rules and input rules, replaced wholesale on
/// reload.
#[derive(Debug, Clone)]
pub struct MobiFlightProject {
    pub outputs: Outputs,
    pub inputs: Inputs,
}

/// The output rule list.
#[derive(Debug, Clone)]
pub struct Outputs {
    pub config: Vec<OutputConfig>,
}

/// The input rule list.
#[derive(Debug, Clone)]
pub struct Inputs {
    pub config: Vec<InputConfig>,
}

/// One output mapping rule: simulator variable to hardware display.
#[derive(Debug, Clone)]
pub struct OutputConfig {
    pub guid: String,
    pub active: bool,
    pub description: String,
    pub settings: ConfigSettings,
}

/// One input mapping rule: hardware event to simulator action.
#[derive(Debug, Clone)]
pub struct InputConfig {
    pub guid: String,
    pub active: bool,
    pub description: String,
    pub settings: InputSettings,
}

/// The action set of an input rule: a button or an encoder.
#[derive(Debug, Clone)]
pub struct InputSettings {
    pub button: Option<ButtonAction>,
    pub encoder: Option<EncoderAction>,
}

/// Directional actions of a button.
#[derive(Debug, Clone)]
pub struct ButtonAction {
    pub on_press: Option<Action>,
    pub on_release: Option<Action>,
}

/// Directional actions of an encoder.
#[derive(Debug, Clone)]
pub struct EncoderAction {
    pub on_left: Option<Action>,
    pub on_right: Option<Action>,
}

/// One configured action: a simulator command or a variable write.
#[derive(Debug, Clone)]
pub struct Action {
    pub action_type: String,
    pub command: Option<String>,
    pub dataref: Option<String>,
    pub value: Option<String>,
}

/// The settings of an output rule.
#[derive(Debug, Clone)]
pub struct ConfigSettings {
    pub source: Option<Source>,
    pub comparison: Option<Comparison>,
    pub display: Option<Display>,
}

/// The simulator variable an output rule reads.
#[derive(Debug, Clone)]
pub struct Source {
    pub source_type: String,
    pub name: String,
}

/// An optional comparison applied to the variable value.
#[derive(Debug, Clone)]
pub struct Comparison {
    pub active: bool,
    pub value: String,
    pub operand: String,
    pub if_value: String,
    pub else_value: String,
}

/// The hardware display an output rule drives.
#[derive(Debug, Clone)]
pub struct Display {
    pub display_type: String,
    pub serial: String,
    pub trigger: String,
    pub pin: String,
}

} // verus!
