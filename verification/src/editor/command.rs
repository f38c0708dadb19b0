//! Errors of edit commands, and the check made before one is carried out.
use vstd::prelude::*;
use crate::editor::document::EditCommand;
use crate::f32_bits::{less, ONE, ZERO};

verus! {

/// An edit command could not be carried out.
#[derive(Clone, Debug)]
pub struct CommandExecutionError {
    pub message: String,
}

impl CommandExecutionError {
    /// The error as shown to the user: `Command execution error: <message>`.
    pub fn describe(&self) -> (s: String)
        ensures
            s@ == "Command execution error: "@ + self.message@,
    {
        let mut s = String::from_str("Command execution error: ");
        s.append(self.message.as_str());
        s
    }
}

/// The opacity lies outside 0.0 to 1.0 (a NaN does not).
pub open spec fn opacity_out_of_range(bits: u32) -> bool {
    less(bits, ZERO) || less(ONE, bits)
}

/// Message with which `validate_command` refuses the command, or `None`.
pub open spec fn validation_error(c: EditCommand) -> Option<Seq<char>> {
    match c {
        EditCommand::PaintStroke { pixels, .. } => if pixels@.len() == 0 {
            Some("PaintStroke must contain at least one pixel"@)
        } else {
            None
        },
        EditCommand::SetLayerOpacity { old_opacity_bits, new_opacity_bits, .. } => if opacity_out_of_range(new_opacity_bits) {
            Some("Opacity must be between 0.0 and 1.0"@)
        } else if opacity_out_of_range(old_opacity_bits) {
            Some("Old opacity must be between 0.0 and 1.0"@)
        } else {
            None
        },
        _ => None,
    }
}

/// Check a command before carrying it out: a paint stroke must hold a
/// pixel, and an opacity change must go between values in 0.0 to 1.0.
pub fn validate_command(cmd: &EditCommand) -> (r: Result<(), CommandExecutionError>)
    ensures
        match validation_error(*cmd) {
            None => r is Ok,
            Some(m) => r matches Err(e) && e.message@ == m,
        },
{
    match cmd {
        EditCommand::PaintStroke { pixels, .. } => {
            if pixels.len() == 0 {
                Err(CommandExecutionError { message: String::from_str("PaintStroke must contain at least one pixel") })
            } else {
                Ok(())
            }
        },
        EditCommand::SetLayerOpacity { old_opacity_bits, new_opacity_bits, .. } => {
            if crate::f32_bits::lt(*new_opacity_bits, ZERO) || crate::f32_bits::lt(ONE, *new_opacity_bits) {
                Err(CommandExecutionError { message: String::from_str("Opacity must be between 0.0 and 1.0") })
            } else if crate::f32_bits::lt(*old_opacity_bits, ZERO) || crate::f32_bits::lt(ONE, *old_opacity_bits) {
                Err(CommandExecutionError { message: String::from_str("Old opacity must be between 0.0 and 1.0") })
            } else {
                Ok(())
            }
        },
        _ => Ok(()),
    }
}

/// An opacity change that passes the check sets exactly its new value and,
/// reverted, exactly its old value: clamping leaves both unchanged.
pub proof fn law_valid_opacity_not_clamped(c: EditCommand)
    requires
        c is SetLayerOpacity,
        validation_error(c) is None,
    ensures
        c matches EditCommand::SetLayerOpacity { old_opacity_bits, new_opacity_bits, .. }
            ==> crate::f32_bits::clamped(new_opacity_bits, ZERO, ONE) == new_opacity_bits
            && crate::f32_bits::clamped(old_opacity_bits, ZERO, ONE) == old_opacity_bits,
{
}

} // verus!
