//! Error conditions at the boundary with external collaborators: font
//! loading and parsing, and image encoding. The rendering core itself is
//! total and never produces these.

use vstd::prelude::*;
use vstd::string::StringExecFns;

verus! {

/// What went wrong at the boundary with an external collaborator. Each
/// variant carries the offending name or the collaborator's own message.
#[derive(Debug)]
pub enum RenderError {
    /// No font is registered under the given name.
    FontNotFound(String),
    /// A font file could not be read from the given path.
    FontLoadIo { path: String, message: String },
    /// Font data could not be parsed.
    FontParse(String),
    /// PNG encoding failed.
    PngEncode(String),
}

/// The human-readable description of an error.
pub open spec fn spec_message(e: RenderError) -> Seq<char> {
    match e {
        RenderError::FontNotFound(name) => "font not found: '"@ + name@ + "'"@,
        RenderError::FontLoadIo { path, message } => "failed to load font from '"@ + path@ + "': "@
            + message@,
        RenderError::FontParse(message) => "failed to parse font data: "@ + message@,
        RenderError::PngEncode(message) => "PNG encoding failed: "@ + message@,
    }
}

impl RenderError {
    /// Render the error as a human-readable message.
    pub fn message(&self) -> (m: String)
        ensures
            m@ == spec_message(*self),
    {
        match self {
            RenderError::FontNotFound(name) => String::from_str("font not found: '").concat(
                name.as_str(),
            ).concat("'"),
            RenderError::FontLoadIo { path, message } => String::from_str(
                "failed to load font from '",
            ).concat(path.as_str()).concat("': ").concat(message.as_str()),
            RenderError::FontParse(message) => String::from_str(
                "failed to parse font data: ",
            ).concat(message.as_str()),
            RenderError::PngEncode(message) => String::from_str("PNG encoding failed: ").concat(
                message.as_str(),
            ),
        }
    }
}

} // verus!
