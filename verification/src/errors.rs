//! The error conditions of writing a rendered screen to disk.
//!
//! Every kind carries plain values — the offending path, the operating
//! system's error code where one exists, the encoder's message — so that
//! callers that own the actual I/O can build and inspect them freely.

use vstd::prelude::*;
use vstd::string::StringExecFns;

use crate::numerals::signed_decimal_digits;
use crate::numerals::signed_decimal_string;

verus! {

/// What can go wrong when a screen is written out: the output folder does
/// not exist, the file cannot be created or written, or the compressed
/// encoder rejects the pixel stream.
#[derive(Debug)]
pub enum Error {
    InvalidDirectory(String),
    FileCreation(String, Option<i32>),
    FileWrite(String, Option<i32>),
    PngError(String, String),
}

/// The human-readable description of an error.
pub open spec fn error_message_spec(error: Error) -> Seq<char> {
    match error {
        Error::InvalidDirectory(path) => "Provided directory \""@ + path@ + "\" is invalid."@,
        Error::FileCreation(path, Some(code)) => "Could not create file at \""@ + path@
            + "\". OS error "@ + signed_decimal_digits(code as int),
        Error::FileCreation(path, None) => "Could not create file at \""@ + path@ + "\""@,
        Error::FileWrite(path, Some(code)) => "Could not write to file at \""@ + path@
            + "\". OS error "@ + signed_decimal_digits(code as int),
        Error::FileWrite(path, None) => "Could not write to file at \""@ + path@ + "\""@,
        Error::PngError(path, message) => "PNG encoding error for \""@ + path@ + "\": "@
            + message@,
    }
}

impl Error {
    /// Describes the error for a reader.
    pub fn to_string(&self) -> (message: String)
        ensures
            message@ == error_message_spec(*self),
    {
        match self {
            Error::InvalidDirectory(path) => {
                let mut message = String::from_str("Provided directory \"");
                message.append(path.as_str());
                message.append("\" is invalid.");
                proof {
                    assert(message@ =~= error_message_spec(*self));
                }
                message
            },
            Error::FileCreation(path, Some(code)) => {
                let mut message = String::from_str("Could not create file at \"");
                message.append(path.as_str());
                message.append("\". OS error ");
                message.append(signed_decimal_string(*code).as_str());
                proof {
                    assert(message@ =~= error_message_spec(*self));
                }
                message
            },
            Error::FileCreation(path, None) => {
                let mut message = String::from_str("Could not create file at \"");
                message.append(path.as_str());
                message.append("\"");
                proof {
                    assert(message@ =~= error_message_spec(*self));
                }
                message
            },
            Error::FileWrite(path, Some(code)) => {
                let mut message = String::from_str("Could not write to file at \"");
                message.append(path.as_str());
                message.append("\". OS error ");
                message.append(signed_decimal_string(*code).as_str());
                proof {
                    assert(message@ =~= error_message_spec(*self));
                }
                message
            },
            Error::FileWrite(path, None) => {
                let mut message = String::from_str("Could not write to file at \"");
                message.append(path.as_str());
                message.append("\"");
                proof {
                    assert(message@ =~= error_message_spec(*self));
                }
                message
            },
            Error::PngError(path, png_message) => {
                let mut message = String::from_str("PNG encoding error for \"");
                message.append(path.as_str());
                message.append("\": ");
                message.append(png_message.as_str());
                proof {
                    assert(message@ =~= error_message_spec(*self));
                }
                message
            },
        }
    }
}

} // verus!
