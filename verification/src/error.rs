//! The errors this library reports, each holding as text what it says.
use vstd::prelude::*;
use vstd::string::*;

verus! {

/// A failure, with the text of its cause.
pub enum Error {
    /// The `swamp` program could not be started.
    Spawn { program: String, source: String },
    /// `swamp` exited unsuccessfully; `status` is the exit status as shown.
    Command { status: String, message: String, code: Option<String> },
    /// A reply could not be decoded.
    Json { context: String, source: String },
    /// A reply lacked a part.
    Incomplete(String),
    /// Method input was rejected.
    Validation(String),
    /// A historical query returned nothing.
    VersionNotFound,
    /// An I/O failure, as shown.
    Io(String),
}

/// The text an error is shown with.
pub open spec fn error_text(e: Error) -> Seq<char> {
    match e {
        Error::Spawn { program, source } => "could not start `"@ + program@ + "`: "@ + source@,
        Error::Command { status, message, code } => "swamp command failed ("@ + status@ + match code {
            Some(c) => ", "@ + c@,
            None => Seq::empty(),
        } + "): "@ + message@,
        Error::Json { context, source } => "swamp returned incompatible JSON for "@ + context@ + ": "@
            + source@,
        Error::Incomplete(what) => "swamp returned an incomplete "@ + what@ + " response"@,
        Error::Validation(m) => "invalid method input: "@ + m@,
        Error::VersionNotFound => "no matching historical data version was returned"@,
        Error::Io(m) => m@,
    }
}

impl Error {
    /// The text this error is shown with.
    pub fn message(&self) -> (r: String)
        ensures
            r@ == error_text(*self),
    {
        match self {
            Error::Spawn { program, source } => {
                let mut s = String::from_str("could not start `");
                s.append(program.as_str());
                s.append("`: ");
                s.append(source.as_str());
                proof {
                    reveal_strlit("could not start `");
                    reveal_strlit("`: ");
                }
                s
            },
            Error::Command { status, message, code } => {
                let mut s = String::from_str("swamp command failed (");
                s.append(status.as_str());
                match code {
                    Some(c) => {
                        s.append(", ");
                        s.append(c.as_str());
                    },
                    None => {},
                }
                s.append("): ");
                s.append(message.as_str());
                proof {
                    reveal_strlit("swamp command failed (");
                    reveal_strlit(", ");
                    reveal_strlit("): ");
                    let suffix = match code {
                        Some(c) => ", "@ + c@,
                        None => Seq::<char>::empty(),
                    };
                    assert(s@ =~= "swamp command failed ("@ + status@ + suffix + "): "@ + message@);
                }
                s
            },
            Error::Json { context, source } => {
                let mut s = String::from_str("swamp returned incompatible JSON for ");
                s.append(context.as_str());
                s.append(": ");
                s.append(source.as_str());
                s
            },
            Error::Incomplete(what) => {
                let mut s = String::from_str("swamp returned an incomplete ");
                s.append(what.as_str());
                s.append(" response");
                s
            },
            Error::Validation(m) => {
                let mut s = String::from_str("invalid method input: ");
                s.append(m.as_str());
                s
            },
            Error::VersionNotFound => String::from_str("no matching historical data version was returned"),
            Error::Io(m) => m.clone(),
        }
    }
}

} // verus!
