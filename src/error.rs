//! The one error type of every query.
use vstd::prelude::*;
use vstd::string::StringExecFns;

verus! {

/// std's I/O error, carried as the cause of an execution or read failure.
#[verifier::external_type_specification]
#[verifier::external_body]
pub struct ExIoError(std::io::Error);

/// std's error for a clock reading earlier than the time it is measured
/// from, carried as the cause of a time failure.
#[verifier::external_type_specification]
#[verifier::external_body]
pub struct ExSystemTimeError(std::time::SystemTimeError);

/// Why a query could not answer.
#[derive(Debug)]
pub enum Error {
    /// The platform, or this feature on it, is not supported.
    UnsupportedSystem,
    /// A helper process could not be run.
    ExecFailed(std::io::Error),
    /// A source could not be read.
    IO(std::io::Error),
    /// The system clock could not be read as a time since the epoch.
    SystemTime(std::time::SystemTimeError),
    /// A failure described by a message.
    General(String),
    /// The data was read but did not have the expected shape.
    Unknown,
}

/// The error beneath a failure, borrowed from it.
#[derive(Debug)]
pub enum Cause<'a> {
    /// An I/O error.
    Io(&'a std::io::Error),
    /// A system-clock error.
    SystemTime(&'a std::time::SystemTimeError),
}

impl Error {
    /// A short fixed description of the kind of failure.
    pub fn description(&self) -> (r: &'static str)
        ensures
            r@ == match self {
                Error::UnsupportedSystem => "unsupported system"@,
                Error::ExecFailed(_) => "execution failed"@,
                Error::IO(_) => "io error"@,
                Error::SystemTime(_) => "system time"@,
                Error::General(_) => "general error"@,
                Error::Unknown => "unknown error"@,
            },
    {
        match self {
            Error::UnsupportedSystem => "unsupported system",
            Error::ExecFailed(_) => "execution failed",
            Error::IO(_) => "io error",
            Error::SystemTime(_) => "system time",
            Error::General(_) => "general error",
            Error::Unknown => "unknown error",
        }
    }

    /// A message for people: the kind of failure and, where there is one,
    /// its cause.
    pub fn to_string(&self) -> (r: String)
        ensures
            match self {
                Error::UnsupportedSystem => r@ == "System is not supported"@,
                Error::ExecFailed(_) => r@.len() >= "Execution failed: "@.len() && r@.subrange(
                    0,
                    "Execution failed: "@.len() as int,
                ) == "Execution failed: "@,
                Error::IO(_) => r@.len() >= "IO error: "@.len() && r@.subrange(
                    0,
                    "IO error: "@.len() as int,
                ) == "IO error: "@,
                Error::SystemTime(_) => r@.len() >= "System time error: "@.len() && r@.subrange(
                    0,
                    "System time error: "@.len() as int,
                ) == "System time error: "@,
                Error::General(m) => r@ == "Error: "@ + m@,
                Error::Unknown => r@ == "An unknown error occurred"@,
            },
    {
        match self {
            Error::UnsupportedSystem => "System is not supported".to_string(),
            Error::ExecFailed(e) => with_cause("Execution failed: ", e.to_string()),
            Error::IO(e) => with_cause("IO error: ", e.to_string()),
            Error::SystemTime(e) => with_cause("System time error: ", e.to_string()),
            Error::General(m) => with_cause("Error: ", m.clone()),
            Error::Unknown => "An unknown error occurred".to_string(),
        }
    }

    /// The underlying error, where there is one.
    pub fn cause(&self) -> (r: Option<Cause<'_>>)
        ensures
            r == match self {
                Error::ExecFailed(e) => Some(Cause::Io(e)),
                Error::IO(e) => Some(Cause::Io(e)),
                Error::SystemTime(e) => Some(Cause::SystemTime(e)),
                _ => None::<Cause<'_>>,
            },
    {
        match self {
            Error::ExecFailed(e) => Some(Cause::Io(e)),
            Error::IO(e) => Some(Cause::Io(e)),
            Error::SystemTime(e) => Some(Cause::SystemTime(e)),
            _ => None,
        }
    }
}

/// `head` followed by `cause`.
fn with_cause(head: &str, cause: String) -> (r: String)
    ensures
        r@ == head@ + cause@,
        r@.len() >= head@.len(),
        r@.subrange(0, head@.len() as int) == head@,
{
    let mut r = head.to_string();
    r.append(cause.as_str());
    assert(r@.subrange(0, head@.len() as int) =~= head@);
    r
}

impl From<std::io::Error> for Error {
    fn from(e: std::io::Error) -> (r: Error)
        ensures
            r == Error::IO(e),
    {
        Error::IO(e)
    }
}

impl vstd::std_specs::convert::FromSpecImpl<std::io::Error> for Error {
    open spec fn obeys_from_spec() -> bool {
        true
    }

    open spec fn from_spec(e: std::io::Error) -> Error {
        Error::IO(e)
    }
}

impl From<std::time::SystemTimeError> for Error {
    fn from(e: std::time::SystemTimeError) -> (r: Error)
        ensures
            r == Error::SystemTime(e),
    {
        Error::SystemTime(e)
    }
}

impl vstd::std_specs::convert::FromSpecImpl<std::time::SystemTimeError> for Error {
    open spec fn obeys_from_spec() -> bool {
        true
    }

    open spec fn from_spec(e: std::time::SystemTimeError) -> Error {
        Error::SystemTime(e)
    }
}

} // verus!
