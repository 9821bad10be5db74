//! What a probe run yields, and how its raw output becomes a status.

use vstd::prelude::*;
use vstd::string::*;
use vstd::utf8::{decode_utf8, valid_utf8};

use crate::address::{opt_view, Endpoint};
use crate::monitor::{parse_report, MonitorOutput, MonitorView, ParseError};

verus! {

/// The status of one server: either the probe's report (`output`) or the
/// failure that the probe wrote to its error stream (`error`).
#[derive(Clone, Debug)]
pub struct ServerStatus {
    pub requested_url: Endpoint,
    pub exit_code: u8,
    pub output: Option<MonitorOutput>,
    pub error: Option<String>,
}

pub ghost struct StatusView {
    pub requested_url: Endpoint,
    pub exit_code: u8,
    pub output: Option<MonitorView>,
    pub error: Option<Seq<char>>,
}

pub open spec fn monitor_opt_view(m: Option<MonitorOutput>) -> Option<MonitorView> {
    match m {
        Some(o) => Some(o@),
        None => None,
    }
}

impl View for ServerStatus {
    type V = StatusView;

    open spec fn view(&self) -> StatusView {
        StatusView {
            requested_url: self.requested_url,
            exit_code: self.exit_code,
            output: monitor_opt_view(self.output),
            error: opt_view(self.error),
        }
    }
}

impl ServerStatus {
    /// A copy with the same contents.
    pub fn duplicate(&self) -> (r: ServerStatus)
        ensures
            r@ == self@,
    {
        let output = match &self.output {
            Some(o) => Some(o.duplicate()),
            None => None,
        };
        let error = match &self.error {
            Some(e) => Some(e.clone()),
            None => None,
        };
        ServerStatus { requested_url: self.requested_url, exit_code: self.exit_code, output, error }
    }
}

/// Why no status could be had. None of these is ever cached.
#[derive(Clone, Debug)]
pub enum FetchError {
    /// The probe could not be started.
    SpawnFailed(String),
    /// The probe was started but could not be waited for.
    WaitFailed(String),
    /// The probe's error stream was not UTF-8.
    NonTextStderr,
    /// The probe's output stream was not UTF-8.
    NonTextStdout,
    /// The probe did not exit normally (it was killed by a signal).
    AbnormalExit,
    /// The probe exited with a code outside `0..=255`.
    ExitCodeOutOfRange(i32),
    /// The probe's report did not follow its grammar.
    Parse(ParseError),
    /// The selected probe backend does not exist.
    NotImplemented,
}

/// The status that a finished probe run gives: its streams must be text and
/// its exit normal; an empty error stream means the report is read from the
/// output stream, a non-empty one is the reported failure.
pub open spec fn run_outcome(
    requested: Endpoint,
    exit_code: Option<i32>,
    stdout: Seq<u8>,
    stderr: Seq<u8>,
) -> Result<StatusView, FetchError> {
    if !valid_utf8(stderr) {
        Err(FetchError::NonTextStderr)
    } else if !valid_utf8(stdout) {
        Err(FetchError::NonTextStdout)
    } else {
        match exit_code {
            None => Err(FetchError::AbnormalExit),
            Some(c) => if c < 0 || c > 255 {
                Err(FetchError::ExitCodeOutOfRange(c))
            } else if decode_utf8(stderr).len() == 0 {
                match parse_report(decode_utf8(stdout)) {
                    Ok(m) => Ok(
                        StatusView {
                            requested_url: requested,
                            exit_code: c as u8,
                            output: Some(m),
                            error: None,
                        },
                    ),
                    Err(e) => Err(FetchError::Parse(e)),
                }
            } else {
                Ok(
                    StatusView {
                        requested_url: requested,
                        exit_code: c as u8,
                        output: None,
                        error: Some(decode_utf8(stderr)),
                    },
                )
            },
        }
    }
}

pub open spec fn status_result_view(r: Result<ServerStatus, FetchError>) -> Result<
    StatusView,
    FetchError,
> {
    match r {
        Ok(s) => Ok(s@),
        Err(e) => Err(e),
    }
}

/// Relies on `String::from_utf8`: it accepts exactly the byte strings that
/// are valid UTF-8, and then holds the characters they encode.
#[verifier::external_body]
fn decode_text(bytes: Vec<u8>) -> (r: Option<String>)
    ensures
        r is Some <==> valid_utf8(bytes@),
        r matches Some(s) ==> s@ == decode_utf8(bytes@),
{
    String::from_utf8(bytes).ok()
}

/// Turns what a finished probe run left (its exit code, `None` where a
/// signal ended it, and its two streams) into the server's status.
pub fn interpret_run(requested: Endpoint, exit_code: Option<i32>, stdout: Vec<u8>, stderr: Vec<u8>) -> (r: Result<ServerStatus, FetchError>)
    ensures
        status_result_view(r) == run_outcome(requested, exit_code, stdout@, stderr@),
{
    let ghost out_bytes = stdout@;
    let ghost err_bytes = stderr@;
    let error = match decode_text(stderr) {
        Some(t) => t,
        None => return Err(FetchError::NonTextStderr),
    };
    let text = match decode_text(stdout) {
        Some(t) => t,
        None => return Err(FetchError::NonTextStdout),
    };
    let code: u8 = match exit_code {
        None => return Err(FetchError::AbnormalExit),
        Some(c) => {
            if c < 0 || c > 255 {
                return Err(FetchError::ExitCodeOutOfRange(c));
            }
            c as u8
        },
    };
    if error.as_str().unicode_len() == 0 {
        match MonitorOutput::parse(text.as_str()) {
            Ok(m) => Ok(
                ServerStatus { requested_url: requested, exit_code: code, output: Some(m), error: None },
            ),
            Err(e) => Err(FetchError::Parse(e)),
        }
    } else {
        Ok(ServerStatus { requested_url: requested, exit_code: code, output: None, error: Some(error) })
    }
}

/// Checks the backend choice: only the external status tool is implemented.
pub fn probe_backend(use_mc_monitor: bool) -> (r: Result<(), FetchError>)
    ensures
        use_mc_monitor ==> r is Ok,
        !use_mc_monitor ==> r matches Err(FetchError::NotImplemented),
{
    if use_mc_monitor {
        Ok(())
    } else {
        Err(FetchError::NotImplemented)
    }
}

} // verus!
