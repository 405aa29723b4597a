//! The settings with which the server is started.

use vstd::prelude::*;

verus! {

/// A mode of operation.
#[derive(Clone, Copy, Debug, PartialEq, Eq, Structural)]
pub enum Mode {
    Planning,
    Editing,
    Interactive,
}

/// A way of talking to the server.
#[derive(Clone, Copy, Debug, PartialEq, Eq, Structural)]
pub enum Transport {
    Stdio,
    Sse,
    StreamableHttp,
}

impl Mode {
    /// The name of the mode as a mathematical value.
    pub open spec fn name(self) -> Seq<char> {
        match self {
            Mode::Planning => "planning"@,
            Mode::Editing => "editing"@,
            Mode::Interactive => "interactive"@,
        }
    }

    /// The name of the mode.
    pub fn as_str(&self) -> (r: &'static str)
        ensures
            r@ == self.name(),
    {
        match self {
            Mode::Planning => "planning",
            Mode::Editing => "editing",
            Mode::Interactive => "interactive",
        }
    }
}

impl Transport {
    /// The name of the transport as a mathematical value.
    pub open spec fn name(self) -> Seq<char> {
        match self {
            Transport::Stdio => "stdio"@,
            Transport::Sse => "sse"@,
            Transport::StreamableHttp => "streamable-http"@,
        }
    }

    /// The name of the transport.
    pub fn as_str(&self) -> (r: &'static str)
        ensures
            r@ == self.name(),
    {
        match self {
            Transport::Stdio => "stdio",
            Transport::Sse => "sse",
            Transport::StreamableHttp => "streamable-http",
        }
    }
}

/// The context that is assumed when none is named.
pub const DEFAULT_CONTEXT: &'static str = "desktop-app";

/// The settings given on the command line.
pub struct Cli {
    /// The project to activate at startup.
    pub project: Option<String>,
    pub context: String,
    pub modes: Vec<Mode>,
    pub transport: Transport,
}

/// Why the server does not start.
#[derive(Clone, Copy, Debug, PartialEq, Eq, Structural)]
pub enum StartError {
    /// Only the standard streams are served.
    UnsupportedTransport(Transport),
}

/// Checks that the server can be started with these settings: it can when
/// it is to talk over its standard streams.
pub fn run(cli: &Cli) -> (r: Result<(), StartError>)
    ensures
        r == if cli.transport == Transport::Stdio {
            Ok::<(), StartError>(())
        } else {
            Err::<(), StartError>(StartError::UnsupportedTransport(cli.transport))
        },
{
    match cli.transport {
        Transport::Stdio => Ok(()),
        other => Err(StartError::UnsupportedTransport(other)),
    }
}

} // verus!
