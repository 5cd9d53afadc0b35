//! The server's configuration and the decisions of its two loops: what the
//! accept loop does with each accepted connection, and which response a
//! connection ends with, depending on how far it got.
//!
//! The loops themselves live with the sockets and threads, outside this
//! crate's core; they feed the flag and the outcomes in as plain values.

use vstd::prelude::*;

verus! {

use vstd::string::StringExecFns;
use crate::text::{decimal_digits, push_decimal};
use crate::response::{Status, TextResponse, Response, Resolution, ResolutionView, spec_resolve};

/// The immutable configuration the server starts with, shared read-only by
/// every connection.
pub struct ServerConfig {
    /// TCP port to listen on.
    pub port: u32,
    /// Address naming the network interfaces to listen on.
    pub interface_address: String,
    /// Number of worker threads; a server needs at least one.
    pub threads: usize,
    /// Absolute path of the directory server-relative files resolve under.
    pub resource_dir: String,
}

impl ServerConfig {
    /// The `address:port` the listener binds to.
    pub open spec fn spec_bind_address(self) -> Seq<char> {
        self.interface_address@ + ":"@ + decimal_digits(self.port as nat)
    }

    /// Renders the address the listener binds to.
    pub fn bind_address(&self) -> (r: String)
        ensures
            r@ == self.spec_bind_address(),
    {
        let mut r = self.interface_address.clone();
        r.append(":");
        push_decimal(&mut r, self.port as u64);
        r
    }
}

/// The accept loop's state: running, or stopped for good.
#[derive(Clone, Copy, Debug, PartialEq, Eq, Structural)]
pub enum ListenerState {
    Running,
    Stopped,
}

/// What the accept loop does with an accepted connection.
#[derive(Clone, Copy, Debug, PartialEq, Eq, Structural)]
pub enum ListenerAction {
    /// Wrap the connection in a job and hand it to the pool.
    HandleConnection,
    /// Leave the loop without processing the pending connection.
    Shutdown,
}

/// One iteration of the accept loop, as a function of its state and the
/// shutdown flag: while the flag is up the connection is handled; once the
/// flag is down the loop stops, and a stopped loop never starts again.
pub open spec fn spec_listener_step(s: ListenerState, enabled: bool) -> (
    ListenerState,
    ListenerAction,
) {
    if s is Stopped || !enabled {
        (ListenerState::Stopped, ListenerAction::Shutdown)
    } else {
        (ListenerState::Running, ListenerAction::HandleConnection)
    }
}

impl ListenerState {
    /// Drives the accept loop by one accepted connection: the flag is read
    /// after every accept, and decides the connection's fate.
    pub fn on_connection(&mut self, enabled: bool) -> (a: ListenerAction)
        ensures
            (*final(self), a) == spec_listener_step(*old(self), enabled),
    {
        if enabled {
            match self {
                ListenerState::Running => ListenerAction::HandleConnection,
                ListenerState::Stopped => ListenerAction::Shutdown,
            }
        } else {
            *self = ListenerState::Stopped;
            ListenerAction::Shutdown
        }
    }
}

/// Law: once the shutdown flag is down the loop shuts down, and a stopped
/// loop stays stopped whatever the flag says — no further connection is
/// ever handled.
pub proof fn lemma_shutdown_is_final(s: ListenerState, enabled: bool)
    ensures
        spec_listener_step(s, false).0 is Stopped,
        spec_listener_step(s, false).1 is Shutdown,
        spec_listener_step(ListenerState::Stopped, enabled).0 is Stopped,
        spec_listener_step(ListenerState::Stopped, enabled).1 is Shutdown,
{
}

/// How far a connection got before its response must be built: parsing
/// failed, the router failed, or the router produced a response.
pub enum RouteOutcome {
    ParseFailed,
    RouterFailed,
    Routed(Response),
}

/// The response a connection ends with.  A parse failure earns a
/// `Bad request`; a router failure earns a generic internal error that
/// leaks nothing; a routed response is reduced by the resolution machine.
pub fn resolve_outcome(outcome: RouteOutcome, resource_dir: &str) -> (r: Resolution)
    ensures
        outcome is ParseFailed ==> r@ == ResolutionView::Done(Status::BadRequest, "Bad request"@),
        outcome is RouterFailed ==> r@ == ResolutionView::Done(
            Status::InternalError,
            "Failed to process request"@,
        ),
        outcome matches RouteOutcome::Routed(resp) ==> r@ == spec_resolve(
            resp.status,
            resp.content@,
            resource_dir@,
        ),
{
    match outcome {
        RouteOutcome::ParseFailed => Resolution::Done(
            TextResponse { status: Status::BadRequest, body: String::from_str("Bad request") },
        ),
        RouteOutcome::RouterFailed => Resolution::Done(
            TextResponse {
                status: Status::InternalError,
                body: String::from_str("Failed to process request"),
            },
        ),
        RouteOutcome::Routed(resp) => resp.resolve(resource_dir),
    }
}

} // verus!
