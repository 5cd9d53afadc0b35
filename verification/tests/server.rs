use hello_http::response::{Content, Resolution, Response, Status};
use hello_http::server::{
    resolve_outcome, ListenerAction, ListenerState, RouteOutcome, ServerConfig,
};

#[test]
fn bind_address_joins_interface_and_port() {
    let config = ServerConfig {
        port: 7878,
        interface_address: String::from("0.0.0.0"),
        threads: 8,
        resource_dir: String::from("/res"),
    };
    assert_eq!(config.bind_address(), "0.0.0.0:7878");
}

#[test]
fn listener_handles_connections_while_enabled() {
    let mut state = ListenerState::Running;
    assert_eq!(state.on_connection(true), ListenerAction::HandleConnection);
    assert_eq!(state, ListenerState::Running);
    assert_eq!(state.on_connection(true), ListenerAction::HandleConnection);
    assert_eq!(state, ListenerState::Running);
}

#[test]
fn listener_stops_once_disabled_and_stays_stopped() {
    let mut state = ListenerState::Running;
    // the shutdown flag went down; the pending (dummy) connection is not handled
    assert_eq!(state.on_connection(false), ListenerAction::Shutdown);
    assert_eq!(state, ListenerState::Stopped);
    // even with the flag up again, a stopped loop accepts nothing more
    assert_eq!(state.on_connection(true), ListenerAction::Shutdown);
    assert_eq!(state, ListenerState::Stopped);
}

#[test]
fn parse_failure_earns_a_bad_request() {
    match resolve_outcome(RouteOutcome::ParseFailed, "/res") {
        Resolution::Done(t) => {
            assert_eq!(t.status, Status::BadRequest);
            assert_eq!(t.body, "Bad request");
        }
        Resolution::ReadFile(..) => panic!("a parse failure needs no read"),
    }
}

#[test]
fn router_failure_earns_a_generic_internal_error() {
    match resolve_outcome(RouteOutcome::RouterFailed, "/res") {
        Resolution::Done(t) => {
            assert_eq!(t.status, Status::InternalError);
            assert_eq!(t.body, "Failed to process request");
        }
        Resolution::ReadFile(..) => panic!("a router failure needs no read"),
    }
}

#[test]
fn routed_responses_go_through_the_resolver() {
    let routed = RouteOutcome::Routed(Response {
        status: Status::OK,
        content: Content::ServerFile(String::from("hello.html")),
    });
    match resolve_outcome(routed, "/res") {
        Resolution::ReadFile(status, path) => {
            assert_eq!(status, Status::OK);
            assert_eq!(path, "/res/hello.html");
        }
        Resolution::Done(_) => panic!("a server file needs a read"),
    }
}
