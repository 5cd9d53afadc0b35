use hello_http::response::{
    response_after_read, Content, Resolution, Response, Status, TextResponse,
};

#[test]
fn status_lines_are_fixed() {
    assert_eq!(Status::OK.as_str(), "HTTP/1.1 200 OK");
    assert_eq!(Status::BadRequest.as_str(), "HTTP/1.1 400 BAD REQUEST");
    assert_eq!(Status::NotFound.as_str(), "HTTP/1.1 404 NOT FOUND");
    assert_eq!(Status::InternalError.as_str(), "HTTP/1.1 500 INTERNAL SERVER ERROR");
}

#[test]
fn serialized_response_counts_its_body_bytes() {
    let r = TextResponse { status: Status::OK, body: String::from("hi") };
    assert_eq!(
        r.as_string(),
        "HTTP/1.1 200 OK\r\nContent-Length: 2\r\nCache-Control: no-store, no-cache, must-revalidate\r\n\r\nhi"
    );
}

#[test]
fn serialized_empty_body_has_length_zero() {
    let r = TextResponse { status: Status::BadRequest, body: String::new() };
    assert_eq!(
        r.as_string(),
        "HTTP/1.1 400 BAD REQUEST\r\nContent-Length: 0\r\nCache-Control: no-store, no-cache, must-revalidate\r\n\r\n"
    );
}

#[test]
fn serialized_length_renders_every_digit() {
    let r = TextResponse { status: Status::OK, body: String::from("0123456789") };
    assert_eq!(
        r.as_string(),
        "HTTP/1.1 200 OK\r\nContent-Length: 10\r\nCache-Control: no-store, no-cache, must-revalidate\r\n\r\n0123456789"
    );
}

#[test]
fn serialized_response_counts_bytes_not_characters() {
    let r = TextResponse { status: Status::NotFound, body: String::from("€") };
    assert_eq!(
        r.as_string(),
        "HTTP/1.1 404 NOT FOUND\r\nContent-Length: 3\r\nCache-Control: no-store, no-cache, must-revalidate\r\n\r\n€"
    );
}

#[test]
fn text_is_terminal() {
    let resp = Response { status: Status::OK, content: Content::Text(String::from("body")) };
    match resp.resolve("/res") {
        Resolution::Done(t) => {
            assert_eq!(t.status, Status::OK);
            assert_eq!(t.body, "body");
        }
        Resolution::ReadFile(..) => panic!("text must resolve without a read"),
    }
}

#[test]
fn user_file_asks_for_its_own_path() {
    let resp = Response {
        status: Status::OK,
        content: Content::UserFile(String::from("/tmp/hello.html")),
    };
    match resp.resolve("/res") {
        Resolution::ReadFile(status, path) => {
            assert_eq!(status, Status::OK);
            assert_eq!(path, "/tmp/hello.html");
        }
        Resolution::Done(_) => panic!("a user file needs a read"),
    }
}

#[test]
fn server_file_resolves_under_the_resource_directory() {
    let resp = Response {
        status: Status::OK,
        content: Content::ServerFile(String::from("hello.html")),
    };
    match resp.resolve("/res") {
        Resolution::ReadFile(status, path) => {
            assert_eq!(status, Status::OK);
            assert_eq!(path, "/res/hello.html");
        }
        Resolution::Done(_) => panic!("a server file needs a read"),
    }
}

#[test]
fn unknown_route_reads_the_not_found_page() {
    let resp = Response { status: Status::OK, content: Content::UnknownRoute };
    match resp.resolve("/res") {
        Resolution::ReadFile(status, path) => {
            assert_eq!(status, Status::NotFound);
            assert_eq!(path, "/res/404.html");
        }
        Resolution::Done(_) => panic!("an unknown route needs a read"),
    }
}

#[test]
fn unknown_route_without_the_page_is_an_internal_error() {
    let resp = Response { status: Status::OK, content: Content::UnknownRoute };
    let status = match resp.resolve("/res") {
        Resolution::ReadFile(status, _path) => status,
        Resolution::Done(_) => panic!("an unknown route needs a read"),
    };
    // the 404 page itself is absent: the read fails
    let t = response_after_read(status, None);
    assert_eq!(t.status, Status::InternalError);
    assert_eq!(t.body, "Resource not available.");
}

#[test]
fn a_read_that_succeeds_keeps_the_status() {
    let t = response_after_read(Status::NotFound, Some(String::from("gone")));
    assert_eq!(t.status, Status::NotFound);
    assert_eq!(t.body, "gone");
}
