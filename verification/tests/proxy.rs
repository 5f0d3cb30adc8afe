//! The HTTP proxy: sessions, headers and the course of a request.
use cells::headers::{has_room, insert, upgrade_request_headers, upgrade_response_headers};
use cells::http_proxy;
use cells::http_proxy::{
    Action, BodyFrame, BodyRead, Course, Error, ErrorType, Event, GenBackgroundService,
    HttpPeer, HttpProxy, ListeningService, Refusal, RequestHeader, ResponseHeader, ServerConf,
    Session, Stage,
};
use http::{HeaderMap, HeaderName, HeaderValue};
use std::sync::Arc;

fn headers(items: &[(&str, &str)]) -> HeaderMap {
    let mut headers = HeaderMap::new();
    for (name, value) in items {
        headers.append(
            HeaderName::from_bytes(name.as_bytes()).unwrap(),
            HeaderValue::from_str(value).unwrap(),
        );
    }
    headers
}

fn request(items: &[(&str, &str)]) -> RequestHeader<u8> {
    RequestHeader {
        method: "GET".into(),
        uri: "/".into(),
        version: 1,
        headers: headers(items),
    }
}

fn listed(headers: &HeaderMap) -> Vec<(String, String)> {
    let mut listed: Vec<(String, String)> = headers
        .iter()
        .map(|(name, value)| (name.as_str().to_string(), value.to_str().unwrap().to_string()))
        .collect();
    listed.sort();
    listed
}

#[test]
fn errors_have_their_kind_status_and_words() {
    let error = Error::explain(ErrorType::BadRequest, "no host");
    assert!(error.error_type() == ErrorType::BadRequest);
    assert_eq!(error.to_status_code(), 400);
    assert_eq!(error.message(), "Bad request: no host");
    let error = Error::because(ErrorType::ReadError, "eof", "cause");
    assert_eq!(error.message(), "Internal error: ReadError: eof");
    assert_eq!(Error::TimeoutError.to_status_code(), 504);
    assert_eq!(ErrorType::HTTPStatus(418).name(), "HTTPStatus(418)");
}

#[test]
fn inserted_headers_replace_the_others() {
    let mut response = ResponseHeader::build(200, None).ok().unwrap();
    response.insert_header("X-A", "1").ok().unwrap();
    response.insert_header("x-a", "2").ok().unwrap();
    response.insert_header("x-b", "3").ok().unwrap();
    assert_eq!(
        listed(&response.headers),
        [("x-a".to_string(), "2".to_string()), ("x-b".to_string(), "3".to_string())]
    );
    assert!(response.insert_header("bad name", "1").is_err());
    assert!(response.insert_header("x", "line\nbreak").is_err());
    assert!(response.insert_header("", "1").is_err());
    assert_eq!(response.headers.len(), 2);
    let mut many = headers(&[("x-a", "1"), ("x-a", "2"), ("x-b", "3")]);
    assert!(insert(&mut many, "X-A", "4"));
    assert!(!insert(&mut many, &"n".repeat(65536), "5"));
    assert!(insert(&mut many, &"n".repeat(65535), "5"));
    assert_eq!(listed(&many)[1..], [
        ("x-a".to_string(), "4".to_string()),
        ("x-b".to_string(), "3".to_string()),
    ]);
}

#[test]
fn sessions_build_their_response() {
    let mut session: Session<u8, u8> = Session::new(request(&[]), 7);
    assert!(session.has_request_body());
    assert_eq!(session.take_request_body(), Some(7));
    assert!(matches!(
        session.read_request_body(7, BodyFrame::Data(vec![1])),
        BodyRead::Answer(Ok(Some(piece))) if piece == [1]
    ));
    assert!(matches!(session.read_request_body(7, BodyFrame::Other), BodyRead::ReadOn));
    assert!(matches!(
        session.read_request_body(7, BodyFrame::Failed),
        BodyRead::Answer(Err(error)) if error.message() == "Internal error: Error reading request body"
    ));
    session.write_response_body(Some(vec![1, 2]));
    session.write_response_body(None);
    session.write_response_body(Some(vec![3]));
    let built = session.build_response();
    assert_eq!(built.body, [1, 2, 3]);
    let mut session: Session<u8, u8> = Session::new(request(&[]), 7);
    session.respond_error_with_body(5, vec![9]);
    let built = session.build_response();
    assert_eq!((built.status, built.body), (500, vec![9]));
    assert_eq!(http_proxy::join_chunks(&vec![vec![1], vec![], vec![2]]), [1, 2]);
}

#[test]
fn websockets_are_told_by_their_headers() {
    let session: Session<u8, u8> =
        Session::new_websocket(request(&[("sec-websocket-key", "k")]));
    assert!(session.is_websocket());
    assert!(!session.has_request_body());
    let session: Session<u8, u8> = Session::new_websocket(request(&[("host", "h")]));
    assert!(!session.is_websocket());
    let session: Session<u8, u8> = Session::new(request(&[]), 1);
    assert!(!session.is_websocket());
}

#[test]
fn filters_run_before_the_upstream() {
    let (mut course, action) = Course::begin(&headers(&[]));
    assert!(matches!(action, Action::Do(Stage::RequestFilter)));
    assert!(matches!(course.step(Event::Passed), Action::Do(Stage::UpstreamPeer)));
    assert!(matches!(course.step(Event::Passed), Action::Do(Stage::UpstreamRequestFilter)));
    assert!(matches!(course.step(Event::Passed), Action::Do(Stage::ReadBody)));
    assert!(matches!(course.step(Event::Chunk), Action::Do(Stage::FilterChunk)));
    assert!(matches!(course.step(Event::Passed), Action::Do(Stage::ReadBody)));
    assert!(matches!(course.step(Event::EndOfBody), Action::Do(Stage::FilterEnd)));
    assert!(matches!(course.step(Event::Passed), Action::Do(Stage::Upstream)));
    assert!(matches!(course.step(Event::Passed), Action::AnswerUpstream));
}

#[test]
fn failures_are_refused() {
    let (mut course, _) = Course::begin(&headers(&[]));
    assert!(matches!(
        course.step(Event::Failed),
        Action::Refuse(Refusal::InternalServerError)
    ));
    let (mut course, _) = Course::begin(&headers(&[]));
    assert!(matches!(course.step(Event::Handled), Action::AnswerBuilt));
    let (mut course, _) = Course::begin(&headers(&[]));
    course.step(Event::Passed);
    assert!(matches!(course.step(Event::Failed), Action::Refuse(Refusal::BadGateway)));
    assert_eq!(Refusal::BadGateway.status(), 502);
    assert_eq!(Refusal::BadGateway.message(), "Bad Gateway");
}

#[test]
fn upgrades_pass_their_headers_on() {
    let given = headers(&[
        ("host", "h"),
        ("upgrade", "websocket"),
        ("connection", "Upgrade"),
        ("sec-websocket-key", "k"),
    ]);
    let names: Vec<String> =
        listed(&upgrade_request_headers(&given)).into_iter().map(|h| h.0).collect();
    assert_eq!(names, ["connection", "sec-websocket-key", "upgrade"]);
    let answered = headers(&[
        ("date", "d"),
        ("upgrade", "other"),
        ("sec-websocket-accept", "a"),
        ("sec-websocket-accept", "b"),
    ]);
    assert!(has_room(&answered));
    assert_eq!(
        listed(&upgrade_response_headers(&answered)),
        [
            ("connection".to_string(), "upgrade".to_string()),
            ("sec-websocket-accept".to_string(), "a".to_string()),
            ("sec-websocket-accept".to_string(), "b".to_string()),
            ("upgrade".to_string(), "websocket".to_string()),
        ]
    );
    assert_eq!(http_proxy::check_upgraded(true, 101, ""), Ok(()));
    assert_eq!(
        http_proxy::check_upgraded(false, 403, "403 Forbidden"),
        Err("TCP WebSocket upgrade failed with status: 403 Forbidden".to_string())
    );
    assert_eq!(http_proxy::upstream_uri("/u?q".into(), "/o".into()), "/u?q");
    assert_eq!(http_proxy::upstream_uri("host:80".into(), "/o".into()), "/o");
    assert_eq!(http_proxy::upstream_uri("no uri".into(), "/o".into()), "/o");
    assert_eq!(http_proxy::kept_uri("u".into(), Some(String::new()), "o".into()), "o");
    assert_eq!(http_proxy::kept_uri("u".into(), Some("/p".into()), "o".into()), "u");
}

#[test]
fn services_keep_what_they_are_given() {
    let peer = HttpPeer::new("127.0.0.1:80".into(), false, String::new());
    assert!(!peer.is_uds);
    assert!(HttpPeer::new_uds("/tmp/s", false, String::new()).ok().unwrap().is_uds);
    let conf = ServerConf::new().ok().unwrap();
    assert_eq!(ServerConf { grace_period_seconds: Some(3) }.grace_period(), 3);
    let mut service: ListeningService<HttpProxy<u8>> = http_proxy::http_proxy_service(&conf, 5);
    service.add_tcp("0.0.0.0:1");
    assert_eq!(service.tcp_addresses().len(), 1);
    assert_eq!(*service.service().service(), 5);
    let background: GenBackgroundService<u8> = http_proxy::background_service("sweep", 6);
    assert_eq!(background.name(), "BG sweep");
    assert_eq!(*background.task(), 6);
    let shared: Arc<u8> = background.task();
    assert_eq!(*shared, 6);
}
