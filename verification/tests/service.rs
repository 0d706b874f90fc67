use chat_relay::headers::Headers;
use chat_relay::service::{
    app_fn, decimal_text, respond, DemoApp, Request, ServiceError,
};

fn request() -> Request {
    let mut headers = Headers::new();
    headers.insert("Accept".to_owned(), "*/*".to_owned());
    Request { path_and_query: "/fake/path?page=1".to_owned(), headers, body: vec![1, 2, 3] }
}

#[test]
fn decimal_text_writes_digits() {
    assert_eq!(decimal_text(0), "0");
    assert_eq!(decimal_text(7), "7");
    assert_eq!(decimal_text(10), "10");
    assert_eq!(decimal_text(1234567890), "1234567890");
    assert_eq!(decimal_text(usize::MAX), usize::MAX.to_string());
}

#[test]
fn respond_refuses_the_third_of_four() {
    assert_eq!(respond(request(), 2).unwrap_err(), ServiceError::Refused);
    assert_eq!(respond(request(), 6).unwrap_err(), ServiceError::Refused);
    assert_eq!(respond(request(), 4002).unwrap_err(), ServiceError::Refused);
    assert!(respond(request(), 3).is_ok());
    assert!(respond(request(), 4001).is_ok());
}

#[test]
fn respond_hands_back_headers_and_body_with_the_count() {
    let answer = respond(request(), 41).unwrap();
    assert_eq!(answer.status, 200);
    assert_eq!(answer.headers.len(), 2);
    assert_eq!(answer.headers.get("Accept"), Some(&"*/*".to_owned()));
    assert_eq!(answer.headers.get("X-Counter"), Some(&"41".to_owned()));
    assert_eq!(answer.body, vec![1, 2, 3]);
}

#[test]
fn respond_overwrites_a_count_in_the_request() {
    let mut stale = request();
    stale.headers.insert("X-Counter".to_owned(), "stale".to_owned());
    let answer = respond(stale, 0).unwrap();
    assert_eq!(answer.headers.len(), 2);
    assert_eq!(answer.headers.get("X-Counter"), Some(&"0".to_owned()));
}

#[test]
fn demo_app_counts_from_zero() {
    let mut app = DemoApp::new();
    let mut counts = Vec::new();
    for _ in 0..8 {
        match app.call(request()) {
            Ok(answer) => counts.push(answer.headers.get("X-Counter").cloned()),
            Err(ServiceError::Refused) => counts.push(None),
        }
    }
    let expected: Vec<Option<String>> = vec![
        Some("0".to_owned()),
        Some("1".to_owned()),
        None,
        Some("3".to_owned()),
        Some("4".to_owned()),
        Some("5".to_owned()),
        None,
        Some("7".to_owned()),
    ];
    assert_eq!(counts, expected);
    let mut other = DemoApp::default();
    assert!(other.call(request()).is_ok());
}

#[test]
fn app_fn_hands_requests_to_its_function() {
    let mut seen = 0;
    let mut app = app_fn(|request: Request| {
        seen += 1;
        std::future::ready(respond(request, 5))
    });
    let first = app.call(request());
    let second = app.call(request());
    drop(app);
    assert_eq!(seen, 2);
    drop(first);
    drop(second);
}

#[test]
fn service_error_in_words() {
    assert_eq!(ServiceError::Refused.describe(), "Failing 25% of the time, just for fun");
}

#[test]
fn headers_hold_one_value_for_each_name() {
    let mut headers = Headers::new();
    assert!(headers.is_empty());
    assert_eq!(headers.get("a"), None);
    headers.insert("a".to_owned(), "1".to_owned());
    headers.insert("b".to_owned(), "2".to_owned());
    headers.insert("a".to_owned(), "3".to_owned());
    assert!(!headers.is_empty());
    assert_eq!(headers.len(), 2);
    assert_eq!(headers.get("a"), Some(&"3".to_owned()));
    assert_eq!(headers.get("b"), Some(&"2".to_owned()));
    assert_eq!(headers.get("A"), None);
    assert_eq!(headers.get(""), None);
}
