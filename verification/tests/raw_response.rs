use hoplite::hal::HalValue;
use hoplite::raw_response::{raw_status, RawBuilders};

fn headers() -> HalValue {
    HalValue::Mapping(vec![(HalValue::String("content-type".into()), HalValue::String("text/plain".into()))])
}

#[test]
fn raw_status_must_be_a_number_from_100_to_599() {
    assert_eq!(raw_status(&HalValue::Number(100)), Ok(100));
    assert_eq!(raw_status(&HalValue::Number(599)), Ok(599));
    assert_eq!(
        raw_status(&HalValue::Number(99)).unwrap_err(),
        "raw/start! status must be between 100 and 599"
    );
    assert_eq!(
        raw_status(&HalValue::Number(600)).unwrap_err(),
        "raw/start! status must be between 100 and 599"
    );
    assert_eq!(raw_status(&HalValue::String("200".into())).unwrap_err(), "raw/start! status must be a number");
}

#[test]
fn a_raw_response_is_started_written_and_finished() {
    let mut builders = RawBuilders::new();
    builders.start(7, &HalValue::Number(201), &headers()).unwrap();
    assert!(builders.started(7));
    builders.write(7, &HalValue::String("hello, ".into())).unwrap();
    builders.write(7, &HalValue::Bytes(b"world".to_vec())).unwrap();
    let response = builders.finish(7).unwrap();
    assert_eq!(response.status, 201);
    assert_eq!(response.headers, vec![("content-type".to_string(), "text/plain".to_string())]);
    assert_eq!(response.body, b"hello, world".to_vec());
    assert!(!builders.started(7));
}

#[test]
fn a_raw_response_starts_only_once() {
    let mut builders = RawBuilders::new();
    builders.start(1, &HalValue::Number(200), &headers()).unwrap();
    builders.write(1, &HalValue::String("lost".into())).unwrap();
    assert_eq!(
        builders.start(1, &HalValue::Number(500), &headers()).unwrap_err(),
        "raw/response-started: response already started"
    );
    let response = builders.finish(1).unwrap();
    assert_eq!(response.status, 500);
    assert!(response.body.is_empty());
}

#[test]
fn writes_and_finishes_need_a_started_response() {
    let mut builders = RawBuilders::new();
    assert_eq!(
        builders.write(3, &HalValue::String("x".into())).unwrap_err(),
        "raw/response-not-started: call start! first"
    );
    assert_eq!(builders.finish(3).unwrap_err(), "raw/response-not-started: call start! first");
    builders.start(3, &HalValue::Number(200), &headers()).unwrap();
    assert_eq!(builders.write(3, &HalValue::Number(1)).unwrap_err(), "raw/write! expects a string or bytes");
    assert_eq!(
        builders.start(4, &HalValue::Number(42), &headers()).unwrap_err(),
        "raw/start! status must be between 100 and 599"
    );
    assert!(!builders.started(4));
}
