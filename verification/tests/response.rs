use hoplite::hal::HalValue;
use hoplite::response::{error_value, native_response, plain_response, response_headers, response_value, NativeResponse};

fn keyword(text: &str) -> HalValue {
    HalValue::Keyword(text.into())
}

fn string(text: &str) -> HalValue {
    HalValue::String(text.into())
}

fn map(entries: Vec<(HalValue, HalValue)>) -> HalValue {
    HalValue::Mapping(entries)
}

#[test]
fn reads_status_headers_and_body() {
    let value = map(vec![
        (keyword("status"), HalValue::Number(201)),
        (
            keyword("headers"),
            map(vec![(string("content-type"), string("text/plain")), (keyword("x-id"), string("7"))]),
        ),
        (keyword("body"), string("hé")),
    ]);
    let response = native_response(&value).unwrap();
    assert_eq!(response.status, 201);
    assert_eq!(
        response.headers,
        vec![("content-type".to_string(), "text/plain".to_string()), ("x-id".to_string(), "7".to_string())]
    );
    assert_eq!(response.body, "hé".as_bytes().to_vec());
}

#[test]
fn absent_fields_default_and_the_last_entry_wins() {
    let response = native_response(&map(vec![])).unwrap();
    assert_eq!(response.status, 200);
    assert!(response.headers.is_empty());
    assert!(response.body.is_empty());
    let value = map(vec![
        (keyword("status"), HalValue::Number(500)),
        (keyword("body"), HalValue::Nil),
        (keyword("status"), HalValue::Number(204)),
        (string("status"), HalValue::Number(999)),
    ]);
    let response = native_response(&value).unwrap();
    assert_eq!(response.status, 204);
    assert!(response.body.is_empty());
}

#[test]
fn refuses_malformed_responses() {
    let cases = vec![
        (HalValue::Number(1), "Hoplite handler must return a response map"),
        (map(vec![(keyword("status"), string("200"))]), "Hoplite response status must be a number"),
        (map(vec![(keyword("status"), HalValue::Number(99))]), "Hoplite response status must be between 100 and 599"),
        (map(vec![(keyword("status"), HalValue::Number(600))]), "Hoplite response status must be between 100 and 599"),
        (map(vec![(keyword("body"), HalValue::Number(1))]), "Hoplite response body must be a string or bytes"),
        (map(vec![(keyword("headers"), string("x"))]), "Hoplite response headers must be a map"),
        (
            map(vec![(keyword("headers"), map(vec![(HalValue::Number(1), string("x"))]))]),
            "Hoplite response header names must be text",
        ),
        (
            map(vec![(keyword("headers"), map(vec![(string("x"), HalValue::Number(1))]))]),
            "Hoplite response header values must be strings",
        ),
    ];
    for (value, message) in cases {
        assert_eq!(native_response(&value).unwrap_err(), message);
    }
    assert_eq!(response_headers(None).unwrap(), Vec::new());
}

#[test]
fn a_response_map_reads_back_as_the_response() {
    let response = NativeResponse {
        status: 404,
        headers: vec![("a".into(), "1".into()), ("b".into(), "2".into())],
        body: vec![0, 159, 255],
    };
    let again = native_response(&response_value(&response)).unwrap();
    assert_eq!(again.status, response.status);
    assert_eq!(again.headers, response.headers);
    assert_eq!(again.body, response.body);
}

#[test]
fn plain_and_error_values_have_their_fields() {
    let response = native_response(&plain_response(404, "Not Found\n")).unwrap();
    assert_eq!(response.status, 404);
    assert_eq!(response.headers, vec![("content-type".to_string(), "text/plain".to_string())]);
    assert_eq!(response.body, b"Not Found\n".to_vec());
    match error_value("hoplite/timeout", "took too long".into()) {
        HalValue::Mapping(entries) => {
            assert_eq!(entries.len(), 4);
            assert!(matches!(&entries[0].1, HalValue::Keyword(code) if code == "hoplite/timeout"));
            assert!(matches!(&entries[1].1, HalValue::String(message) if message == "took too long"));
            assert!(matches!(&entries[3].1, HalValue::Bool(false)));
        }
        _ => panic!("error value is a map"),
    }
}
