use host_validation::ipv4::{parse_ipv4, Ipv4Address};
use host_validation::validation::{
    from_bytes, BusinessValidationError, CreateHostParams, JsonRejection, ValidationResult,
};

fn ip(a: u8, b: u8, c: u8, d: u8) -> Ipv4Address {
    Ipv4Address { a, b, c, d }
}

fn expect_error(r: ValidationResult<CreateHostParams>) -> (String, Option<String>) {
    match r {
        ValidationResult::Error { error, path } => (error, path),
        ValidationResult::Success { .. } => panic!("expected an error"),
    }
}

#[test]
fn valid_request_echoes_fields() {
    let r = CreateHostParams::parse_and_validate(r#"{"hostname":"web01","ipv4":"10.0.0.5"}"#);
    match r {
        ValidationResult::Success { validated } => {
            assert_eq!(validated.hostname, "web01");
            assert_eq!(validated.ipv4, ip(10, 0, 0, 5));
        }
        ValidationResult::Error { error, .. } => panic!("unexpected error {}", error),
    }
}

#[test]
fn denied_hostname_is_refused() {
    let (error, path) = expect_error(CreateHostParams::parse_and_validate(
        r#"{"hostname":"localhost","ipv4":"10.0.0.5"}"#,
    ));
    assert_eq!(error, "illegal hostname");
    assert_eq!(path.as_deref(), Some("hostname"));
}

#[test]
fn denied_hostname_takes_precedence_over_address() {
    let (error, path) = expect_error(CreateHostParams::parse_and_validate(
        r#"{"hostname":"batman","ipv4":"127.0.0.1"}"#,
    ));
    assert_eq!(error, "illegal hostname");
    assert_eq!(path.as_deref(), Some("hostname"));
}

#[test]
fn denylist_is_case_sensitive() {
    let r = CreateHostParams::parse_and_validate(r#"{"hostname":"LocalHost","ipv4":"10.0.0.5"}"#);
    assert!(matches!(r, ValidationResult::Success { .. }));
}

#[test]
fn loopback_address_is_refused() {
    let (error, path) = expect_error(CreateHostParams::parse_and_validate(
        r#"{"hostname":"web01","ipv4":"127.0.0.1"}"#,
    ));
    assert_eq!(error, "illegal ipv4 address");
    assert_eq!(path.as_deref(), Some("ipv4"));
}

#[test]
fn broadcast_address_is_refused() {
    let (error, path) = expect_error(CreateHostParams::parse_and_validate(
        r#"{"hostname":"web01","ipv4":"255.255.255.255"}"#,
    ));
    assert_eq!(error, "illegal ipv4 address");
    assert_eq!(path.as_deref(), Some("ipv4"));
}

#[test]
fn malformed_address_is_located_at_ipv4() {
    let (error, path) = expect_error(CreateHostParams::parse_and_validate(
        r#"{"hostname":"web01","ipv4":"not-an-ip"}"#,
    ));
    assert!(!error.is_empty());
    assert_eq!(path.as_deref(), Some("ipv4"));
}

#[test]
fn text_that_is_not_json_has_no_path() {
    let (error, path) = expect_error(CreateHostParams::parse_and_validate("not json"));
    assert!(!error.is_empty());
    assert_eq!(path, None);
}

#[test]
fn truncated_json_has_no_path() {
    let (_, path) = expect_error(CreateHostParams::parse_and_validate(r#"{"hostname":"web01""#));
    assert_eq!(path, None);
}

#[test]
fn missing_hostname_is_located() {
    let (_, path) = expect_error(CreateHostParams::parse_and_validate(r#"{"ipv4":"10.0.0.5"}"#));
    assert_eq!(path.as_deref(), Some("hostname"));
}

#[test]
fn wrong_typed_hostname_is_located() {
    let (_, path) =
        expect_error(CreateHostParams::parse_and_validate(r#"{"hostname":5,"ipv4":"10.0.0.5"}"#));
    assert_eq!(path.as_deref(), Some("hostname"));
}

#[test]
fn missing_ipv4_is_located() {
    let (_, path) = expect_error(CreateHostParams::parse_and_validate(r#"{"hostname":"web01"}"#));
    assert_eq!(path.as_deref(), Some("ipv4"));
}

#[test]
fn wrong_typed_ipv4_is_located() {
    let (_, path) =
        expect_error(CreateHostParams::parse_and_validate(r#"{"hostname":"web01","ipv4":[10]}"#));
    assert_eq!(path.as_deref(), Some("ipv4"));
}

#[test]
fn document_that_is_not_an_object_is_a_data_error() {
    match from_bytes(b"[1, 2]") {
        Err(JsonRejection::JsonDataError { path, .. }) => assert_eq!(path, "."),
        _ => panic!("expected a data error"),
    }
}

#[test]
fn from_bytes_reports_syntax_errors() {
    assert!(matches!(from_bytes(b"{\"hostname\":"), Err(JsonRejection::JsonSyntaxError { .. })));
}

#[test]
fn from_bytes_reads_fields_in_any_order_and_unescapes() {
    match from_bytes(br#"{"ipv4":"192.168.1.20","hostname":"w\"eb"}"#) {
        Ok(p) => {
            assert_eq!(p.hostname, "w\"eb");
            assert_eq!(p.ipv4, ip(192, 168, 1, 20));
        }
        _ => panic!("expected a request"),
    }
}

#[test]
fn validate_stops_at_first_rule() {
    let p = CreateHostParams { hostname: "localhost".to_string(), ipv4: ip(255, 255, 255, 255) };
    match p.validate() {
        Err(BusinessValidationError { message, path }) => {
            assert_eq!(message, "illegal hostname");
            assert_eq!(path, "hostname");
        }
        Ok(()) => panic!("expected a rule failure"),
    }
    let q = CreateHostParams { hostname: "db".to_string(), ipv4: ip(127, 9, 9, 9) };
    assert!(q.validate().is_err());
    let ok = CreateHostParams { hostname: "db".to_string(), ipv4: ip(8, 8, 8, 8) };
    assert!(ok.validate().is_ok());
}

#[test]
fn parse_ipv4_accepts_dotted_decimal() {
    assert_eq!(parse_ipv4(b"0.0.0.0"), Some(ip(0, 0, 0, 0)));
    assert_eq!(parse_ipv4(b"255.254.10.1"), Some(ip(255, 254, 10, 1)));
    assert_eq!(parse_ipv4(b"1.22.133.9"), Some(ip(1, 22, 133, 9)));
}

#[test]
fn parse_ipv4_refuses_other_text() {
    for t in [
        &b""[..], b"1.2.3", b"1.2.3.4.5", b"256.1.1.1", b"01.2.3.4", b"1..2.3", b"1.2.3.4 ",
        b"1.2.3.1000", b"a.b.c.d", b"1.2.3.", b".1.2.3",
    ] {
        assert_eq!(parse_ipv4(t), None);
    }
}

#[test]
fn address_text_round_trips() {
    let a = ip(172, 16, 0, 254);
    assert_eq!(a.to_text(), b"172.16.0.254".to_vec());
    assert_eq!(parse_ipv4(&a.to_text()), Some(a));
}

#[test]
fn address_classes() {
    assert!(ip(127, 0, 0, 1).is_loopback());
    assert!(ip(127, 255, 0, 3).is_loopback());
    assert!(!ip(128, 0, 0, 1).is_loopback());
    assert!(ip(255, 255, 255, 255).is_broadcast());
    assert!(!ip(255, 255, 255, 254).is_broadcast());
}

#[test]
fn syntax_failure_carries_the_decoder_message() {
    let text = "{\"hostname\": tru";
    let expected = match from_bytes(text.as_bytes()) {
        Err(JsonRejection::JsonSyntaxError { message }) => message,
        _ => panic!("expected a syntax error"),
    };
    assert!(expected.contains("line 1"));
    let (error, path) = expect_error(CreateHostParams::parse_and_validate(text));
    assert_eq!(error, expected);
    assert_eq!(path, None);
}
