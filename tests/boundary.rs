use host_validation::decode::{decode_outcome, DecodedOutcome};
use host_validation::guest::{validate_create_host_params, validate_to_wire};
use host_validation::ipv4::Ipv4Address;
use host_validation::memory::{
    allocate, deallocate, pack_region, read_region, unpack_region, write_region, LinearMemory,
};
use host_validation::validation::{CreateHostParams, ValidationResult};
use host_validation::wire::{encode_outcome, push_quoted};

fn call(input: &[u8]) -> String {
    let mut memory = LinearMemory::new();
    let address = allocate(&mut memory, input.len() as u32).unwrap();
    write_region(&mut memory, address, input);
    let word = validate_create_host_params(&mut memory, address, input.len() as u32).unwrap();
    let (out, len) = unpack_region(word);
    let bytes = read_region(&memory, out, len);
    deallocate(&mut memory, out, len);
    assert_eq!(memory.free, vec![(out, len)]);
    String::from_utf8(bytes).unwrap()
}

#[test]
fn allocate_hands_out_consecutive_regions() {
    let mut memory = LinearMemory::new();
    assert_eq!(allocate(&mut memory, 5), Some(0));
    assert_eq!(allocate(&mut memory, 3), Some(5));
    assert_eq!(allocate(&mut memory, 0), Some(8));
    assert_eq!(memory.len(), 8);
}

#[test]
fn region_round_trip() {
    let mut memory = LinearMemory::new();
    let first = allocate(&mut memory, 4).unwrap();
    write_region(&mut memory, first, b"keep");
    let data = b"hello, guest";
    let second = allocate(&mut memory, data.len() as u32).unwrap();
    write_region(&mut memory, second, data);
    assert_eq!(read_region(&memory, second, data.len() as u32), data.to_vec());
    deallocate(&mut memory, second, data.len() as u32);
    assert_eq!(read_region(&memory, first, 4), b"keep".to_vec());
    assert_eq!(memory.len(), 4 + data.len());
}

#[test]
fn deallocating_an_inner_region_keeps_the_others() {
    let mut memory = LinearMemory::new();
    let a = allocate(&mut memory, 2).unwrap();
    write_region(&mut memory, a, b"ab");
    let b = allocate(&mut memory, 2).unwrap();
    write_region(&mut memory, b, b"cd");
    deallocate(&mut memory, a, 2);
    assert_eq!(read_region(&memory, b, 2), b"cd".to_vec());
    assert_eq!(memory.len(), 4);
}

#[test]
fn allocate_reuses_regions_given_back() {
    let mut memory = LinearMemory::new();
    let a = allocate(&mut memory, 6).unwrap();
    let b = allocate(&mut memory, 2).unwrap();
    write_region(&mut memory, b, b"zz");
    deallocate(&mut memory, a, 6);
    assert_eq!(allocate(&mut memory, 4), Some(a));
    assert_eq!(memory.free, vec![(a + 4, 2)]);
    assert_eq!(allocate(&mut memory, 3), Some(8));
    assert_eq!(allocate(&mut memory, 2), Some(a + 4));
    assert!(memory.free.is_empty());
    assert_eq!(read_region(&memory, b, 2), b"zz".to_vec());
    assert_eq!(memory.len(), 11);
}

#[test]
fn guest_call_reuses_the_input_region() {
    let mut memory = LinearMemory::new();
    let input = br#"{"hostname":"web01","ipv4":"10.0.0.5","padding":"xxxxxxxxxxxxxxxxxxxxxxxxxxxxxxxxxxxxxxxxxxxxxxxxxxxx"}"#;
    let address = allocate(&mut memory, input.len() as u32).unwrap();
    write_region(&mut memory, address, input);
    deallocate(&mut memory, address, input.len() as u32);
    let word = validate_create_host_params(&mut memory, address, input.len() as u32).unwrap();
    let (out, len) = unpack_region(word);
    assert_eq!(out, address);
    assert_eq!(memory.len(), input.len());
    assert_eq!(
        String::from_utf8(read_region(&memory, out, len)).unwrap(),
        r#"{"type":"Success","validated":{"hostname":"web01","ipv4":"10.0.0.5"}}"#
    );
}

#[test]
fn packing_puts_address_high_and_length_low() {
    assert_eq!(pack_region(1, 2), (1u64 << 32) | 2);
    assert_eq!(pack_region(0xdead_beef, 0x10), 0xdead_beef_0000_0010);
    assert_eq!(unpack_region(0xdead_beef_0000_0010), (0xdead_beef, 0x10));
}

#[test]
fn guest_call_answers_success() {
    assert_eq!(
        call(br#"{"hostname":"web01","ipv4":"10.0.0.5"}"#),
        r#"{"type":"Success","validated":{"hostname":"web01","ipv4":"10.0.0.5"}}"#
    );
}

#[test]
fn guest_call_answers_rule_failure() {
    assert_eq!(
        call(br#"{"hostname":"web01","ipv4":"127.0.0.1"}"#),
        r#"{"type":"Error","message":"illegal ipv4 address","path":"ipv4"}"#
    );
}

#[test]
fn guest_call_answers_syntax_failure_without_path() {
    let answer = call(b"not json");
    assert!(answer.starts_with(r#"{"type":"Error","message":""#));
    assert!(answer.ends_with(r#","path":null}"#));
}

#[test]
fn quoting_escapes_json_specials() {
    let mut out = Vec::new();
    push_quoted(&mut out, b"a\"b\\c\nd\te\x01f\x7f");
    assert_eq!(out, b"\"a\\\"b\\\\c\\nd\\te\\u0001f\x7f\"".to_vec());
}

#[test]
fn encoded_outcome_is_json_that_reads_back() {
    let outcome = ValidationResult::Success {
        validated: CreateHostParams {
            hostname: "h\"x\u{e9}".to_string(),
            ipv4: Ipv4Address { a: 1, b: 2, c: 3, d: 4 },
        },
    };
    let wire = encode_outcome(&outcome);
    let v: serde_json::Value = serde_json::from_slice(&wire).unwrap();
    assert_eq!(v["type"], "Success");
    assert_eq!(v["validated"]["hostname"], "h\"x\u{e9}");
    assert_eq!(v["validated"]["ipv4"], "1.2.3.4");
    let error = ValidationResult::<CreateHostParams>::Error { error: "bad".to_string(), path: None };
    let v: serde_json::Value = serde_json::from_slice(&encode_outcome(&error)).unwrap();
    assert_eq!(v["type"], "Error");
    assert_eq!(v["message"], "bad");
    assert!(v["path"].is_null());
}

#[test]
fn wire_form_of_a_request() {
    let wire = validate_to_wire(br#"{"hostname":"localhost","ipv4":"10.0.0.5"}"#);
    assert_eq!(
        String::from_utf8(wire).unwrap(),
        r#"{"type":"Error","message":"illegal hostname","path":"hostname"}"#
    );
}

#[test]
fn wire_round_trip_success() {
    let outcome = ValidationResult::Success {
        validated: CreateHostParams {
            hostname: "we\"b\\0\n1\u{1}\u{e9}".to_string(),
            ipv4: Ipv4Address { a: 10, b: 0, c: 200, d: 5 },
        },
    };
    match decode_outcome(&encode_outcome(&outcome)) {
        Some(DecodedOutcome::Success { hostname, ipv4 }) => {
            assert_eq!(hostname, "we\"b\\0\n1\u{1}\u{e9}".as_bytes().to_vec());
            assert_eq!(ipv4, Ipv4Address { a: 10, b: 0, c: 200, d: 5 });
        }
        _ => panic!("expected a success"),
    }
}

#[test]
fn wire_round_trip_errors() {
    for path in [None, Some("ipv4".to_string()), Some("null".to_string())] {
        let outcome = ValidationResult::<CreateHostParams>::Error {
            error: "illegal \"ipv4\" address\t".to_string(),
            path: path.clone(),
        };
        match decode_outcome(&encode_outcome(&outcome)) {
            Some(DecodedOutcome::Error { error, path: p }) => {
                assert_eq!(error, b"illegal \"ipv4\" address\t".to_vec());
                assert_eq!(p, path.map(|s| s.into_bytes()));
            }
            _ => panic!("expected an error"),
        }
    }
}

#[test]
fn decoding_refuses_other_text() {
    assert!(decode_outcome(b"").is_none());
    assert!(decode_outcome(br#"{"type":"Other"}"#).is_none());
    assert!(decode_outcome(br#"{"type":"Error","message":"x","path":null}x"#).is_none());
    assert!(decode_outcome(br#"{"type":"Success","validated":{"hostname":"h","ipv4":"1.2.3"}}"#)
        .is_none());
    assert!(decode_outcome(br#"{"type":"Error","message":"a\qb","path":null}"#).is_none());
}
