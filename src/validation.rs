//! The validation engine: decoding a create-host request and checking it
//! against the business rules.
use vstd::prelude::*;
use vstd::utf8::encode_utf8;
use crate::ipv4::{Ipv4Address, parse_ipv4, lemma_text_injective};
use crate::json::{
    error_message, json_document, json_error, json_error_text, json_is_object, member, member_text,
    parse_document,
};

verus! {

/// Why a request body could not be decoded.
#[derive(Debug)]
pub enum JsonRejection {
    /// Well-formed JSON whose content does not have the request's shape.
    JsonDataError { message: String, path: String },
    /// Text that is not one well-formed JSON document.
    JsonSyntaxError { message: String },
}

/// The fields of a request to create a host.
#[derive(Debug)]
pub struct CreateHostParams {
    pub hostname: String,
    pub ipv4: Ipv4Address,
}

/// A created host record.
#[derive(Debug)]
pub struct Host {
    pub id: u64,
    pub hostname: String,
    pub ipv4: Ipv4Address,
}

/// A business rule that a well-formed request breaks, and the field it is about.
#[derive(Debug)]
pub struct BusinessValidationError {
    pub message: String,
    pub path: String,
}

/// The outcome of decoding and validating one request.
#[derive(Debug)]
pub enum ValidationResult<T> {
    Success { validated: T },
    Error { error: String, path: Option<String> },
}

pub open spec fn root_path() -> Seq<char> {
    "."@
}

pub open spec fn hostname_key() -> Seq<char> {
    "hostname"@
}

pub open spec fn ipv4_key() -> Seq<char> {
    "ipv4"@
}

/// Whether a text spells some IPv4 address in dotted-decimal form.
pub open spec fn is_ipv4_text(t: Seq<char>) -> bool {
    exists|ip: Ipv4Address| encode_utf8(t) == ip.text()
}

/// The first shape failure of a JSON document read as a request, as
/// `(path, message)`: the document must be an object, then `hostname` must be
/// present and a string, then `ipv4` must be present and a string that spells an
/// IPv4 address.
pub open spec fn data_failure(doc: serde_json::Value) -> Option<(Seq<char>, Seq<char>)> {
    if !json_is_object(doc) {
        Some((root_path(), "invalid type: expected struct CreateHostParams"@))
    } else if member_text(doc, hostname_key()) is None {
        Some((hostname_key(), "invalid type or missing field: expected a string"@))
    } else if !(member_text(doc, ipv4_key()) matches Some(t) && is_ipv4_text(t)) {
        Some((ipv4_key(), "invalid type or syntax: expected an IPv4 address"@))
    } else {
        None
    }
}

/// `(hostname, ipv4)` are the fields that the document spells.
pub open spec fn decodes_to(doc: serde_json::Value, hostname: Seq<char>, ipv4: Ipv4Address) -> bool {
    &&& member_text(doc, hostname_key()) == Some(hostname)
    &&& member_text(doc, ipv4_key()) matches Some(t) && encode_utf8(t) == ipv4.text()
}

/// What `from_bytes` returns on a text `b`.
pub open spec fn decode_result(b: Seq<u8>, r: Result<CreateHostParams, JsonRejection>) -> bool {
    match json_document(b) {
        None => r matches Err(JsonRejection::JsonSyntaxError { message }) && message@
            == json_error_text(json_error(b)),
        Some(doc) => match data_failure(doc) {
            Some((path, message)) => r matches Err(JsonRejection::JsonDataError { message: m, path: p })
                && m@ == message && p@ == path,
            None => r matches Ok(v) && decodes_to(doc, v.hostname@, v.ipv4),
        },
    }
}

/// Hostnames that are always refused, compared exactly.
pub open spec fn is_denied_hostname(h: Seq<char>) -> bool {
    h == "localhost"@ || h == "batman"@
}

/// The first business rule that `(hostname, ipv4)` breaks, as `(message, path)`.
pub open spec fn rule_failure(hostname: Seq<char>, ipv4: Ipv4Address) -> Option<(Seq<char>, Seq<char>)> {
    if is_denied_hostname(hostname) {
        Some(("illegal hostname"@, hostname_key()))
    } else if ipv4.spec_is_loopback() || ipv4.spec_is_broadcast() {
        Some(("illegal ipv4 address"@, ipv4_key()))
    } else {
        None
    }
}

fn text(s: &str) -> (r: String)
    ensures
        r@ == s@,
{
    s.to_owned()
}

fn data_error(message: &str, path: &str) -> (r: JsonRejection)
    ensures
        r matches JsonRejection::JsonDataError { message: m, path: p } && m@ == message@ && p@
            == path@,
{
    JsonRejection::JsonDataError { message: text(message), path: text(path) }
}

/// Decodes a request body. Fields are decoded in a fixed order, `hostname`
/// before `ipv4`, and the first failure is the one reported.
pub fn from_bytes(bytes: &[u8]) -> (r: Result<CreateHostParams, JsonRejection>)
    ensures
        decode_result(bytes@, r),
{
    let doc = match parse_document(bytes) {
        Ok(doc) => doc,
        Err(e) => {
            return Err(JsonRejection::JsonSyntaxError { message: error_message(&e) });
        },
    };
    if !doc.is_object() {
        return Err(data_error("invalid type: expected struct CreateHostParams", "."));
    }
    let hostname = match member(&doc, "hostname") {
        Some(m) => match m.as_str() {
            Some(s) => text(s),
            None => {
                return Err(data_error("invalid type or missing field: expected a string", "hostname"));
            },
        },
        None => {
            return Err(data_error("invalid type or missing field: expected a string", "hostname"));
        },
    };
    let failure = "invalid type or syntax: expected an IPv4 address";
    let ipv4 = match member(&doc, "ipv4") {
        Some(m) => match m.as_str() {
            Some(s) => match parse_ipv4(s.as_bytes()) {
                Some(ip) => ip,
                None => {
                    return Err(data_error(failure, "ipv4"));
                },
            },
            None => {
                return Err(data_error(failure, "ipv4"));
            },
        },
        None => {
            return Err(data_error(failure, "ipv4"));
        },
    };
    Ok(CreateHostParams { hostname, ipv4 })
}

/// The address that a text spells, where it spells one.
pub open spec fn decoded_ipv4(t: Seq<char>) -> Ipv4Address {
    choose|ip: Ipv4Address| encode_utf8(t) == ip.text()
}

/// `r` is an error with exactly this message and path.
pub open spec fn is_error(r: ValidationResult<CreateHostParams>, message: Seq<char>, path: Seq<char>) -> bool {
    r matches ValidationResult::Error { error: e, path: Some(p) } && e@ == message && p@ == path
}

/// What `parse_and_validate` returns on the text `b`: the JSON error's
/// description and no path for a text that is not JSON; the path and message of the first shape failure; the first
/// broken business rule; else the decoded request.
pub open spec fn validation_outcome(b: Seq<u8>, r: ValidationResult<CreateHostParams>) -> bool {
    match json_document(b) {
        None => r matches ValidationResult::Error { error: e, path: None } && e@ == json_error_text(
            json_error(b),
        ),
        Some(doc) => match data_failure(doc) {
            Some((path, message)) => is_error(r, message, path),
            None => {
                let h = member_text(doc, hostname_key())->Some_0;
                let ip = decoded_ipv4(member_text(doc, ipv4_key())->Some_0);
                match rule_failure(h, ip) {
                    Some((message, path)) => is_error(r, message, path),
                    None => r matches ValidationResult::Success { validated: v } && v.hostname@ == h
                        && v.ipv4 == ip,
                }
            },
        },
    }
}

proof fn lemma_decoded_ipv4(t: Seq<char>, ip: Ipv4Address)
    requires
        encode_utf8(t) == ip.text(),
    ensures
        decoded_ipv4(t) == ip,
        is_ipv4_text(t),
{
    lemma_text_injective(decoded_ipv4(t), ip);
}

fn is_denied(hostname: &String) -> (r: bool)
    ensures
        r == is_denied_hostname(hostname@),
{
    let localhost = text("localhost");
    let batman = text("batman");
    *hostname == localhost || *hostname == batman
}

impl CreateHostParams {
    /// Decodes a request from its text.
    pub fn parse_str(s: &str) -> (r: Result<CreateHostParams, JsonRejection>)
        ensures
            decode_result(encode_utf8(s@), r),
    {
        from_bytes(s.as_bytes())
    }

    /// Checks the business rules in order, stopping at the first broken one:
    /// the hostname must not be denied, then the address must be neither
    /// loopback nor broadcast.
    pub fn validate(&self) -> (r: Result<(), BusinessValidationError>)
        ensures
            match rule_failure(self.hostname@, self.ipv4) {
                Some((message, path)) => r matches Err(e) && e.message@ == message && e.path@ == path,
                None => r is Ok,
            },
    {
        if is_denied(&self.hostname) {
            return Err(BusinessValidationError { message: text("illegal hostname"), path: text("hostname") });
        }
        if self.ipv4.is_loopback() || self.ipv4.is_broadcast() {
            return Err(
                BusinessValidationError { message: text("illegal ipv4 address"), path: text("ipv4") },
            );
        }
        Ok(())
    }

    /// Decodes and validates a request, folding every failure into one result.
    pub fn parse_and_validate(s: &str) -> (r: ValidationResult<CreateHostParams>)
        ensures
            validation_outcome(encode_utf8(s@), r),
    {
        CreateHostParams::parse_and_validate_bytes(s.as_bytes())
    }

    /// Decodes and validates a request given as raw bytes.
    pub fn parse_and_validate_bytes(bytes: &[u8]) -> (r: ValidationResult<CreateHostParams>)
        ensures
            validation_outcome(bytes@, r),
    {
        let parsed = from_bytes(bytes);
        proof {
            let b = bytes@;
            if parsed is Ok {
                let doc = json_document(b)->Some_0;
                lemma_decoded_ipv4(member_text(doc, ipv4_key())->Some_0, parsed->Ok_0.ipv4);
            }
        }
        match parsed {
            Ok(validated) => match validated.validate() {
                Err(BusinessValidationError { message, path }) => ValidationResult::Error {
                    error: message,
                    path: Some(path),
                },
                Ok(()) => ValidationResult::Success { validated },
            },
            Err(JsonRejection::JsonDataError { message, path }) => ValidationResult::Error {
                error: message,
                path: Some(path),
            },
            Err(JsonRejection::JsonSyntaxError { message }) => ValidationResult::Error {
                error: message,
                path: None,
            },
        }
    }
}

/// A text that is not JSON yields an error without a path.
pub proof fn lemma_malformed_has_no_path(b: Seq<u8>, r: ValidationResult<CreateHostParams>)
    requires
        json_document(b) is None,
        validation_outcome(b, r),
    ensures
        r matches ValidationResult::Error { path: None, .. },
{
}

/// An object whose `hostname` is missing or is not a string yields an error
/// located at `hostname`.
pub proof fn lemma_bad_hostname_field(b: Seq<u8>, r: ValidationResult<CreateHostParams>)
    requires
        json_document(b) matches Some(doc) && json_is_object(doc) && member_text(doc, hostname_key())
            is None,
        validation_outcome(b, r),
    ensures
        r matches ValidationResult::Error { path: Some(p), .. } && p@ == hostname_key(),
{
}

/// An object with a string `hostname` whose `ipv4` is missing, is not a string
/// or spells no address yields an error located at `ipv4`.
pub proof fn lemma_bad_ipv4_field(b: Seq<u8>, r: ValidationResult<CreateHostParams>)
    requires
        json_document(b) matches Some(doc) && json_is_object(doc) && member_text(doc, hostname_key())
            is Some && !(member_text(doc, ipv4_key()) matches Some(t) && is_ipv4_text(t)),
        validation_outcome(b, r),
    ensures
        r matches ValidationResult::Error { path: Some(p), .. } && p@ == ipv4_key(),
{
}

/// A well-formed request with a denied hostname is refused for its hostname,
/// whatever its address.
pub proof fn lemma_denied_hostname(
    b: Seq<u8>,
    hostname: Seq<char>,
    ipv4: Ipv4Address,
    r: ValidationResult<CreateHostParams>,
)
    requires
        json_document(b) matches Some(doc) && json_is_object(doc) && decodes_to(doc, hostname, ipv4),
        is_denied_hostname(hostname),
        validation_outcome(b, r),
    ensures
        is_error(r, "illegal hostname"@, "hostname"@),
{
    let doc = json_document(b)->Some_0;
    lemma_decoded_ipv4(member_text(doc, ipv4_key())->Some_0, ipv4);
}

/// A well-formed request with an allowed hostname and a loopback or broadcast
/// address is refused for its address.
pub proof fn lemma_illegal_ipv4(
    b: Seq<u8>,
    hostname: Seq<char>,
    ipv4: Ipv4Address,
    r: ValidationResult<CreateHostParams>,
)
    requires
        json_document(b) matches Some(doc) && json_is_object(doc) && decodes_to(doc, hostname, ipv4),
        !is_denied_hostname(hostname),
        ipv4.spec_is_loopback() || ipv4.spec_is_broadcast(),
        validation_outcome(b, r),
    ensures
        is_error(r, "illegal ipv4 address"@, "ipv4"@),
{
    let doc = json_document(b)->Some_0;
    lemma_decoded_ipv4(member_text(doc, ipv4_key())->Some_0, ipv4);
}

/// A well-formed request that breaks no rule succeeds and echoes its fields.
pub proof fn lemma_valid_request(
    b: Seq<u8>,
    hostname: Seq<char>,
    ipv4: Ipv4Address,
    r: ValidationResult<CreateHostParams>,
)
    requires
        json_document(b) matches Some(doc) && json_is_object(doc) && decodes_to(doc, hostname, ipv4),
        !is_denied_hostname(hostname),
        !ipv4.spec_is_loopback(),
        !ipv4.spec_is_broadcast(),
        validation_outcome(b, r),
    ensures
        r matches ValidationResult::Success { validated: v } && v.hostname@ == hostname && v.ipv4
            == ipv4,
{
    let doc = json_document(b)->Some_0;
    lemma_decoded_ipv4(member_text(doc, ipv4_key())->Some_0, ipv4);
}

} // verus!
