//! The JSON wire form of a validation outcome, tagged by a `type` member.
use vstd::prelude::*;
use vstd::utf8::encode_utf8;
use crate::validation::{CreateHostParams, ValidationResult};

verus! {

/// A hexadecimal digit, in lower case.
pub open spec fn hex_digit(v: u8) -> u8 {
    if v < 10 {
        (48 + v) as u8
    } else {
        (87 + v) as u8
    }
}

/// How one byte stands inside a JSON string: quote, backslash and control
/// bytes are escaped, every other byte stands for itself.
pub open spec fn escape_byte(c: u8) -> Seq<u8> {
    if c == 34 {
        seq![92u8, 34u8]
    } else if c == 92 {
        seq![92u8, 92u8]
    } else if c == 8 {
        seq![92u8, 98u8]
    } else if c == 12 {
        seq![92u8, 102u8]
    } else if c == 10 {
        seq![92u8, 110u8]
    } else if c == 13 {
        seq![92u8, 114u8]
    } else if c == 9 {
        seq![92u8, 116u8]
    } else if c < 32 {
        seq![92u8, 117u8, 48u8, 48u8, hex_digit(c / 16), hex_digit(c % 16)]
    } else {
        seq![c]
    }
}

pub open spec fn escape(b: Seq<u8>) -> Seq<u8>
    decreases b.len(),
{
    if b.len() == 0 {
        Seq::empty()
    } else {
        escape(b.drop_last()) + escape_byte(b.last())
    }
}

/// A JSON string literal holding the UTF-8 text `b`.
pub open spec fn quoted(b: Seq<u8>) -> Seq<u8> {
    seq![34u8] + escape(b) + seq![34u8]
}

/// The opening of every outcome, up to its tag: `{"type":"`.
pub open spec fn type_head() -> Seq<u8> {
    seq![123u8, 34, 116, 121, 112, 101, 34, 58, 34]
}

pub(crate) fn type_head_bytes() -> (r: Vec<u8>)
    ensures
        r@ == type_head(),
{
    let r: Vec<u8> = vec![123u8, 34, 116, 121, 112, 101, 34, 58, 34];
    assert(r@ =~= type_head());
    r
}

/// The rest of a success's opening: `Success","validated":{"hostname":`.
pub open spec fn success_head() -> Seq<u8> {
    seq![83u8, 117, 99, 99, 101, 115, 115, 34, 44, 34, 118, 97, 108, 105, 100, 97, 116, 101, 100, 34, 58, 123, 34, 104, 111, 115, 116, 110, 97, 109, 101, 34, 58]
}

pub(crate) fn success_head_bytes() -> (r: Vec<u8>)
    ensures
        r@ == success_head(),
{
    let r: Vec<u8> = vec![83u8, 117, 99, 99, 101, 115, 115, 34, 44, 34, 118, 97, 108, 105, 100, 97, 116, 101, 100, 34, 58, 123, 34, 104, 111, 115, 116, 110, 97, 109, 101, 34, 58];
    assert(r@ =~= success_head());
    r
}

/// `,"ipv4":`
pub open spec fn success_mid() -> Seq<u8> {
    seq![44u8, 34, 105, 112, 118, 52, 34, 58]
}

pub(crate) fn success_mid_bytes() -> (r: Vec<u8>)
    ensures
        r@ == success_mid(),
{
    let r: Vec<u8> = vec![44u8, 34, 105, 112, 118, 52, 34, 58];
    assert(r@ =~= success_mid());
    r
}

/// `}}`
pub open spec fn success_tail() -> Seq<u8> {
    seq![125u8, 125]
}

pub(crate) fn success_tail_bytes() -> (r: Vec<u8>)
    ensures
        r@ == success_tail(),
{
    let r: Vec<u8> = vec![125u8, 125];
    assert(r@ =~= success_tail());
    r
}

/// The rest of an error's opening: `Error","message":`.
pub open spec fn error_head() -> Seq<u8> {
    seq![69u8, 114, 114, 111, 114, 34, 44, 34, 109, 101, 115, 115, 97, 103, 101, 34, 58]
}

pub(crate) fn error_head_bytes() -> (r: Vec<u8>)
    ensures
        r@ == error_head(),
{
    let r: Vec<u8> = vec![69u8, 114, 114, 111, 114, 34, 44, 34, 109, 101, 115, 115, 97, 103, 101, 34, 58];
    assert(r@ =~= error_head());
    r
}

/// `,"path":`
pub open spec fn error_mid() -> Seq<u8> {
    seq![44u8, 34, 112, 97, 116, 104, 34, 58]
}

pub(crate) fn error_mid_bytes() -> (r: Vec<u8>)
    ensures
        r@ == error_mid(),
{
    let r: Vec<u8> = vec![44u8, 34, 112, 97, 116, 104, 34, 58];
    assert(r@ =~= error_mid());
    r
}

/// `null`
pub open spec fn null_text() -> Seq<u8> {
    seq![110u8, 117, 108, 108]
}

pub(crate) fn null_text_bytes() -> (r: Vec<u8>)
    ensures
        r@ == null_text(),
{
    let r: Vec<u8> = vec![110u8, 117, 108, 108];
    assert(r@ =~= null_text());
    r
}

/// `}`
pub open spec fn error_tail() -> Seq<u8> {
    seq![125u8]
}

pub(crate) fn error_tail_bytes() -> (r: Vec<u8>)
    ensures
        r@ == error_tail(),
{
    let r: Vec<u8> = vec![125u8];
    assert(r@ =~= error_tail());
    r
}

/// The wire form of an outcome.
pub open spec fn wire_form(r: ValidationResult<CreateHostParams>) -> Seq<u8> {
    match r {
        ValidationResult::Success { validated: v } => type_head() + success_head() + quoted(
            encode_utf8(v.hostname@),
        ) + success_mid() + quoted(v.ipv4.text()) + success_tail(),
        ValidationResult::Error { error: e, path: p } => type_head() + error_head() + quoted(
            encode_utf8(e@),
        ) + error_mid() + match p {
            Some(p) => quoted(encode_utf8(p@)),
            None => null_text(),
        } + error_tail(),
    }
}

fn push_bytes(out: &mut Vec<u8>, b: &[u8])
    ensures
        final(out)@ == old(out)@ + b@,
{
    let mut i: usize = 0;
    while i < b.len()
        invariant
            0 <= i <= b@.len(),
            out@ == old(out)@ + b@.subrange(0, i as int),
        decreases b@.len() - i,
    {
        out.push(b[i]);
        i += 1;
        assert(out@ =~= old(out)@ + b@.subrange(0, i as int));
    }
    assert(b@.subrange(0, b@.len() as int) =~= b@);
}

fn hex(v: u8) -> (r: u8)
    requires
        v < 16,
    ensures
        r == hex_digit(v),
{
    if v < 10 {
        48 + v
    } else {
        87 + v
    }
}

fn push_escaped_byte(out: &mut Vec<u8>, c: u8)
    ensures
        final(out)@ == old(out)@ + escape_byte(c),
{
    if c == 34 {
        out.push(92);
        out.push(34);
    } else if c == 92 {
        out.push(92);
        out.push(92);
    } else if c == 8 {
        out.push(92);
        out.push(98);
    } else if c == 12 {
        out.push(92);
        out.push(102);
    } else if c == 10 {
        out.push(92);
        out.push(110);
    } else if c == 13 {
        out.push(92);
        out.push(114);
    } else if c == 9 {
        out.push(92);
        out.push(116);
    } else if c < 32 {
        out.push(92);
        out.push(117);
        out.push(48);
        out.push(48);
        out.push(hex(c / 16));
        out.push(hex(c % 16));
    } else {
        out.push(c);
    }
    assert(out@ =~= old(out)@ + escape_byte(c));
}

/// Appends `b` as a JSON string literal.
pub fn push_quoted(out: &mut Vec<u8>, b: &[u8])
    ensures
        final(out)@ == old(out)@ + quoted(b@),
{
    out.push(34);
    let ghost start = out@;
    let mut i: usize = 0;
    while i < b.len()
        invariant
            0 <= i <= b@.len(),
            out@ == start + escape(b@.subrange(0, i as int)),
        decreases b@.len() - i,
    {
        push_escaped_byte(out, b[i]);
        assert(b@.subrange(0, i + 1).drop_last() =~= b@.subrange(0, i as int));
        i += 1;
    }
    assert(b@.subrange(0, b@.len() as int) =~= b@);
    out.push(34);
    assert(out@ =~= old(out)@ + quoted(b@));
}

/// Encodes an outcome in its wire form.
pub fn encode_outcome(r: &ValidationResult<CreateHostParams>) -> (out: Vec<u8>)
    ensures
        out@ == wire_form(*r),
{
    let mut out: Vec<u8> = Vec::new();
    push_bytes(&mut out, type_head_bytes().as_slice());
    match r {
        ValidationResult::Success { validated } => {
            push_bytes(&mut out, success_head_bytes().as_slice());
            push_quoted(&mut out, validated.hostname.as_str().as_bytes());
            push_bytes(&mut out, success_mid_bytes().as_slice());
            let ip = validated.ipv4.to_text();
            push_quoted(&mut out, ip.as_slice());
            push_bytes(&mut out, success_tail_bytes().as_slice());
        },
        ValidationResult::Error { error, path } => {
            push_bytes(&mut out, error_head_bytes().as_slice());
            push_quoted(&mut out, error.as_str().as_bytes());
            push_bytes(&mut out, error_mid_bytes().as_slice());
            match path {
                Some(p) => push_quoted(&mut out, p.as_str().as_bytes()),
                None => push_bytes(&mut out, null_text_bytes().as_slice()),
            }
            push_bytes(&mut out, error_tail_bytes().as_slice());
        },
    }
    assert(out@ =~= wire_form(*r));
    out
}

} // verus!
