//! Reading the wire form of an outcome back.
use vstd::prelude::*;
use vstd::utf8::encode_utf8;
use crate::ipv4::{Ipv4Address, ipv4_from_text, parse_ipv4};
use crate::validation::{CreateHostParams, ValidationResult};
use crate::wire::{
    error_head, error_head_bytes, error_mid, error_mid_bytes, error_tail, error_tail_bytes, escape,
    escape_byte, hex_digit, null_text, null_text_bytes, quoted, success_head, success_head_bytes,
    success_mid, success_mid_bytes, success_tail, success_tail_bytes, type_head, type_head_bytes,
    wire_form,
};

verus! {

/// An outcome as read from the wire, its texts as UTF-8 bytes.
pub enum WireOutcome {
    Success { hostname: Seq<u8>, ipv4: Ipv4Address },
    Error { error: Seq<u8>, path: Option<Seq<u8>> },
}

/// What the wire form of `r` reads back as.
pub open spec fn wire_model(r: ValidationResult<CreateHostParams>) -> WireOutcome {
    match r {
        ValidationResult::Success { validated: v } => WireOutcome::Success {
            hostname: encode_utf8(v.hostname@),
            ipv4: v.ipv4,
        },
        ValidationResult::Error { error: e, path: p } => WireOutcome::Error {
            error: encode_utf8(e@),
            path: match p {
                Some(p) => Some(encode_utf8(p@)),
                None => None,
            },
        },
    }
}

/// The value of a hexadecimal digit, in lower case.
pub open spec fn hex_value(h: u8) -> Option<u8> {
    if 48 <= h <= 57 {
        Some((h - 48) as u8)
    } else if 97 <= h <= 102 {
        Some((h - 87) as u8)
    } else {
        None
    }
}

/// The byte that the start of the inside of a string literal stands for, and
/// how many bytes it takes; `None` at a closing quote, at a raw control byte
/// and at an escape that is not understood.
pub open spec fn unescape_one(w: Seq<u8>) -> Option<(u8, int)> {
    if w.len() == 0 || w[0] == 34 || w[0] < 32 {
        None
    } else if w[0] != 92 {
        Some((w[0], 1))
    } else if w.len() < 2 {
        None
    } else if w[1] == 34 {
        Some((34u8, 2))
    } else if w[1] == 92 {
        Some((92u8, 2))
    } else if w[1] == 98 {
        Some((8u8, 2))
    } else if w[1] == 102 {
        Some((12u8, 2))
    } else if w[1] == 110 {
        Some((10u8, 2))
    } else if w[1] == 114 {
        Some((13u8, 2))
    } else if w[1] == 116 {
        Some((9u8, 2))
    } else if w.len() >= 6 && w[1] == 117 && w[2] == 48 && w[3] == 48 && (w[4] == 48 || w[4] == 49)
        && hex_value(w[5]) is Some {
        Some(((16 * (w[4] - 48) + hex_value(w[5])->Some_0) as u8, 6))
    } else {
        None
    }
}

/// Reads the inside of a string literal up to its closing quote: the bytes it
/// stands for and what follows the quote.
pub open spec fn unescape(w: Seq<u8>) -> Option<(Seq<u8>, Seq<u8>)>
    decreases w.len(),
{
    if w.len() == 0 {
        None
    } else if w[0] == 34 {
        Some((Seq::empty(), w.subrange(1, w.len() as int)))
    } else {
        match unescape_one(w) {
            Some((c, n)) => if 1 <= n <= w.len() {
                match unescape(w.subrange(n, w.len() as int)) {
                    Some((b, r)) => Some((seq![c] + b, r)),
                    None => None,
                }
            } else {
                None
            },
            None => None,
        }
    }
}

/// Reads a string literal at the start of `w`.
pub open spec fn read_quoted(w: Seq<u8>) -> Option<(Seq<u8>, Seq<u8>)> {
    if w.len() > 0 && w[0] == 34 {
        unescape(w.subrange(1, w.len() as int))
    } else {
        None
    }
}

/// What follows `p` in `w`, where `w` starts with `p`.
pub open spec fn strip(w: Seq<u8>, p: Seq<u8>) -> Option<Seq<u8>> {
    if p.len() <= w.len() && w.subrange(0, p.len() as int) == p {
        Some(w.subrange(p.len() as int, w.len() as int))
    } else {
        None
    }
}

/// Reads the path of an error and what follows it: `null` or a string literal.
pub open spec fn read_path(w: Seq<u8>) -> Option<(Option<Seq<u8>>, Seq<u8>)> {
    match strip(w, null_text()) {
        Some(r) => Some((None, r)),
        None => match read_quoted(w) {
            Some((p, r)) => Some((Some(p), r)),
            None => None,
        },
    }
}

pub open spec fn decode_success(w: Seq<u8>) -> Option<WireOutcome> {
    match read_quoted(w) {
        Some((h, r2)) => match strip(r2, success_mid()) {
            Some(r3) => match read_quoted(r3) {
                Some((t, r4)) => if r4 == success_tail() && ipv4_from_text(t) is Some {
                    Some(WireOutcome::Success { hostname: h, ipv4: ipv4_from_text(t)->Some_0 })
                } else {
                    None
                },
                None => None,
            },
            None => None,
        },
        None => None,
    }
}

pub open spec fn decode_error(w: Seq<u8>) -> Option<WireOutcome> {
    match read_quoted(w) {
        Some((e, r2)) => match strip(r2, error_mid()) {
            Some(r3) => match read_path(r3) {
                Some((p, r4)) => if r4 == error_tail() {
                    Some(WireOutcome::Error { error: e, path: p })
                } else {
                    None
                },
                None => None,
            },
            None => None,
        },
        None => None,
    }
}

/// The outcome that a wire text spells, if it spells one.
pub open spec fn decode_wire(w: Seq<u8>) -> Option<WireOutcome> {
    match strip(w, type_head()) {
        Some(r0) => match strip(r0, success_head()) {
            Some(r1) => decode_success(r1),
            None => match strip(r0, error_head()) {
                Some(r1) => decode_error(r1),
                None => None,
            },
        },
        None => None,
    }
}

proof fn lemma_strip(p: Seq<u8>, x: Seq<u8>)
    ensures
        strip(p + x, p) == Some(x),
{
    assert((p + x).subrange(0, p.len() as int) =~= p);
    assert((p + x).subrange(p.len() as int, (p + x).len() as int) =~= x);
}

proof fn lemma_escape_first(b: Seq<u8>)
    requires
        b.len() > 0,
    ensures
        escape(b) == escape_byte(b[0]) + escape(b.subrange(1, b.len() as int)),
    decreases b.len(),
{
    if b.len() == 1 {
        assert(b.drop_last() =~= Seq::<u8>::empty());
        assert(b.subrange(1, 1) =~= Seq::<u8>::empty());
        assert(escape(b.drop_last()) =~= Seq::<u8>::empty());
        assert(escape(b) =~= escape_byte(b[0]));
    } else {
        let d = b.drop_last();
        lemma_escape_first(d);
        let t = b.subrange(1, b.len() as int);
        assert(d.subrange(1, d.len() as int) =~= t.drop_last());
        assert(t.last() == b.last());
        assert(escape(b) =~= escape_byte(b[0]) + escape(t));
    }
}

proof fn lemma_unescape_one(c: u8, rest: Seq<u8>)
    ensures
        escape_byte(c).len() >= 1,
        (escape_byte(c) + rest)[0] != 34,
        unescape_one(escape_byte(c) + rest) == Some((c, escape_byte(c).len() as int)),
{
    let w = escape_byte(c) + rest;
    assert(w[0] == escape_byte(c)[0]);
    if c < 32 && c != 8 && c != 12 && c != 10 && c != 13 && c != 9 {
        assert(w[1] == 117u8);
        assert(w[2] == 48u8);
        assert(w[3] == 48u8);
        assert(w[4] == hex_digit(c / 16));
        assert(w[5] == hex_digit(c % 16));
    } else if c == 34 || c == 92 || c == 8 || c == 12 || c == 10 || c == 13 || c == 9 {
        assert(w[1] == escape_byte(c)[1]);
    }
}

proof fn lemma_unescape_escape(b: Seq<u8>, rest: Seq<u8>)
    ensures
        unescape(escape(b) + seq![34u8] + rest) == Some((b, rest)),
    decreases b.len(),
{
    let w = escape(b) + seq![34u8] + rest;
    if b.len() == 0 {
        assert(w =~= seq![34u8] + rest);
        assert(w.subrange(1, w.len() as int) =~= rest);
    } else {
        let t = b.subrange(1, b.len() as int);
        lemma_escape_first(b);
        let tail = escape(t) + seq![34u8] + rest;
        assert(w =~= escape_byte(b[0]) + tail);
        lemma_unescape_one(b[0], tail);
        let n = escape_byte(b[0]).len() as int;
        assert(w.subrange(n, w.len() as int) =~= tail);
        lemma_unescape_escape(t, rest);
        assert(seq![b[0]] + t =~= b);
    }
}

proof fn lemma_read_quoted(b: Seq<u8>, rest: Seq<u8>)
    ensures
        read_quoted(quoted(b) + rest) == Some((b, rest)),
        (quoted(b) + rest)[0] == 34,
{
    let w = quoted(b) + rest;
    assert(w.subrange(1, w.len() as int) =~= escape(b) + seq![34u8] + rest);
    lemma_unescape_escape(b, rest);
}

proof fn lemma_success_round_trip(h: Seq<u8>, ip: Ipv4Address)
    ensures
        decode_success(quoted(h) + (success_mid() + (quoted(ip.text()) + success_tail())))
            == Some(WireOutcome::Success { hostname: h, ipv4: ip }),
{
    let t = ip.text();
    let r4 = success_tail();
    let r3 = quoted(t) + r4;
    let r2 = success_mid() + r3;
    lemma_read_quoted(h, r2);
    lemma_strip(success_mid(), r3);
    lemma_read_quoted(t, r4);
    crate::ipv4::lemma_text_injective(ip, choose|x: Ipv4Address| t == x.text());
}

proof fn lemma_path_round_trip(p: Option<Seq<u8>>, rest: Seq<u8>)
    ensures
        read_path(
            match p {
                Some(p) => quoted(p),
                None => null_text(),
            } + rest,
        ) == Some((p, rest)),
{
    match p {
        Some(pp) => {
            lemma_read_quoted(pp, rest);
            assert(strip(quoted(pp) + rest, null_text()) is None) by {
                assert((quoted(pp) + rest)[0] != null_text()[0]);
                let w = quoted(pp) + rest;
                if 4 <= w.len() {
                    assert(w.subrange(0, 4)[0] == w[0]);
                }
            }
        },
        None => {
            lemma_strip(null_text(), rest);
        },
    }
}

proof fn lemma_error_round_trip(e: Seq<u8>, p: Option<Seq<u8>>)
    ensures
        decode_error(
            quoted(e) + (error_mid() + (match p {
                Some(p) => quoted(p),
                None => null_text(),
            } + error_tail())),
        ) == Some(WireOutcome::Error { error: e, path: p }),
{
    let pw = match p {
        Some(p) => quoted(p),
        None => null_text(),
    };
    let r3 = pw + error_tail();
    let r2 = error_mid() + r3;
    lemma_read_quoted(e, r2);
    lemma_strip(error_mid(), r3);
    lemma_path_round_trip(p, error_tail());
}

/// Reading the wire form of an outcome back gives that outcome.
pub proof fn lemma_wire_round_trip(r: ValidationResult<CreateHostParams>)
    ensures
        decode_wire(wire_form(r)) == Some(wire_model(r)),
{
    match r {
        ValidationResult::Success { validated: v } => {
            let h = encode_utf8(v.hostname@);
            let r1 = quoted(h) + (success_mid() + (quoted(v.ipv4.text()) + success_tail()));
            let r0 = success_head() + r1;
            assert(wire_form(r) =~= type_head() + r0);
            lemma_strip(type_head(), r0);
            lemma_strip(success_head(), r1);
            lemma_success_round_trip(h, v.ipv4);
        },
        ValidationResult::Error { error: e, path: p } => {
            let eb = encode_utf8(e@);
            let pb = match p {
                Some(p) => Some(encode_utf8(p@)),
                None => None,
            };
            let pw = match pb {
                Some(p) => quoted(p),
                None => null_text(),
            };
            let r1 = quoted(eb) + (error_mid() + (pw + error_tail()));
            let r0 = error_head() + r1;
            assert(wire_form(r) =~= type_head() + r0);
            lemma_strip(type_head(), r0);
            assert(strip(r0, success_head()) is None) by {
                assert(r0[0] == 69u8);
                if success_head().len() <= r0.len() {
                    assert(r0.subrange(0, success_head().len() as int)[0] == r0[0]);
                }
            }
            lemma_strip(error_head(), r1);
            lemma_error_round_trip(eb, pb);
        },
    }
}

/// An outcome read from the wire, its texts as UTF-8 bytes.
pub enum DecodedOutcome {
    Success { hostname: Vec<u8>, ipv4: Ipv4Address },
    Error { error: Vec<u8>, path: Option<Vec<u8>> },
}

impl View for DecodedOutcome {
    type V = WireOutcome;

    open spec fn view(&self) -> WireOutcome {
        match self {
            DecodedOutcome::Success { hostname, ipv4 } => WireOutcome::Success {
                hostname: hostname@,
                ipv4: *ipv4,
            },
            DecodedOutcome::Error { error, path } => WireOutcome::Error {
                error: error@,
                path: match path {
                    Some(p) => Some(p@),
                    None => None,
                },
            },
        }
    }
}

pub open spec fn suffix(w: Seq<u8>, pos: int) -> Seq<u8> {
    w.subrange(pos, w.len() as int)
}

fn strip_at(w: &[u8], pos: usize, p: &[u8]) -> (r: Option<usize>)
    requires
        pos <= w@.len(),
    ensures
        match r {
            Some(q) => q <= w@.len() && strip(suffix(w@, pos as int), p@) == Some(suffix(w@, q as int)),
            None => strip(suffix(w@, pos as int), p@) is None,
        },
{
    let ghost s = suffix(w@, pos as int);
    if p.len() > w.len() - pos {
        return None;
    }
    let mut i: usize = 0;
    while i < p.len()
        invariant
            0 <= i <= p@.len(),
            pos + p@.len() <= w@.len(),
            w@.len() <= usize::MAX,
            s == suffix(w@, pos as int),
            forall|j: int| 0 <= j < i ==> w@[pos + j] == p@[j],
        decreases p@.len() - i,
    {
        if w[pos + i] != p[i] {
            proof {
                assert(s.subrange(0, p@.len() as int)[i as int] != p@[i as int]);
            }
            return None;
        }
        i += 1;
    }
    proof {
        assert(s.subrange(0, p@.len() as int) =~= p@);
        assert(s.subrange(p@.len() as int, s.len() as int) =~= suffix(w@, pos + p@.len()));
    }
    Some(pos + p.len())
}

fn hex_value_of(h: u8) -> (r: Option<u8>)
    ensures
        r == hex_value(h),
{
    if 48 <= h && h <= 57 {
        Some(h - 48)
    } else if 97 <= h && h <= 102 {
        Some(h - 87)
    } else {
        None
    }
}

fn unescape_at(w: &[u8], i: usize) -> (r: Option<(u8, usize)>)
    requires
        i <= w@.len(),
    ensures
        match r {
            Some((c, n)) => unescape_one(suffix(w@, i as int)) == Some((c, n as int)),
            None => unescape_one(suffix(w@, i as int)) is None,
        },
{
    let ghost s = suffix(w@, i as int);
    let len = w.len();
    assert(s.len() == len - i);
    if i >= len {
        return None;
    }
    assert(s[0] == w@[i as int]);
    let c = w[i];
    if c == 34 || c < 32 {
        return None;
    }
    if c != 92 {
        return Some((c, 1));
    }
    if len - i < 2 {
        return None;
    }
    assert(s[1] == w@[i + 1]);
    let e = w[i + 1];
    if e == 34 {
        return Some((34, 2));
    } else if e == 92 {
        return Some((92, 2));
    } else if e == 98 {
        return Some((8, 2));
    } else if e == 102 {
        return Some((12, 2));
    } else if e == 110 {
        return Some((10, 2));
    } else if e == 114 {
        return Some((13, 2));
    } else if e == 116 {
        return Some((9, 2));
    }
    if len - i < 6 {
        return None;
    }
    assert(s[2] == w@[i + 2]);
    assert(s[3] == w@[i + 3]);
    assert(s[4] == w@[i + 4]);
    assert(s[5] == w@[i + 5]);
    if e != 117 || w[i + 2] != 48 || w[i + 3] != 48 || (w[i + 4] != 48 && w[i + 4] != 49) {
        return None;
    }
    match hex_value_of(w[i + 5]) {
        Some(v) => Some((16 * (w[i + 4] - 48) + v, 6)),
        None => None,
    }
}

pub open spec fn prepend(a: Seq<u8>, x: Option<(Seq<u8>, Seq<u8>)>) -> Option<(Seq<u8>, Seq<u8>)> {
    match x {
        Some((b, r)) => Some((a + b, r)),
        None => None,
    }
}

fn read_quoted_at(w: &[u8], pos: usize) -> (r: Option<(Vec<u8>, usize)>)
    requires
        pos <= w@.len(),
    ensures
        match r {
            Some((b, q)) => q <= w@.len() && read_quoted(suffix(w@, pos as int)) == Some(
                (b@, suffix(w@, q as int)),
            ),
            None => read_quoted(suffix(w@, pos as int)) is None,
        },
{
    let ghost s = suffix(w@, pos as int);
    if pos >= w.len() || w[pos] != 34 {
        return None;
    }
    proof {
        assert(s.subrange(1, s.len() as int) =~= suffix(w@, pos + 1));
    }
    let mut acc: Vec<u8> = Vec::new();
    let mut i: usize = pos + 1;
    while i < w.len()
        invariant
            pos + 1 <= i <= w@.len(),
            s == suffix(w@, pos as int),
            read_quoted(s) == prepend(acc@, unescape(suffix(w@, i as int))),
        decreases w@.len() - i,
    {
        let ghost t = suffix(w@, i as int);
        assert(t[0] == w@[i as int]);
        if w[i] == 34 {
            proof {
                assert(t.subrange(1, t.len() as int) =~= suffix(w@, i + 1));
                assert(unescape(t) == Some((Seq::<u8>::empty(), suffix(w@, i + 1))));
                assert(acc@ + Seq::<u8>::empty() =~= acc@);
            }
            return Some((acc, i + 1));
        }
        match unescape_at(w, i) {
            Some((c, n)) => {
                proof {
                    assert(t.subrange(n as int, t.len() as int) =~= suffix(w@, i + n));
                    let x = unescape(suffix(w@, i + n));
                    if let Some((b, r)) = x {
                        assert(acc@ + (seq![c] + b) =~= acc@.push(c) + b);
                    }
                }
                acc.push(c);
                i += n;
            },
            None => {
                proof {
                    assert(t.len() > 0 && t[0] != 34);
                    assert(unescape(t) is None);
                }
                return None;
            },
        }
    }
    proof {
        assert(suffix(w@, i as int).len() == 0);
    }
    None
}

fn decode_path_at(w: &[u8], pos: usize) -> (r: Option<(Option<Vec<u8>>, usize)>)
    requires
        pos <= w@.len(),
    ensures
        match r {
            Some((p, q)) => q <= w@.len() && read_path(suffix(w@, pos as int)) == Some(
                (
                    match p {
                        Some(p) => Some(p@),
                        None => None,
                    },
                    suffix(w@, q as int),
                ),
            ),
            None => read_path(suffix(w@, pos as int)) is None,
        },
{
    match strip_at(w, pos, null_text_bytes().as_slice()) {
        Some(q) => Some((None, q)),
        None => match read_quoted_at(w, pos) {
            Some((p, q)) => Some((Some(p), q)),
            None => None,
        },
    }
}

fn at_end(w: &[u8], pos: usize, tail: &[u8]) -> (r: bool)
    requires
        pos <= w@.len(),
    ensures
        r == (suffix(w@, pos as int) == tail@),
{
    match strip_at(w, pos, tail) {
        Some(q) => {
            if q == w.len() {
                proof {
                    let s = suffix(w@, pos as int);
                    assert(suffix(w@, q as int).len() == 0);
                    assert(s.subrange(tail@.len() as int, s.len() as int).len() == 0);
                    assert(s.len() == tail@.len());
                    assert(s =~= s.subrange(0, tail@.len() as int));
                }
                true
            } else {
                proof {
                    assert(suffix(w@, q as int).len() > 0);
                }
                false
            }
        },
        None => {
            proof {
                let s = suffix(w@, pos as int);
                if s == tail@ {
                    assert(s.subrange(0, tail@.len() as int) =~= tail@);
                }
            }
            false
        },
    }
}

fn decode_success_at(w: &[u8], pos: usize) -> (r: Option<DecodedOutcome>)
    requires
        pos <= w@.len(),
    ensures
        match r {
            Some(o) => decode_success(suffix(w@, pos as int)) == Some(o@),
            None => decode_success(suffix(w@, pos as int)) is None,
        },
{
    let (hostname, at2) = match read_quoted_at(w, pos) {
        Some(x) => x,
        None => return None,
    };
    let at3 = match strip_at(w, at2, success_mid_bytes().as_slice()) {
        Some(q) => q,
        None => return None,
    };
    let (text, at4) = match read_quoted_at(w, at3) {
        Some(x) => x,
        None => return None,
    };
    if !at_end(w, at4, success_tail_bytes().as_slice()) {
        return None;
    }
    match parse_ipv4(text.as_slice()) {
        Some(ipv4) => Some(DecodedOutcome::Success { hostname, ipv4 }),
        None => None,
    }
}

fn decode_error_at(w: &[u8], pos: usize) -> (r: Option<DecodedOutcome>)
    requires
        pos <= w@.len(),
    ensures
        match r {
            Some(o) => decode_error(suffix(w@, pos as int)) == Some(o@),
            None => decode_error(suffix(w@, pos as int)) is None,
        },
{
    let (error, at2) = match read_quoted_at(w, pos) {
        Some(x) => x,
        None => return None,
    };
    let at3 = match strip_at(w, at2, error_mid_bytes().as_slice()) {
        Some(q) => q,
        None => return None,
    };
    let (path, at4) = match decode_path_at(w, at3) {
        Some(x) => x,
        None => return None,
    };
    if !at_end(w, at4, error_tail_bytes().as_slice()) {
        return None;
    }
    Some(DecodedOutcome::Error { error, path })
}

/// Reads an outcome back from its wire form.
pub fn decode_outcome(w: &[u8]) -> (r: Option<DecodedOutcome>)
    ensures
        match r {
            Some(o) => decode_wire(w@) == Some(o@),
            None => decode_wire(w@) is None,
        },
{
    proof {
        assert(suffix(w@, 0) =~= w@);
    }
    let at0 = match strip_at(w, 0, type_head_bytes().as_slice()) {
        Some(q) => q,
        None => return None,
    };
    match strip_at(w, at0, success_head_bytes().as_slice()) {
        Some(at1) => decode_success_at(w, at1),
        None => match strip_at(w, at0, error_head_bytes().as_slice()) {
            Some(at1) => decode_error_at(w, at1),
            None => None,
        },
    }
}

} // verus!
