//! IPv4 addresses in dotted-decimal form, and the address classes that
//! validation rejects.
use vstd::prelude::*;

verus! {

/// An IPv4 address, held as its four octets in network order.
#[derive(Clone, Copy, Debug, PartialEq, Eq, Structural)]
pub struct Ipv4Address {
    pub a: u8,
    pub b: u8,
    pub c: u8,
    pub d: u8,
}

pub open spec fn is_digit(b: u8) -> bool {
    48 <= b <= 57
}

/// The shortest decimal spelling of an octet: no sign, no leading zero.
pub open spec fn decimal(v: u8) -> Seq<u8> {
    if v < 10 {
        seq![(48 + v) as u8]
    } else if v < 100 {
        seq![(48 + v / 10) as u8, (48 + v % 10) as u8]
    } else {
        seq![(48 + v / 100) as u8, (48 + (v / 10) % 10) as u8, (48 + v % 10) as u8]
    }
}

/// The address whose dotted-decimal text is `t`, if there is one.
pub open spec fn ipv4_from_text(t: Seq<u8>) -> Option<Ipv4Address> {
    if exists|ip: Ipv4Address| t == ip.text() {
        Some(choose|ip: Ipv4Address| t == ip.text())
    } else {
        None
    }
}

/// `decimal(v)` stands at position `p` of `s` and is not followed by a further digit.
pub open spec fn octet_at(s: Seq<u8>, p: int, v: u8) -> bool {
    let n = decimal(v).len() as int;
    &&& 0 <= p
    &&& p + n <= s.len()
    &&& s.subrange(p, p + n) == decimal(v)
    &&& (p + n == s.len() || !is_digit(s[p + n]))
}

impl Ipv4Address {
    /// The dotted-decimal text of the address, as `a.b.c.d`.
    pub open spec fn text(self) -> Seq<u8> {
        decimal(self.a) + seq![46u8] + decimal(self.b) + seq![46u8] + decimal(self.c) + seq![46u8]
            + decimal(self.d)
    }

    pub open spec fn spec_is_loopback(self) -> bool {
        self.a == 127
    }

    pub open spec fn spec_is_broadcast(self) -> bool {
        self.a == 255 && self.b == 255 && self.c == 255 && self.d == 255
    }

    /// Whether the address lies in 127.0.0.0/8.
    pub fn is_loopback(&self) -> (r: bool)
        ensures
            r == self.spec_is_loopback(),
    {
        self.a == 127
    }

    /// Whether the address is 255.255.255.255.
    pub fn is_broadcast(&self) -> (r: bool)
        ensures
            r == self.spec_is_broadcast(),
    {
        self.a == 255 && self.b == 255 && self.c == 255 && self.d == 255
    }

    /// The dotted-decimal text of the address.
    pub fn to_text(&self) -> (r: Vec<u8>)
        ensures
            r@ == self.text(),
    {
        let mut out: Vec<u8> = Vec::new();
        push_decimal(&mut out, self.a);
        out.push(46u8);
        push_decimal(&mut out, self.b);
        out.push(46u8);
        push_decimal(&mut out, self.c);
        out.push(46u8);
        push_decimal(&mut out, self.d);
        assert(out@ =~= self.text());
        out
    }
}

/// Appends the decimal spelling of `v` to `out`.
pub fn push_decimal(out: &mut Vec<u8>, v: u8)
    ensures
        final(out)@ == old(out)@ + decimal(v),
{
    if v < 10 {
        out.push(48 + v);
    } else if v < 100 {
        out.push(48 + v / 10);
        out.push(48 + v % 10);
    } else {
        out.push(48 + v / 100);
        out.push(48 + (v / 10) % 10);
        out.push(48 + v % 10);
    }
    assert(out@ =~= old(out)@ + decimal(v));
}

proof fn lemma_decimal(v: u8)
    ensures
        1 <= decimal(v).len() <= 3,
        forall|i: int| 0 <= i < decimal(v).len() ==> is_digit(#[trigger] decimal(v)[i]),
        decimal(v).len() > 1 ==> decimal(v)[0] != 48u8,
        decimal(v).len() == 1 ==> v == decimal(v)[0] - 48,
        decimal(v).len() == 2 ==> v == 10 * (decimal(v)[0] - 48) + (decimal(v)[1] - 48),
        decimal(v).len() == 3 ==> v == 100 * (decimal(v)[0] - 48) + 10 * (decimal(v)[1] - 48) + (
        decimal(v)[2] - 48),
{
}

/// Two octets spelled at one position of one text are the same octet.
proof fn lemma_octet_unique(s: Seq<u8>, p: int, v: u8, w: u8)
    requires
        octet_at(s, p, v),
        octet_at(s, p, w),
    ensures
        v == w,
{
    lemma_decimal(v);
    lemma_decimal(w);
    let nv = decimal(v).len() as int;
    let nw = decimal(w).len() as int;
    if nv < nw {
        assert(decimal(w)[nv] == s[p + nv]);
    } else if nw < nv {
        assert(decimal(v)[nw] == s[p + nw]);
    } else {
        assert(decimal(v)[0] == s[p]);
        assert(decimal(w)[0] == s[p]);
        if nv >= 2 {
            assert(decimal(v)[1] == s[p + 1]);
            assert(decimal(w)[1] == s[p + 1]);
        }
        if nv == 3 {
            assert(decimal(v)[2] == s[p + 2]);
            assert(decimal(w)[2] == s[p + 2]);
        }
    }
}

fn digit_at(s: &[u8], i: usize) -> (r: bool)
    ensures
        r == (i < s@.len() && is_digit(s@[i as int])),
{
    i < s.len() && 48 <= s[i] && s[i] <= 57
}

/// Reads one octet at position `p` of `s`.
fn parse_octet(s: &[u8], p: usize) -> (r: Option<(u8, usize)>)
    ensures
        match r {
            Some((v, q)) => octet_at(s@, p as int, v) && q == p + decimal(v).len(),
            None => forall|v: u8| !octet_at(s@, p as int, v),
        },
{
    let ghost t = s@;
    proof {
        assert forall|v: u8| #[trigger] octet_at(t, p as int, v) implies {
            &&& is_digit(t[p as int])
            &&& decimal(v).len() >= 2 ==> is_digit(t[p + 1])
            &&& decimal(v).len() >= 3 ==> is_digit(t[p + 2])
            &&& decimal(v)[0] == t[p as int]
            &&& decimal(v).len() >= 2 ==> decimal(v)[1] == t[p + 1]
            &&& decimal(v).len() >= 3 ==> decimal(v)[2] == t[p + 2]
        } by {
            lemma_decimal(v);
            assert(decimal(v)[0] == t.subrange(p as int, p + decimal(v).len())[0]);
            if decimal(v).len() >= 2 {
                assert(decimal(v)[1] == t.subrange(p as int, p + decimal(v).len())[1]);
            }
            if decimal(v).len() >= 3 {
                assert(decimal(v)[2] == t.subrange(p as int, p + decimal(v).len())[2]);
            }
        }
    }
    if !digit_at(s, p) {
        return None;
    }
    let d0: u8 = s[p] - 48;
    if !digit_at(s, p + 1) {
        proof {
            assert(t.subrange(p as int, p + 1) =~= decimal(d0));
            assert forall|v: u8| octet_at(t, p as int, v) implies v == d0 by {
                lemma_decimal(v);
                lemma_octet_unique(t, p as int, v, d0);
            }
        }
        return Some((d0, p + 1));
    }
    if d0 == 0 {
        proof {
            assert forall|v: u8| !octet_at(t, p as int, v) by {
                lemma_decimal(v);
            }
        }
        return None;
    }
    let d1: u8 = s[p + 1] - 48;
    if !digit_at(s, p + 2) {
        let v: u8 = d0 * 10 + d1;
        proof {
            assert(t.subrange(p as int, p + 2) =~= decimal(v));
        }
        return Some((v, p + 2));
    }
    let d2: u8 = s[p + 2] - 48;
    if digit_at(s, p + 3) {
        proof {
            assert forall|v: u8| !octet_at(t, p as int, v) by {
                lemma_decimal(v);
            }
        }
        return None;
    }
    let w: u32 = d0 as u32 * 100 + d1 as u32 * 10 + d2 as u32;
    if w > 255 {
        proof {
            assert forall|v: u8| !octet_at(t, p as int, v) by {
                lemma_decimal(v);
            }
        }
        return None;
    }
    let v: u8 = w as u8;
    proof {
        assert(t.subrange(p as int, p + 3) =~= decimal(v));
    }
    Some((v, p + 3))
}


proof fn lemma_text_layout(ip: Ipv4Address)
    ensures
        ({
            let t = ip.text();
            let at1 = decimal(ip.a).len() as int;
            let at2 = at1 + 1 + decimal(ip.b).len();
            let at3 = at2 + 1 + decimal(ip.c).len();
            &&& octet_at(t, 0, ip.a)
            &&& t[at1] == 46u8
            &&& octet_at(t, at1 + 1, ip.b)
            &&& t[at2] == 46u8
            &&& octet_at(t, at2 + 1, ip.c)
            &&& t[at3] == 46u8
            &&& octet_at(t, at3 + 1, ip.d)
            &&& at3 + 1 + decimal(ip.d).len() == t.len()
        }),
{
    let t = ip.text();
    lemma_decimal(ip.a);
    lemma_decimal(ip.b);
    lemma_decimal(ip.c);
    lemma_decimal(ip.d);
    let at1 = decimal(ip.a).len() as int;
    let at2 = at1 + 1 + decimal(ip.b).len();
    let at3 = at2 + 1 + decimal(ip.c).len();
    assert(t.subrange(0, at1) =~= decimal(ip.a));
    assert(t.subrange(at1 + 1, at2) =~= decimal(ip.b));
    assert(t.subrange(at2 + 1, at3) =~= decimal(ip.c));
    assert(t.subrange(at3 + 1, t.len() as int) =~= decimal(ip.d));
}

proof fn lemma_text_from_parts(t: Seq<u8>, ip: Ipv4Address, at1: int, at2: int, at3: int)
    requires
        octet_at(t, 0, ip.a),
        at1 == decimal(ip.a).len(),
        t[at1] == 46u8,
        octet_at(t, at1 + 1, ip.b),
        at2 == at1 + 1 + decimal(ip.b).len(),
        t[at2] == 46u8,
        octet_at(t, at2 + 1, ip.c),
        at3 == at2 + 1 + decimal(ip.c).len(),
        t[at3] == 46u8,
        octet_at(t, at3 + 1, ip.d),
        at3 + 1 + decimal(ip.d).len() == t.len(),
    ensures
        t == ip.text(),
{
    assert(t =~= t.subrange(0, at1) + seq![46u8] + t.subrange(at1 + 1, at2) + seq![46u8]
        + t.subrange(at2 + 1, at3) + seq![46u8] + t.subrange(at3 + 1, t.len() as int));
}

/// Different addresses have different dotted-decimal texts.
pub proof fn lemma_text_injective(x: Ipv4Address, y: Ipv4Address)
    requires
        x.text() == y.text(),
    ensures
        x == y,
{
    let t = x.text();
    lemma_text_layout(x);
    lemma_text_layout(y);
    lemma_octet_unique(t, 0, x.a, y.a);
    let at1 = decimal(x.a).len() as int;
    lemma_octet_unique(t, at1 + 1, x.b, y.b);
    let at2 = at1 + 1 + decimal(x.b).len();
    lemma_octet_unique(t, at2 + 1, x.c, y.c);
    let at3 = at2 + 1 + decimal(x.c).len();
    lemma_octet_unique(t, at3 + 1, x.d, y.d);
}

/// Reads an IPv4 address in dotted-decimal form: four octets of one to three
/// digits, without leading zeros, separated by single dots, and nothing else.
pub fn parse_ipv4(s: &[u8]) -> (r: Option<Ipv4Address>)
    ensures
        r == ipv4_from_text(s@),
{
    let r = parse_dotted(s);
    proof {
        if let Some(ip) = r {
            lemma_text_injective(ip, choose|x: Ipv4Address| s@ == x.text());
        }
    }
    r
}

/// The `k`th octet of an address, counted from zero.
pub open spec fn octet_of(ip: Ipv4Address, k: int) -> u8 {
    if k == 0 {
        ip.a
    } else if k == 1 {
        ip.b
    } else if k == 2 {
        ip.c
    } else {
        ip.d
    }
}

/// Where the `k`th octet starts in the text of an address.
pub open spec fn octet_start(ip: Ipv4Address, k: int) -> int {
    if k == 0 {
        0
    } else if k == 1 {
        decimal(ip.a).len() + 1int
    } else if k == 2 {
        decimal(ip.a).len() + decimal(ip.b).len() + 2int
    } else {
        decimal(ip.a).len() + decimal(ip.b).len() + decimal(ip.c).len() + 3int
    }
}

/// Where `t` spells `ip`, an octet read where `ip`'s `k`th octet starts is
/// that octet, and it is followed by a dot or, for the last, by the end.
proof fn lemma_read_agrees(t: Seq<u8>, ip: Ipv4Address, k: int)
    requires
        t == ip.text(),
        0 <= k < 4,
    ensures
        octet_at(t, octet_start(ip, k), octet_of(ip, k)),
        forall|v: u8| octet_at(t, octet_start(ip, k), v) ==> v == octet_of(ip, k),
        k < 3 ==> t[octet_start(ip, k) + decimal(octet_of(ip, k)).len()] == 46u8 && octet_start(
            ip,
            k + 1,
        ) == octet_start(ip, k) + decimal(octet_of(ip, k)).len() + 1,
        k == 3 ==> octet_start(ip, k) + decimal(octet_of(ip, k)).len() == t.len(),
{
    lemma_text_layout(ip);
    assert forall|v: u8| octet_at(t, octet_start(ip, k), v) implies v == octet_of(ip, k) by {
        lemma_octet_unique(t, octet_start(ip, k), v, octet_of(ip, k));
    }
}

fn parse_dotted(s: &[u8]) -> (r: Option<Ipv4Address>)
    ensures
        match r {
            Some(ip) => s@ == ip.text(),
            None => forall|ip: Ipv4Address| s@ != ip.text(),
        },
{
    let ghost t = s@;
    let mut octets: Vec<u8> = Vec::new();
    let ghost mut starts: Seq<int> = Seq::empty();
    let mut pos: usize = 0;
    let mut k: usize = 0;
    while k < 4
        invariant
            t == s@,
            0 <= k <= 3,
            octets@.len() == k,
            starts.len() == k,
            pos <= t.len(),
            forall|j: int| 0 <= j < k ==> octet_at(t, #[trigger] starts[j], octets@[j]),
            k > 0 ==> starts[0] == 0,
            forall|j: int|
                0 <= j < k ==> (if j + 1 < k {
                    starts[j + 1]
                } else {
                    pos as int
                }) == #[trigger] starts[j] + decimal(octets@[j]).len() + 1,
            forall|j: int| 0 < j < k ==> t[#[trigger] starts[j] - 1] == 46u8,
            k > 0 ==> t[pos - 1] == 46u8,
            k == 0 ==> pos == 0,
            forall|ip: Ipv4Address|
                #[trigger] ip.text() == t ==> pos == octet_start(ip, k as int) && forall|j: int|
                    0 <= j < k ==> octets@[j] == octet_of(ip, j),
        decreases 4 - k,
    {
        let (v, q) = match parse_octet(s, pos) {
            Some(x) => x,
            None => {
                proof {
                    assert forall|ip: Ipv4Address| t != ip.text() by {
                        if t == ip.text() {
                            lemma_read_agrees(t, ip, k as int);
                        }
                    }
                }
                return None;
            },
        };
        proof {
            assert forall|ip: Ipv4Address| #[trigger] ip.text() == t implies v == octet_of(
                ip,
                k as int,
            ) by {
                lemma_read_agrees(t, ip, k as int);
            }
        }
        if k == 3 {
            if q != s.len() {
                proof {
                    assert forall|ip: Ipv4Address| t != ip.text() by {
                        if t == ip.text() {
                            lemma_read_agrees(t, ip, 3);
                        }
                    }
                }
                return None;
            }
            let ip = Ipv4Address { a: octets[0], b: octets[1], c: octets[2], d: v };
            proof {
                lemma_text_from_parts(t, ip, starts[1] - 1, starts[2] - 1, pos - 1);
            }
            return Some(ip);
        }
        if q >= s.len() || s[q] != 46 {
            proof {
                assert forall|ip: Ipv4Address| t != ip.text() by {
                    if t == ip.text() {
                        lemma_read_agrees(t, ip, k as int);
                    }
                }
            }
            return None;
        }
        proof {
            assert forall|ip: Ipv4Address| #[trigger] ip.text() == t implies q + 1 == octet_start(
                ip,
                k + 1,
            ) by {
                lemma_read_agrees(t, ip, k as int);
            }
            starts = starts.push(pos as int);
        }
        octets.push(v);
        pos = q + 1;
        k += 1;
    }
    None
}

} // verus!
