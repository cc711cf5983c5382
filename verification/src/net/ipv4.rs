//! Validation and parsing of `a.b.c.d:port` socket addresses.

use vstd::prelude::*;
use crate::text::str_chars;

verus! {

/// True when `c` is a decimal digit.
pub open spec fn spec_is_dec_digit(c: char) -> bool {
    48 <= c as u32 <= 57
}

/// Value of a decimal digit string, most significant digit first.
pub open spec fn spec_dec_val(d: Seq<char>) -> int
    decreases d.len(),
{
    if d.len() == 0 {
        0
    } else {
        spec_dec_val(d.drop_last()) * 10 + (d.last() as u32 - 48)
    }
}

/// The digit part of an unsigned decimal string: one leading plus sign is
/// allowed and dropped.
pub open spec fn spec_uint_digits(s: Seq<char>) -> Seq<char> {
    if s.len() > 0 && s[0] == '+' {
        s.skip(1)
    } else {
        s
    }
}

/// True when `s` parses as an unsigned integer no greater than `max`: an
/// optional plus sign, then at least one decimal digit, with the value in
/// range — the shape `str::parse` accepts for the unsigned machine types.
pub open spec fn spec_is_uint_str(s: Seq<char>, max: int) -> bool {
    let d = spec_uint_digits(s);
    &&& d.len() > 0
    &&& forall|i: int| 0 <= i < d.len() ==> spec_is_dec_digit(#[trigger] d[i])
    &&& spec_dec_val(d) <= max
}

/// True when `sep` occurs in `s` exactly once, at position `c`.
pub open spec fn spec_sole_char(s: Seq<char>, sep: char, c: int) -> bool {
    &&& 0 <= c < s.len()
    &&& s[c] == sep
    &&& forall|j: int| 0 <= j < s.len() && j != c ==> #[trigger] s[j] != sep
}

/// True when `ip` is a dotted quad with dots exactly at `d1`, `d2` and `d3`
/// and four octet fields in range.
pub open spec fn spec_ipv4_fields_at(ip: Seq<char>, d1: int, d2: int, d3: int) -> bool {
    &&& 0 <= d1 < d2 < d3 < ip.len()
    &&& ip[d1] == '.' && ip[d2] == '.' && ip[d3] == '.'
    &&& forall|j: int|
        0 <= j < ip.len() && j != d1 && j != d2 && j != d3 ==> #[trigger] ip[j] != '.'
    &&& spec_is_uint_str(ip.take(d1), 255)
    &&& spec_is_uint_str(ip.subrange(d1 + 1, d2), 255)
    &&& spec_is_uint_str(ip.subrange(d2 + 1, d3), 255)
    &&& spec_is_uint_str(ip.skip(d3 + 1), 255)
}

/// True when `s` has the shape `a.b.c.d:port` with octets and port in range.
pub open spec fn spec_is_valid_ipv4(s: Seq<char>) -> bool {
    exists|c: int|
        #[trigger] spec_sole_char(s, ':', c) && spec_is_uint_str(s.skip(c + 1), 65535) && exists|
            d1: int,
            d2: int,
            d3: int,
        | #[trigger] spec_ipv4_fields_at(s.take(c), d1, d2, d3)
}

/// An IPv4 socket address: four octets and a port.
#[derive(Clone, Copy, PartialEq, Eq, Structural, Debug)]
pub struct Ipv4Socket {
    /// First octet.
    pub a: u8,
    /// Second octet.
    pub b: u8,
    /// Third octet.
    pub c: u8,
    /// Fourth octet.
    pub d: u8,
    /// Port number.
    pub port: u16,
}

impl Ipv4Socket {
    /// The four octets, most significant first.
    pub fn ip(&self) -> (r: (u8, u8, u8, u8))
        ensures
            r == (self.a, self.b, self.c, self.d),
    {
        (self.a, self.b, self.c, self.d)
    }

    /// The port number.
    pub fn port(&self) -> (r: u16)
        ensures
            r == self.port,
    {
        self.port
    }
}

/// True when the socket's fields carry the values written at the given
/// positions of `s`: dot positions `d1` to `d3` within the part before the
/// sole colon at `c`, and the port after it.
pub open spec fn spec_ipv4_socket_at(s: Seq<char>, c: int, d1: int, d2: int, d3: int, k: Ipv4Socket) -> bool {
    let ip = s.take(c);
    &&& spec_sole_char(s, ':', c)
    &&& spec_is_uint_str(s.skip(c + 1), 65535)
    &&& spec_ipv4_fields_at(ip, d1, d2, d3)
    &&& k.a as int == spec_dec_val(spec_uint_digits(ip.take(d1)))
    &&& k.b as int == spec_dec_val(spec_uint_digits(ip.subrange(d1 + 1, d2)))
    &&& k.c as int == spec_dec_val(spec_uint_digits(ip.subrange(d2 + 1, d3)))
    &&& k.d as int == spec_dec_val(spec_uint_digits(ip.skip(d3 + 1)))
    &&& k.port as int == spec_dec_val(spec_uint_digits(s.skip(c + 1)))
}

/// True when some positions of `s` witness that `k` carries exactly the
/// values written in it.
pub open spec fn spec_parsed_ipv4(s: Seq<char>, k: Ipv4Socket) -> bool {
    exists|c: int, d1: int, d2: int, d3: int| #[trigger] spec_ipv4_socket_at(s, c, d1, d2, d3, k)
}

/// The value of a digit string is never negative.
proof fn lemma_dec_val_nonneg(d: Seq<char>)
    requires
        forall|i: int| 0 <= i < d.len() ==> spec_is_dec_digit(#[trigger] d[i]),
    ensures
        spec_dec_val(d) >= 0,
    decreases d.len(),
{
    if d.len() > 0 {
        lemma_dec_val_nonneg(d.drop_last());
    }
}

/// A digit string is worth at least any of its prefixes.
proof fn lemma_dec_val_prefix(d: Seq<char>, j: int)
    requires
        0 <= j <= d.len(),
        forall|i: int| 0 <= i < d.len() ==> spec_is_dec_digit(#[trigger] d[i]),
    ensures
        spec_dec_val(d.take(j)) <= spec_dec_val(d),
    decreases d.len(),
{
    if j == d.len() {
        assert(d.take(j) =~= d);
    } else {
        assert(d.drop_last().take(j) =~= d.take(j));
        lemma_dec_val_prefix(d.drop_last(), j);
        lemma_dec_val_nonneg(d.drop_last());
    }
}

/// Parses `chars[lo..hi]` as an unsigned integer bounded by `max`.
fn parse_uint(chars: &Vec<char>, lo: usize, hi: usize, max: u32) -> (r: Option<u32>)
    requires
        lo <= hi <= chars@.len(),
        max <= 65535,
    ensures
        ({
            let sub = chars@.subrange(lo as int, hi as int);
            match r {
                Some(v) => spec_is_uint_str(sub, max as int) && v as int == spec_dec_val(
                    spec_uint_digits(sub),
                ) && v <= max,
                None => !spec_is_uint_str(sub, max as int),
            }
        }),
{
    let ghost sub = chars@.subrange(lo as int, hi as int);
    let mut i: usize = lo;
    if i < hi && chars[i] == '+' {
        i = i + 1;
    }
    let ghost d = spec_uint_digits(sub);
    proof {
        assert(d =~= chars@.subrange(i as int, hi as int));
    }
    if i == hi {
        return None;
    }
    let ghost start = i as int;
    let mut acc: u32 = 0;
    while i < hi
        invariant
            lo as int <= start <= i as int <= hi <= chars@.len(),
            max <= 65535,
            sub == chars@.subrange(lo as int, hi as int),
            d == spec_uint_digits(sub),
            d == chars@.subrange(start, hi as int),
            forall|k: int| 0 <= k < i - start ==> spec_is_dec_digit(#[trigger] d[k]),
            acc as int == spec_dec_val(d.take(i - start)),
            acc <= max,
        decreases hi - i,
    {
        let ch = chars[i];
        let u = ch as u32;
        if !(48 <= u && u <= 57) {
            proof {
                assert(chars@[i as int] == ch);
                assert(d[i - start] == ch);
                assert(!spec_is_dec_digit(d[i - start]));
            }
            return None;
        }
        proof {
            assert(d.take(i - start + 1).drop_last() =~= d.take(i - start));
            assert(d.take(i - start + 1).last() == d[i - start]);
        }
        acc = acc * 10 + (u - 48);
        if acc > max {
            proof {
                if spec_is_uint_str(sub, max as int) {
                    lemma_dec_val_prefix(d, i - start + 1);
                }
            }
            return None;
        }
        i = i + 1;
    }
    proof {
        assert(d.take(hi - start) =~= d);
    }
    Some(acc)
}

/// Parses `a.b.c.d:port`; the returned socket carries exactly the values
/// written in the string, and parsing succeeds exactly on valid input.
pub fn str_to_ipv4(s: &str) -> (r: Option<Ipv4Socket>)
    ensures
        r is Some <==> spec_is_valid_ipv4(s@),
        match r {
            Some(k) => spec_parsed_ipv4(s@, k),
            None => true,
        },
{
    let chars = str_chars(s);
    let n = chars.len();
    let mut colon: usize = n;
    let mut i: usize = 0;
    while i < n
        invariant
            i <= n,
            n == chars@.len(),
            chars@ == s@,
            colon <= n,
            colon == n ==> forall|j: int| 0 <= j < i ==> s@[j] != ':',
            colon < n ==> colon < i && s@[colon as int] == ':' && (forall|j: int|
                0 <= j < i && j != colon ==> s@[j] != ':'),
        decreases n - i,
    {
        if chars[i] == ':' {
            if colon < n {
                proof {
                    assert forall|c: int| !spec_sole_char(s@, ':', c) by {
                        if c == colon {
                            assert(s@[i as int] == ':');
                        } else {
                            assert(s@[colon as int] == ':');
                        }
                    }
                }
                return None;
            }
            colon = i;
        }
        i = i + 1;
    }
    if colon == n {
        proof {
            assert forall|c: int| !spec_sole_char(s@, ':', c) by {}
        }
        return None;
    }
    proof {
        assert(forall|j: int| 0 <= j < n && j != colon ==> s@[j] != ':');
        assert(spec_sole_char(s@, ':', colon as int));
        assert forall|c: int| spec_sole_char(s@, ':', c) implies c == colon as int by {
            if c != colon as int {
                assert(s@[colon as int] != ':');
            }
        }
    }
    let port = match parse_uint(&chars, colon + 1, n, 65535) {
        Some(p) => p,
        None => {
            proof {
                assert(chars@.subrange(colon + 1, n as int) =~= s@.skip(colon + 1));
            }
            return None;
        },
    };
    proof {
        assert(chars@.subrange(colon + 1, n as int) =~= s@.skip(colon + 1));
    }
    let ghost ip = s@.take(colon as int);
    let mut dots: usize = 0;
    let mut p1: usize = 0;
    let mut p2: usize = 0;
    let mut p3: usize = 0;
    let mut j: usize = 0;
    while j < colon
        invariant
            j <= colon < n,
            n == chars@.len(),
            chars@ == s@,
            ip == s@.take(colon as int),
            spec_sole_char(s@, ':', colon as int),
            spec_is_uint_str(s@.skip(colon + 1), 65535),
            port as int == spec_dec_val(spec_uint_digits(s@.skip(colon + 1))),
            port <= 65535,
            dots <= 3,
            dots >= 1 ==> p1 < j && ip[p1 as int] == '.',
            dots >= 2 ==> p1 < p2 < j && ip[p2 as int] == '.',
            dots >= 3 ==> p2 < p3 < j && ip[p3 as int] == '.',
            forall|k: int|
                0 <= k < j && k != p1 as int && k != p2 as int && k != p3 as int ==> #[trigger] ip[k]
                    != '.',
            dots == 0 ==> forall|k: int| 0 <= k < j ==> #[trigger] ip[k] != '.',
            dots == 1 ==> forall|k: int| 0 <= k < j && k != p1 as int ==> #[trigger] ip[k] != '.',
            dots == 2 ==> forall|k: int|
                0 <= k < j && k != p1 as int && k != p2 as int ==> #[trigger] ip[k] != '.',
        decreases colon - j,
    {
        if chars[j] == '.' {
            if dots == 3 {
                proof {
                    assert forall|d1: int, d2: int, d3: int|
                        !spec_ipv4_fields_at(ip, d1, d2, d3) by {
                        if spec_ipv4_fields_at(ip, d1, d2, d3) {
                            assert(ip[p1 as int] == '.' && ip[p2 as int] == '.' && ip[p3 as int]
                                == '.' && ip[j as int] == '.');
                        }
                    }
                    assert(!spec_is_valid_ipv4(s@)) by {
                        if spec_is_valid_ipv4(s@) {
                            let c0 = choose|c: int|
                                #[trigger] spec_sole_char(s@, ':', c) && spec_is_uint_str(
                                    s@.skip(c + 1),
                                    65535,
                                ) && exists|d1: int, d2: int, d3: int|
                                    #[trigger] spec_ipv4_fields_at(s@.take(c), d1, d2, d3);
                            assert(c0 == colon as int);
                            let (e1, e2, e3) = choose|d1: int, d2: int, d3: int|
                                #[trigger] spec_ipv4_fields_at(s@.take(c0), d1, d2, d3);
                            assert(s@.take(c0) =~= ip);
                            assert(spec_ipv4_fields_at(ip, e1, e2, e3));
                            assert(false);
                        }
                    }
                }
                return None;
            }
            if dots == 0 {
                p1 = j;
            } else if dots == 1 {
                p2 = j;
            } else {
                p3 = j;
            }
            dots = dots + 1;
        }
        j = j + 1;
    }
    if dots != 3 {
        proof {
            assert forall|d1: int, d2: int, d3: int| !spec_ipv4_fields_at(ip, d1, d2, d3) by {
                if spec_ipv4_fields_at(ip, d1, d2, d3) {
                    assert(ip[d1] == '.' && ip[d2] == '.' && ip[d3] == '.');
                }
            }
                    assert(!spec_is_valid_ipv4(s@)) by {
                        if spec_is_valid_ipv4(s@) {
                            let c0 = choose|c: int|
                                #[trigger] spec_sole_char(s@, ':', c) && spec_is_uint_str(
                                    s@.skip(c + 1),
                                    65535,
                                ) && exists|d1: int, d2: int, d3: int|
                                    #[trigger] spec_ipv4_fields_at(s@.take(c), d1, d2, d3);
                            assert(c0 == colon as int);
                            let (e1, e2, e3) = choose|d1: int, d2: int, d3: int|
                                #[trigger] spec_ipv4_fields_at(s@.take(c0), d1, d2, d3);
                            assert(s@.take(c0) =~= ip);
                            assert(spec_ipv4_fields_at(ip, e1, e2, e3));
                            assert(false);
                        }
                    }
        }
        return None;
    }
    proof {
        assert(ip[p1 as int] == '.' && ip[p2 as int] == '.' && ip[p3 as int] == '.');
        assert(forall|k: int|
            0 <= k < ip.len() && k != p1 as int && k != p2 as int && k != p3 as int
                ==> #[trigger] ip[k] != '.');
        assert forall|d1: int, d2: int, d3: int|
            spec_ipv4_fields_at(ip, d1, d2, d3) implies d1 == p1 as int && d2 == p2 as int && d3
            == p3 as int by {
            assert(ip[d1] == '.' && ip[d2] == '.' && ip[d3] == '.');
        }
    }
    let fa = parse_uint(&chars, 0, p1, 255);
    let fb = parse_uint(&chars, p1 + 1, p2, 255);
    let fc = parse_uint(&chars, p2 + 1, p3, 255);
    let fd = parse_uint(&chars, p3 + 1, colon, 255);
    proof {
        assert(chars@.subrange(0, p1 as int) =~= ip.take(p1 as int));
        assert(chars@.subrange(p1 + 1, p2 as int) =~= ip.subrange(p1 + 1, p2 as int));
        assert(chars@.subrange(p2 + 1, p3 as int) =~= ip.subrange(p2 + 1, p3 as int));
        assert(chars@.subrange(p3 + 1, colon as int) =~= ip.skip(p3 + 1));
    }
    match (fa, fb, fc, fd) {
        (Some(a), Some(b), Some(c), Some(d)) => {
            let sock = Ipv4Socket {
                a: a as u8,
                b: b as u8,
                c: c as u8,
                d: d as u8,
                port: port as u16,
            };
            proof {
                assert(spec_ipv4_fields_at(ip, p1 as int, p2 as int, p3 as int));
                assert(spec_ipv4_socket_at(s@, colon as int, p1 as int, p2 as int, p3 as int, sock));
                assert(spec_is_valid_ipv4(s@));
                assert(spec_parsed_ipv4(s@, sock));
            }
            Some(sock)
        },
        _ => {
            proof {
                assert(!spec_is_valid_ipv4(s@)) by {
                    if spec_is_valid_ipv4(s@) {
                        let c0 = choose|c: int|
                            #[trigger] spec_sole_char(s@, ':', c) && spec_is_uint_str(
                                s@.skip(c + 1),
                                65535,
                            ) && exists|d1: int, d2: int, d3: int|
                                #[trigger] spec_ipv4_fields_at(s@.take(c), d1, d2, d3);
                        assert(c0 == colon as int);
                        let (e1, e2, e3) = choose|d1: int, d2: int, d3: int|
                            #[trigger] spec_ipv4_fields_at(s@.take(c0), d1, d2, d3);
                        assert(s@.take(c0) =~= ip);
                        assert(spec_ipv4_fields_at(ip, e1, e2, e3));
                        assert(e1 == p1 as int && e2 == p2 as int && e3 == p3 as int);
                        assert(false);
                    }
                }
            }
            None
        },
    }
}

/// Checks whether `s` has the shape `a.b.c.d:port` with octets and port in
/// range.
pub fn is_valid_ipv4(s: &str) -> (r: bool)
    ensures
        r == spec_is_valid_ipv4(s@),
{
    str_to_ipv4(s).is_some()
}

} // verus!
