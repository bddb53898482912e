//! IPv4 addresses as plain octets, with verified parsing and formatting
//! of the dotted-quad text form (canonical decimal, no leading zeros).

use vstd::prelude::*;

verus! {

/// An IPv4 address held as four plain octets.
#[derive(Clone, Copy, PartialEq, Eq, Structural, Debug)]
pub struct Ipv4 {
    pub a: u8,
    pub b: u8,
    pub c: u8,
    pub d: u8,
}

/// A decimal digit character.
pub open spec fn is_digit(c: char) -> bool {
    '0' <= c && c <= '9'
}

/// Numeric value of a digit character.
pub open spec fn digit_val(c: char) -> int {
    c as int - 48
}

/// Digit character of a numeric value below ten.
pub open spec fn digit_char(d: int) -> char {
    ((48 + d) as u8) as char
}

/// Canonical decimal text of a value between 0 and 255.
pub open spec fn dec_text(n: int) -> Seq<char> {
    if n >= 100 {
        seq![digit_char(n / 100), digit_char((n / 10) % 10), digit_char(n % 10)]
    } else if n >= 10 {
        seq![digit_char(n / 10), digit_char(n % 10)]
    } else {
        seq![digit_char(n)]
    }
}

/// The dotted-quad text of an address: four canonical octets joined by dots.
pub open spec fn ipv4_text(ip: Ipv4) -> Seq<char> {
    dec_text(ip.a as int) + seq!['.'] + dec_text(ip.b as int) + seq!['.'] + dec_text(ip.c as int)
        + seq!['.'] + dec_text(ip.d as int)
}

/// Valid text of one octet: one to three digits, no leading zero, at most 255.
pub open spec fn is_octet_text(s: Seq<char>) -> bool {
    ||| (s.len() == 1 && is_digit(s[0]))
    ||| (s.len() == 2 && is_digit(s[0]) && is_digit(s[1]) && s[0] != '0')
    ||| (s.len() == 3 && is_digit(s[0]) && is_digit(s[1]) && is_digit(s[2]) && s[0] != '0'
        && 100 * digit_val(s[0]) + 10 * digit_val(s[1]) + digit_val(s[2]) <= 255)
}

/// Numeric value of a one- to three-digit octet text.
pub open spec fn octet_val(s: Seq<char>) -> int {
    if s.len() == 1 {
        digit_val(s[0])
    } else if s.len() == 2 {
        10 * digit_val(s[0]) + digit_val(s[1])
    } else {
        100 * digit_val(s[0]) + 10 * digit_val(s[1]) + digit_val(s[2])
    }
}

/// The three dots of a dotted quad sit exactly at `i`, `j`, `k`, and the
/// four runs between them are valid octet texts.
pub open spec fn ipv4_dots_at(s: Seq<char>, i: int, j: int, k: int) -> bool {
    &&& 0 <= i < j < k < s.len()
    &&& s[i] == '.' && s[j] == '.' && s[k] == '.'
    &&& forall|t: int| 0 <= t < s.len() && t != i && t != j && t != k ==> #[trigger] s[t] != '.'
    &&& is_octet_text(s.subrange(0, i))
    &&& is_octet_text(s.subrange(i + 1, j))
    &&& is_octet_text(s.subrange(j + 1, k))
    &&& is_octet_text(s.subrange(k + 1, s.len() as int))
}

/// Valid dotted-quad text of an IPv4 address.
pub open spec fn is_ipv4_text(s: Seq<char>) -> bool {
    exists|i: int, j: int, k: int| ipv4_dots_at(s, i, j, k)
}

/// A valid octet text is the canonical decimal of its value.
pub proof fn lemma_octet_canonical(s: Seq<char>)
    requires
        is_octet_text(s),
    ensures
        0 <= octet_val(s) <= 255,
        dec_text(octet_val(s)) == s,
{
    if s.len() == 1 {
        assert(dec_text(octet_val(s)) =~= s);
    } else if s.len() == 2 {
        let d0 = digit_val(s[0]);
        let d1 = digit_val(s[1]);
        assert(1 <= d0 <= 9 && 0 <= d1 <= 9);
        let n = 10 * d0 + d1;
        assert(n / 10 == d0 && n % 10 == d1);
        assert(dec_text(octet_val(s)) =~= s);
    } else {
        let d0 = digit_val(s[0]);
        let d1 = digit_val(s[1]);
        let d2 = digit_val(s[2]);
        assert(1 <= d0 <= 9 && 0 <= d1 <= 9 && 0 <= d2 <= 9);
        let n = 100 * d0 + 10 * d1 + d2;
        assert(n / 100 == d0);
        assert((n / 10) % 10 == d1);
        assert(n % 10 == d2);
        assert(dec_text(octet_val(s)) =~= s);
    }
}

/// Decides whether one character is a decimal digit.
pub fn check_digit(c: char) -> (b: bool)
    ensures
        b == is_digit(c),
{
    '0' <= c && c <= '9'
}

/// Parses the characters of `s` between `from` and `to` as one octet.
fn parse_octet(s: &str, from: usize, to: usize) -> (r: Option<u8>)
    requires
        from <= to,
        to <= s@.len(),
    ensures
        match r {
            Some(v) => is_octet_text(s@.subrange(from as int, to as int)) && octet_val(
                s@.subrange(from as int, to as int),
            ) == v as int,
            None => !is_octet_text(s@.subrange(from as int, to as int)),
        },
{
    let ghost seg = s@.subrange(from as int, to as int);
    let len = to - from;
    if len == 1 {
        let c0 = s.get_char(from);
        proof {
            assert(seg[0] == s@[from as int]);
        }
        if check_digit(c0) {
            Some((c0 as u8) - 48)
        } else {
            None
        }
    } else if len == 2 {
        let c0 = s.get_char(from);
        let c1 = s.get_char(from + 1);
        proof {
            assert(seg[0] == s@[from as int]);
            assert(seg[1] == s@[from + 1]);
        }
        if check_digit(c0) && check_digit(c1) && c0 != '0' {
            Some(((c0 as u8) - 48) * 10 + ((c1 as u8) - 48))
        } else {
            None
        }
    } else if len == 3 {
        let c0 = s.get_char(from);
        let c1 = s.get_char(from + 1);
        let c2 = s.get_char(from + 2);
        proof {
            assert(seg[0] == s@[from as int]);
            assert(seg[1] == s@[from + 1]);
            assert(seg[2] == s@[from + 2]);
        }
        if check_digit(c0) && check_digit(c1) && check_digit(c2) && c0 != '0' {
            let v: u32 = 100 * ((c0 as u32) - 48) + 10 * ((c1 as u32) - 48) + ((c2 as u32) - 48);
            if v <= 255 {
                Some(v as u8)
            } else {
                None
            }
        } else {
            None
        }
    } else {
        None
    }
}

/// Parses dotted-quad IPv4 text; returns the address exactly when the
/// text is the canonical form of one.
pub fn parse_ipv4(s: &str) -> (r: Option<Ipv4>)
    ensures
        match r {
            Some(ip) => s@ == ipv4_text(ip) && is_ipv4_text(s@),
            None => !is_ipv4_text(s@),
        },
{
    let n = s.unicode_len();
    let mut d1: usize = 0;
    let mut d2: usize = 0;
    let mut d3: usize = 0;
    let mut count: usize = 0;
    let mut t: usize = 0;
    while t < n
        invariant
            t <= n,
            n == s@.len(),
            count <= 3,
            count == 0 ==> forall|u: int| 0 <= u < t ==> #[trigger] s@[u] != '.',
            count >= 1 ==> d1 < t && s@[d1 as int] == '.',
            count == 1 ==> forall|u: int| 0 <= u < t && u != d1 ==> #[trigger] s@[u] != '.',
            count >= 2 ==> d1 < d2 < t && s@[d2 as int] == '.',
            count == 2 ==> forall|u: int| 0 <= u < t && u != d1 && u != d2 ==> #[trigger] s@[u]
                != '.',
            count == 3 ==> d2 < d3 < t && s@[d3 as int] == '.' && forall|u: int|
                0 <= u < t && u != d1 && u != d2 && u != d3 ==> #[trigger] s@[u] != '.',
        decreases n - t,
    {
        let c = s.get_char(t);
        if c == '.' {
            if count == 0 {
                d1 = t;
            } else if count == 1 {
                d2 = t;
            } else if count == 2 {
                d3 = t;
            } else {
                proof {
                    if is_ipv4_text(s@) {
                        let (i, j, k) = choose|i: int, j: int, k: int| ipv4_dots_at(s@, i, j, k);
                        assert(s@[d1 as int] == '.' && s@[d2 as int] == '.' && s@[d3 as int] == '.'
                            && s@[t as int] == '.');
                        assert(false);
                    }
                }
                return None;
            }
            count += 1;
        }
        t += 1;
    }
    if count != 3 {
        proof {
            if is_ipv4_text(s@) {
                let (i, j, k) = choose|i: int, j: int, k: int| ipv4_dots_at(s@, i, j, k);
                assert(s@[i] == '.' && s@[j] == '.' && s@[k] == '.');
                assert(false);
            }
        }
        return None;
    }
    let oa = parse_octet(s, 0, d1);
    let ob = parse_octet(s, d1 + 1, d2);
    let oc = parse_octet(s, d2 + 1, d3);
    let od = parse_octet(s, d3 + 1, n);
    proof {
        if is_ipv4_text(s@) {
            let (i, j, k) = choose|i: int, j: int, k: int| ipv4_dots_at(s@, i, j, k);
            assert(s@[i] == '.' && s@[j] == '.' && s@[k] == '.');
            assert(i == d1 && j == d2 && k == d3);
        }
    }
    match (oa, ob, oc, od) {
        (Some(a), Some(b), Some(c), Some(d)) => {
            let ip = Ipv4 { a, b, c, d };
            proof {
                assert(ipv4_dots_at(s@, d1 as int, d2 as int, d3 as int));
                lemma_octet_canonical(s@.subrange(0, d1 as int));
                lemma_octet_canonical(s@.subrange(d1 + 1, d2 as int));
                lemma_octet_canonical(s@.subrange(d2 + 1, d3 as int));
                lemma_octet_canonical(s@.subrange(d3 + 1, n as int));
                assert(s@ =~= s@.subrange(0, d1 as int) + seq!['.'] + s@.subrange(d1 + 1, d2 as int)
                    + seq!['.'] + s@.subrange(d2 + 1, d3 as int) + seq!['.'] + s@.subrange(
                    d3 + 1,
                    n as int,
                ));
            }
            Some(ip)
        },
        _ => {
            None
        },
    }
}

/// Text of one decimal digit.
fn digit_str(d: u8) -> (r: &'static str)
    requires
        d <= 9,
    ensures
        r@ == seq![digit_char(d as int)],
{
    proof {
        reveal_strlit("0");
        reveal_strlit("1");
        reveal_strlit("2");
        reveal_strlit("3");
        reveal_strlit("4");
        reveal_strlit("5");
        reveal_strlit("6");
        reveal_strlit("7");
        reveal_strlit("8");
        reveal_strlit("9");
    }
    let r: &'static str = match d {
        0 => "0",
        1 => "1",
        2 => "2",
        3 => "3",
        4 => "4",
        5 => "5",
        6 => "6",
        7 => "7",
        8 => "8",
        _ => "9",
    };
    proof {
        assert(r@ =~= seq![digit_char(d as int)]);
    }
    r
}

/// Canonical decimal text of one octet value.
fn dec_str(v: u8) -> (r: String)
    ensures
        r@ == dec_text(v as int),
{
    let mut r = String::new();
    if v >= 100 {
        r.append(digit_str(v / 100));
        r.append(digit_str((v / 10) % 10));
        r.append(digit_str(v % 10));
    } else if v >= 10 {
        r.append(digit_str(v / 10));
        r.append(digit_str(v % 10));
    } else {
        r.append(digit_str(v));
    }
    proof {
        assert(r@ =~= dec_text(v as int));
    }
    r
}

/// Formats an address as canonical dotted-quad text.
pub fn format_ipv4(ip: &Ipv4) -> (r: String)
    ensures
        r@ == ipv4_text(*ip),
{
    proof {
        reveal_strlit(".");
    }
    let mut r = dec_str(ip.a);
    r.append(".");
    let sb = dec_str(ip.b);
    r.append(sb.as_str());
    r.append(".");
    let sc = dec_str(ip.c);
    r.append(sc.as_str());
    r.append(".");
    let sd = dec_str(ip.d);
    r.append(sd.as_str());
    proof {
        assert("."@ =~= seq!['.']);
        assert(r@ =~= ipv4_text(*ip));
    }
    r
}

} // verus!
