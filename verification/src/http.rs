//! The one HTTP exchange a task performs: composing the GET request and
//! reading the status code off the response's first line.
//!
//! The facade issues exactly one GET per connection; the transport bytes
//! travel outside the library, which only builds the request text and
//! classifies the status line that came back.

use crate::uri::{all_digits, dec_val, digit_val, is_digit};
use vstd::assert_by_contradiction;
use vstd::prelude::*;

verus! {

/// The request text for one GET of the root path against `host`, closing
/// the connection after the exchange.
pub open spec fn get_request_rep(host: Seq<char>) -> Seq<char> {
    "GET / HTTP/1.1\r\nHost: "@ + host + "\r\nConnection: close\r\n\r\n"@
}

/// Composes the GET request for one fetch against `host`.
pub fn compose_get_request(host: &str) -> (r: String)
    ensures
        r@ == get_request_rep(host@),
{
    let mut r = String::from_str("GET / HTTP/1.1\r\nHost: ");
    r.append(host);
    r.append("\r\nConnection: close\r\n\r\n");
    r
}

/// A character allowed in the version part of a status line: a digit or a
/// dot.
pub open spec fn is_ver_char(c: char) -> bool {
    is_digit(c) || c == '.'
}

/// The fixed opening of a status line.
pub open spec fn http_mark() -> Seq<char> {
    seq!['H', 'T', 'T', 'P', '/']
}

/// `s` splits as `"HTTP/" version " " digits rest`: a non-empty run of
/// version characters, one space, exactly three status digits, and either
/// nothing or a space opening the reason phrase.
pub open spec fn status_decomposes(
    s: Seq<char>,
    ver: Seq<char>,
    digits: Seq<char>,
    rest: Seq<char>,
) -> bool {
    &&& ver.len() > 0
    &&& (forall|x: int| 0 <= x < ver.len() ==> is_ver_char(#[trigger] ver[x]))
    &&& digits.len() == 3
    &&& all_digits(digits)
    &&& rest.len() == 0 || rest[0] == ' '
    &&& s == http_mark() + ver + seq![' '] + digits + rest
}

/// Some status line shape fits `s`.
pub open spec fn status_parseable(s: Seq<char>) -> bool {
    exists|ver: Seq<char>, digits: Seq<char>, rest: Seq<char>|
        status_decomposes(s, ver, digits, rest)
}

/// The code a status line carries: the value of its three digits.
pub open spec fn status_code_of(s: Seq<char>, code: u16) -> bool {
    exists|ver: Seq<char>, digits: Seq<char>, rest: Seq<char>|
        #[trigger] status_decomposes(s, ver, digits, rest) && dec_val(digits) == code as int
}

// The version segment of a status line ends exactly where a scan for
// version characters stops.
proof fn lemma_ver_segment(s: Seq<char>, seg: Seq<char>, rest: Seq<char>, v: int)
    requires
        s == http_mark() + seg + rest,
        forall|x: int| 0 <= x < seg.len() ==> is_ver_char(#[trigger] seg[x]),
        rest.len() == 0 || !is_ver_char(rest[0]),
        5 <= v <= s.len(),
        forall|x: int| 5 <= x < v ==> is_ver_char(#[trigger] s[x]),
        v == s.len() || !is_ver_char(s[v]),
    ensures
        seg =~= s.subrange(5, v),
{
    let e = 5 + seg.len() as int;
    assert(s.len() == 5 + seg.len() + rest.len());
    assert_by_contradiction!(e <= v, {
        assert(v < s.len());
        assert(s[v] == (http_mark() + seg)[v]);
        assert(s[v] == seg[v - 5]);
        assert(false);
    });
    assert_by_contradiction!(v <= e, {
        if rest.len() == 0 {
            assert(s.len() == e);
            assert(false);
        } else {
            assert(s[e] == rest[0]);
            assert(is_ver_char(s[e]));
            assert(false);
        }
    });
    assert(seg =~= s.subrange(5, v));
}

/// Reads the status code off a response's first line. Returns the code
/// exactly when the line opens with `HTTP/`, a version of digits and dots,
/// one space and three status digits, with nothing or a space-led reason
/// phrase after them.
#[verifier::rlimit(60)]
#[verifier::spinoff_prover]
pub fn parse_status_line(s: &str) -> (r: Option<u16>)
    ensures
        match r {
            Option::Some(code) => status_code_of(s@, code),
            Option::None => !status_parseable(s@),
        },
{
    let n = s.unicode_len();
    if n < 5 {
        proof {
            assert_by_contradiction!(!status_parseable(s@), {
                let (ver, digits, rest) = choose|ver: Seq<char>, digits: Seq<char>, rest: Seq<char>|
                    status_decomposes(s@, ver, digits, rest);
                assert(s@.len() >= 5 + ver.len() + 1 + 3);
                assert(false);
            });
        }
        return None;
    }
    if s.get_char(0) != 'H' || s.get_char(1) != 'T' || s.get_char(2) != 'T' || s.get_char(3)
        != 'P' || s.get_char(4) != '/' {
        proof {
            assert_by_contradiction!(!status_parseable(s@), {
                let (ver, digits, rest) = choose|ver: Seq<char>, digits: Seq<char>, rest: Seq<char>|
                    status_decomposes(s@, ver, digits, rest);
                assert(s@ =~= http_mark() + (ver + seq![' '] + digits + rest));
                assert(s@[0] == 'H' && s@[1] == 'T' && s@[2] == 'T' && s@[3] == 'P' && s@[4]
                    == '/');
                assert(false);
            });
        }
        return None;
    }
    let mut v: usize = 5;
    while v < n && ch_is_ver(s.get_char(v))
        invariant
            n == s@.len(),
            5 <= v <= n,
            forall|x: int| 5 <= x < v ==> is_ver_char(#[trigger] s@[x]),
        decreases n - v,
    {
        v = v + 1;
    }
    // The version must be non-empty and a space must follow it, with three
    // digits and then at most a reason phrase after that.
    let shape_ok: bool = if v == 5 || v >= n {
        false
    } else if s.get_char(v) != ' ' {
        false
    } else if n - v < 4 {
        false
    } else if !(ch_is_digit_http(s.get_char(v + 1)) && ch_is_digit_http(s.get_char(v + 2))
        && ch_is_digit_http(s.get_char(v + 3))) {
        false
    } else if n - v > 4 && s.get_char(v + 4) != ' ' {
        false
    } else {
        true
    };
    if !shape_ok {
        proof {
            assert_by_contradiction!(!status_parseable(s@), {
                let (ver, digits, rest) = choose|ver: Seq<char>, digits: Seq<char>, rest: Seq<char>|
                    status_decomposes(s@, ver, digits, rest);
                let after = seq![' '] + digits + rest;
                assert(s@ =~= http_mark() + ver + after);
                assert(after[0] == ' ');
                assert(!is_ver_char(' '));
                lemma_ver_segment(s@, ver, after, v as int);
                assert(ver =~= s@.subrange(5, v as int));
                assert(s@.len() == v + 4 + rest.len());
                assert(s@[v as int] == after[0]);
                let dstart = v as int + 1;
                assert(s@ =~= (http_mark() + ver + seq![' ']) + digits + rest);
                assert(s@[dstart] == digits[0]);
                assert(s@[dstart + 1] == digits[1]);
                assert(s@[dstart + 2] == digits[2]);
                assert(is_digit(s@[dstart]) && is_digit(s@[dstart + 1]) && is_digit(
                    s@[dstart + 2],
                ));
                if rest.len() > 0 {
                    assert(s@[v as int + 4] == rest[0]);
                    assert(s@[v as int + 4] == ' ');
                }
                assert(false);
            });
        }
        return None;
    }
    let d1 = s.get_char(v + 1) as u32 - 48;
    let d2 = s.get_char(v + 2) as u32 - 48;
    let d3 = s.get_char(v + 3) as u32 - 48;
    let code: u32 = d1 * 100 + d2 * 10 + d3;
    proof {
        let ver = s@.subrange(5, v as int);
        let digits = s@.subrange(v as int + 1, v as int + 4);
        let rest = s@.subrange(v as int + 4, n as int);
        assert(s@ =~= http_mark() + ver + seq![' '] + digits + rest);
        assert(all_digits(digits));
        let one = s@.subrange(v as int + 1, v as int + 2);
        let two = s@.subrange(v as int + 1, v as int + 3);
        assert(one.drop_last() =~= Seq::<char>::empty());
        assert(one.last() == s@[v as int + 1]);
        assert(dec_val(Seq::<char>::empty()) == 0);
        assert(dec_val(one) == digit_val(s@[v as int + 1]));
        assert(two.drop_last() =~= one);
        assert(two.last() == s@[v as int + 2]);
        assert(dec_val(two) == dec_val(one) * 10 + digit_val(s@[v as int + 2]));
        assert(digits.drop_last() =~= two);
        assert(digits.last() == s@[v as int + 3]);
        assert(dec_val(digits) == dec_val(two) * 10 + digit_val(s@[v as int + 3]));
        assert(status_decomposes(s@, ver, digits, rest));
        assert(dec_val(digits) == code as int);
    }
    Some(code as u16)
}

fn ch_is_ver(c: char) -> (r: bool)
    ensures
        r == is_ver_char(c),
{
    let u = c as u32;
    (48 <= u && u <= 57) || c == '.'
}

fn ch_is_digit_http(c: char) -> (r: bool)
    ensures
        r == is_digit(c),
{
    let u = c as u32;
    48 <= u && u <= 57
}

} // verus!
