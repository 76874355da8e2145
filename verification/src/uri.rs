//! Destinations and the grammar that produces them.
//!
//! A destination is the parsed target of one fetch: a scheme, a host and an
//! optional port. It is derived once per fetch from the site's URI string.

use vstd::assert_by_contradiction;
use vstd::prelude::*;

verus! {

/// An ASCII letter.
pub open spec fn is_alpha(c: char) -> bool {
    (65 <= c as u32 && c as u32 <= 90) || (97 <= c as u32 && c as u32 <= 122)
}

/// An ASCII decimal digit.
pub open spec fn is_digit(c: char) -> bool {
    48 <= c as u32 && c as u32 <= 57
}

/// The numeric value of a decimal digit character.
pub open spec fn digit_val(c: char) -> int {
    c as u32 - 48
}

/// A character allowed anywhere in a scheme: letter, digit, `+`, `-` or `.`.
pub open spec fn is_scheme_char(c: char) -> bool {
    is_alpha(c) || is_digit(c) || c == '+' || c == '-' || c == '.'
}

/// A character allowed in a host: anything but the delimiters that end it.
pub open spec fn is_host_char(c: char) -> bool {
    c != ':' && c != '/' && c != '?' && c != '#'
}

/// A scheme: non-empty, starts with a letter, scheme characters throughout.
pub open spec fn valid_scheme(s: Seq<char>) -> bool {
    &&& s.len() > 0
    &&& is_alpha(s[0])
    &&& forall|x: int| 0 <= x < s.len() ==> is_scheme_char(#[trigger] s[x])
}

/// A host: non-empty, host characters throughout.
pub open spec fn valid_host(s: Seq<char>) -> bool {
    &&& s.len() > 0
    &&& forall|x: int| 0 <= x < s.len() ==> is_host_char(#[trigger] s[x])
}

/// Every character is a decimal digit.
pub open spec fn all_digits(s: Seq<char>) -> bool {
    forall|x: int| 0 <= x < s.len() ==> is_digit(#[trigger] s[x])
}

/// The value of a string of decimal digits, most significant first.
pub open spec fn dec_val(s: Seq<char>) -> int
    decreases s.len(),
{
    if s.len() == 0 {
        0
    } else {
        dec_val(s.drop_last()) * 10 + digit_val(s.last())
    }
}

/// What may follow the authority: nothing, or a path, query or fragment.
pub open spec fn is_tail(s: Seq<char>) -> bool {
    s.len() == 0 || s[0] == '/' || s[0] == '?' || s[0] == '#'
}

/// The separator between scheme and authority.
pub open spec fn sep() -> Seq<char> {
    seq![':', '/', '/']
}

/// `s` splits as `scheme "://" host tail` when no port is given, and as
/// `scheme "://" host ":" digits tail` when one is, where the digits spell
/// the port in decimal. This is the grammar a fetch target must meet.
pub open spec fn uri_decomposes(
    s: Seq<char>,
    scheme: Seq<char>,
    host: Seq<char>,
    port: Option<u16>,
    tail: Seq<char>,
) -> bool {
    &&& valid_scheme(scheme)
    &&& valid_host(host)
    &&& is_tail(tail)
    &&& match port {
        Option::None => s == scheme + sep() + host + tail,
        Option::Some(p) => exists|digits: Seq<char>|
            {
                &&& #[trigger] all_digits(digits)
                &&& digits.len() > 0
                &&& dec_val(digits) == p as int
                &&& s == scheme + sep() + host + seq![':'] + digits + tail
            },
    }
}

/// `d` is what `s` parses to, with `tail` the ignored remainder.
pub open spec fn parses_to(s: Seq<char>, d: Destination, tail: Seq<char>) -> bool {
    uri_decomposes(s, d.scheme@, d.host@, d.port, tail)
}

/// `s` meets the grammar for some destination.
pub open spec fn parseable(s: Seq<char>) -> bool {
    exists|scheme: Seq<char>, host: Seq<char>, port: Option<u16>, tail: Seq<char>|
        uri_decomposes(s, scheme, host, port, tail)
}

/// The decimal digit character for `d`, which must lie in 0..=9.
pub open spec fn digit_char(d: int) -> char {
    if d == 0 {
        '0'
    } else if d == 1 {
        '1'
    } else if d == 2 {
        '2'
    } else if d == 3 {
        '3'
    } else if d == 4 {
        '4'
    } else if d == 5 {
        '5'
    } else if d == 6 {
        '6'
    } else if d == 7 {
        '7'
    } else if d == 8 {
        '8'
    } else {
        '9'
    }
}

/// Decimal representation of `n`: most significant digit first, no leading
/// zeros (a single `'0'` for zero).
pub open spec fn dec_rep(n: nat) -> Seq<char>
    decreases n,
{
    if n < 10 {
        seq![digit_char(n as int)]
    } else {
        dec_rep(n / 10) + seq![digit_char((n % 10) as int)]
    }
}

fn digit_str(d: u16) -> (r: &'static str)
    requires
        d < 10,
    ensures
        r@ == seq![digit_char(d as int)],
{
    if d == 0 {
        proof { reveal_strlit("0"); assert("0"@ =~= seq![digit_char(0int)]); }
        "0"
    } else if d == 1 {
        proof { reveal_strlit("1"); assert("1"@ =~= seq![digit_char(1int)]); }
        "1"
    } else if d == 2 {
        proof { reveal_strlit("2"); assert("2"@ =~= seq![digit_char(2int)]); }
        "2"
    } else if d == 3 {
        proof { reveal_strlit("3"); assert("3"@ =~= seq![digit_char(3int)]); }
        "3"
    } else if d == 4 {
        proof { reveal_strlit("4"); assert("4"@ =~= seq![digit_char(4int)]); }
        "4"
    } else if d == 5 {
        proof { reveal_strlit("5"); assert("5"@ =~= seq![digit_char(5int)]); }
        "5"
    } else if d == 6 {
        proof { reveal_strlit("6"); assert("6"@ =~= seq![digit_char(6int)]); }
        "6"
    } else if d == 7 {
        proof { reveal_strlit("7"); assert("7"@ =~= seq![digit_char(7int)]); }
        "7"
    } else if d == 8 {
        proof { reveal_strlit("8"); assert("8"@ =~= seq![digit_char(8int)]); }
        "8"
    } else {
        proof { reveal_strlit("9"); assert("9"@ =~= seq![digit_char(9int)]); }
        "9"
    }
}

/// Round trip of the decimal rendering: the digits of `dec_rep(n)` are
/// digits and spell `n` back. In particular the port digits of an authority
/// string denote exactly the destination's port.
pub proof fn lemma_dec_rep_round_trip(n: nat)
    ensures
        all_digits(dec_rep(n)),
        dec_val(dec_rep(n)) == n,
    decreases n,
{
    if n < 10 {
        let s = dec_rep(n);
        assert(s.len() == 1);
        assert(s.drop_last() =~= Seq::<char>::empty());
        assert(dec_val(Seq::<char>::empty()) == 0);
        assert(s.last() == s[0]);
        assert(dec_val(s) == digit_val(s[0]));
    } else {
        lemma_dec_rep_round_trip(n / 10);
        let s = dec_rep(n);
        let prefix = dec_rep(n / 10);
        assert(s == prefix + seq![digit_char((n % 10) as int)]);
        assert(s.drop_last() =~= prefix);
        assert(s.last() == digit_char((n % 10) as int));
        assert(dec_val(s) == dec_val(prefix) * 10 + digit_val(s.last()));
        assert(forall|x: int|
            0 <= x < s.len() - 1 ==> #[trigger] s[x] == prefix[x]);
    }
}

/// Decimal rendering of a port number.
pub fn u16_to_dec(n: u16) -> (r: String)
    ensures
        r@ == dec_rep(n as nat),
    decreases n,
{
    if n < 10 {
        String::from_str(digit_str(n))
    } else {
        let prefix = u16_to_dec(n / 10);
        prefix.concat(digit_str(n % 10))
    }
}

// A run of scheme characters followed by a non-scheme character (or by
// nothing) is pinned down by the first place a scan stops.
proof fn lemma_scheme_segment(s: Seq<char>, seg: Seq<char>, rest: Seq<char>, i: int)
    requires
        s == seg + rest,
        forall|x: int| 0 <= x < seg.len() ==> is_scheme_char(#[trigger] seg[x]),
        rest.len() == 0 || !is_scheme_char(rest[0]),
        0 <= i <= s.len(),
        forall|x: int| 0 <= x < i ==> is_scheme_char(#[trigger] s[x]),
        i == s.len() || !is_scheme_char(s[i]),
    ensures
        seg =~= s.subrange(0, i),
{
    let e = seg.len() as int;
    assert(s.len() == seg.len() + rest.len());
    assert_by_contradiction!(e <= i, {
        assert(i < s.len());
        assert(s[i] == seg[i]);
        assert(false);
    });
    assert_by_contradiction!(i <= e, {
        if rest.len() == 0 {
            assert(s.len() == e);
            assert(false);
        } else {
            assert(s[e] == rest[0]);
            assert(is_scheme_char(s[e]));
            assert(false);
        }
    });
    assert(seg =~= s.subrange(0, i));
}

// The host segment of a decomposition ends exactly where a scan for host
// characters stops.
proof fn lemma_host_segment(s: Seq<char>, pre: Seq<char>, seg: Seq<char>, rest: Seq<char>, k: int)
    requires
        s == pre + seg + rest,
        forall|x: int| 0 <= x < seg.len() ==> is_host_char(#[trigger] seg[x]),
        rest.len() == 0 || !is_host_char(rest[0]),
        pre.len() <= k <= s.len(),
        forall|x: int| pre.len() <= x < k ==> is_host_char(#[trigger] s[x]),
        k == s.len() || !is_host_char(s[k]),
    ensures
        seg =~= s.subrange(pre.len() as int, k),
{
    let j = pre.len() as int;
    let e = j + seg.len() as int;
    assert(s.len() == pre.len() + seg.len() + rest.len());
    assert_by_contradiction!(e <= k, {
        assert(k < s.len());
        assert(s[k] == (pre + seg)[k]);
        assert(s[k] == seg[k - j]);
        assert(false);
    });
    assert_by_contradiction!(k <= e, {
        if rest.len() == 0 {
            assert(s.len() == e);
            assert(false);
        } else {
            assert(s[e] == rest[0]);
            assert(is_host_char(s[e]));
            assert(false);
        }
    });
    assert(seg =~= s.subrange(j, k));
}

// The digit segment of a decomposition ends exactly where a scan for digits
// stops.
proof fn lemma_digits_segment(s: Seq<char>, pre: Seq<char>, seg: Seq<char>, rest: Seq<char>, m: int)
    requires
        s == pre + seg + rest,
        forall|x: int| 0 <= x < seg.len() ==> is_digit(#[trigger] seg[x]),
        rest.len() == 0 || !is_digit(rest[0]),
        pre.len() <= m <= s.len(),
        forall|x: int| pre.len() <= x < m ==> is_digit(#[trigger] s[x]),
        m == s.len() || !is_digit(s[m]),
    ensures
        seg =~= s.subrange(pre.len() as int, m),
{
    let j = pre.len() as int;
    let e = j + seg.len() as int;
    assert(s.len() == pre.len() + seg.len() + rest.len());
    assert_by_contradiction!(e <= m, {
        assert(m < s.len());
        assert(s[m] == (pre + seg)[m]);
        assert(s[m] == seg[m - j]);
        assert(false);
    });
    assert_by_contradiction!(m <= e, {
        if rest.len() == 0 {
            assert(s.len() == e);
            assert(false);
        } else {
            assert(s[e] == rest[0]);
            assert(is_digit(s[e]));
            assert(false);
        }
    });
    assert(seg =~= s.subrange(j, m));
}

// Flattens a decomposition into `scheme ++ sep ++ host ++ r` and says what
// the remainder `r` is in each port case.
proof fn lemma_flatten(
    s: Seq<char>,
    scheme: Seq<char>,
    host: Seq<char>,
    port: Option<u16>,
    tail: Seq<char>,
) -> (r: Seq<char>)
    requires
        uri_decomposes(s, scheme, host, port, tail),
    ensures
        s == scheme + sep() + host + r,
        r.len() == 0 || !is_host_char(r[0]),
        match port {
            Option::None => r == tail,
            Option::Some(p) => {
                &&& r.len() > 0
                &&& r[0] == ':'
                &&& exists|digits: Seq<char>|
                    {
                        &&& #[trigger] all_digits(digits)
                        &&& digits.len() > 0
                        &&& dec_val(digits) == p as int
                        &&& r == seq![':'] + digits + tail
                    }
            },
        },
{
    match port {
        Option::None => {
            if tail.len() > 0 {
                assert(!is_host_char(tail[0]));
            }
            tail
        },
        Option::Some(p) => {
            let digits = choose|digits: Seq<char>|
                {
                    &&& #[trigger] all_digits(digits)
                    &&& digits.len() > 0
                    &&& dec_val(digits) == p as int
                    &&& s == scheme + sep() + host + seq![':'] + digits + tail
                };
            let r = seq![':'] + digits + tail;
            assert(s =~= scheme + sep() + host + r);
            assert(r[0] == ':');
            r
        },
    }
}

// Any decomposition of `s` has its scheme pinned by the scan that stops at
// `i`, and the three separator characters stand right after it.
proof fn lemma_forced_prefix(
    s: Seq<char>,
    sch: Seq<char>,
    h: Seq<char>,
    rest: Seq<char>,
    i: int,
)
    requires
        s == sch + sep() + h + rest,
        valid_scheme(sch),
        valid_host(h),
        0 <= i <= s.len(),
        forall|x: int| 0 <= x < i ==> is_scheme_char(#[trigger] s[x]),
        i == s.len() || !is_scheme_char(s[i]),
    ensures
        sch == s.subrange(0, i),
        i + 4 <= s.len(),
        s[i] == ':',
        s[i + 1] == '/',
        s[i + 2] == '/',
        is_alpha(s[0]),
{
    let after = sep() + h + rest;
    assert(s =~= sch + after);
    assert(after[0] == sep()[0]);
    assert(after[1] == sep()[1]);
    assert(after[2] == sep()[2]);
    assert(!is_scheme_char(':'));
    lemma_scheme_segment(s, sch, after, i);
    assert(sch == s.subrange(0, i));
    assert(s.len() == sch.len() + 3 + h.len() + rest.len());
    assert(s[i] == after[0]);
    assert(s[i + 1] == after[1]);
    assert(s[i + 2] == after[2]);
    assert(s[0] == sch[0]);
}

// On top of the forced scheme, the host is pinned by the scan that stops at
// `k`, and `rest` begins right there.
proof fn lemma_forced_host(
    s: Seq<char>,
    sch: Seq<char>,
    h: Seq<char>,
    rest: Seq<char>,
    i: int,
    k: int,
)
    requires
        s == sch + sep() + h + rest,
        valid_scheme(sch),
        valid_host(h),
        rest.len() == 0 || !is_host_char(rest[0]),
        sch.len() == i,
        i + 3 <= k <= s.len(),
        forall|x: int| i + 3 <= x < k ==> is_host_char(#[trigger] s[x]),
        k == s.len() || !is_host_char(s[k]),
    ensures
        h == s.subrange(i + 3, k),
        s.len() == k + rest.len(),
        k < s.len() ==> rest.len() > 0 && rest[0] == s[k],
{
    let pre = sch + sep();
    assert(s =~= pre + h + rest);
    lemma_host_segment(s, pre, h, rest, k);
    assert(h == s.subrange(i + 3, k));
    assert(s.len() == k + rest.len());
    if k < s.len() {
        assert(s[k] == rest[0]);
    }
}

// Two decompositions of one string agree in every part.
#[verifier::rlimit(100)]
#[verifier::spinoff_prover]
proof fn lemma_decomposes_unique(
    s: Seq<char>,
    sch1: Seq<char>,
    h1: Seq<char>,
    p1: Option<u16>,
    t1: Seq<char>,
    sch2: Seq<char>,
    h2: Seq<char>,
    p2: Option<u16>,
    t2: Seq<char>,
)
    requires
        uri_decomposes(s, sch1, h1, p1, t1),
        uri_decomposes(s, sch2, h2, p2, t2),
    ensures
        sch1 == sch2,
        h1 == h2,
        p1 == p2,
        t1 == t2,
{
    let rest1 = lemma_flatten(s, sch1, h1, p1, t1);
    let rest2 = lemma_flatten(s, sch2, h2, p2, t2);
    let i = sch1.len() as int;

    // Decomposition 1 shows where a scheme scan would stop.
    assert(s =~= sch1 + (sep() + h1 + rest1));
    assert forall|x: int| 0 <= x < i implies is_scheme_char(#[trigger] s[x]) by {
        assert(s[x] == sch1[x]);
    }
    assert(s[i] == (sep() + h1 + rest1)[0]);
    assert(!is_scheme_char(':'));
    lemma_forced_prefix(s, sch1, h1, rest1, i);
    lemma_forced_prefix(s, sch2, h2, rest2, i);
    assert(sch1 == sch2);

    // Decomposition 1 shows where a host scan would stop.
    let k = i + 3 + h1.len() as int;
    assert forall|x: int| i + 3 <= x < k implies is_host_char(#[trigger] s[x]) by {
        assert(s[x] == ((sch1 + sep()) + h1)[x]);
        assert(s[x] == h1[x - (i + 3)]);
    }
    assert(s.len() == k + rest1.len());
    if rest1.len() > 0 {
        assert(s[k] == rest1[0]);
    }
    lemma_forced_host(s, sch1, h1, rest1, i, k);
    lemma_forced_host(s, sch2, h2, rest2, i, k);
    assert(h1 == h2);
    assert(rest1 =~= s.subrange(k, s.len() as int));
    assert(rest2 =~= s.subrange(k, s.len() as int));
    assert(rest1 == rest2);

    if rest1.len() == 0 {
        // Nothing follows the host: no port, empty tails.
        match p1 {
            Option::Some(_) => { assert(false); },
            Option::None => {},
        }
        match p2 {
            Option::Some(_) => { assert(false); },
            Option::None => {},
        }
        assert(t1 == rest1 && t2 == rest2);
    } else if rest1[0] == ':' {
        // Only a port may follow: a tail never opens with ':'.
        match p1 {
            Option::None => {
                assert(t1 == rest1 && t1.len() > 0 && is_tail(t1));
                assert(false);
            },
            Option::Some(q1) => {
                match p2 {
                    Option::None => {
                        assert(t2 == rest2 && t2.len() > 0 && is_tail(t2));
                        assert(false);
                    },
                    Option::Some(q2) => {
                        let digits1 = choose|digits: Seq<char>|
                            {
                                &&& #[trigger] all_digits(digits)
                                &&& digits.len() > 0
                                &&& dec_val(digits) == q1 as int
                                &&& rest1 == seq![':'] + digits + t1
                            };
                        let digits2 = choose|digits: Seq<char>|
                            {
                                &&& #[trigger] all_digits(digits)
                                &&& digits.len() > 0
                                &&& dec_val(digits) == q2 as int
                                &&& rest2 == seq![':'] + digits + t2
                            };
                        let pre = sch1 + sep() + h1 + seq![':'];
                        assert(s =~= pre + digits1 + t1);
                        assert(s =~= pre + digits2 + t2);
                        let m = k + 1 + digits1.len() as int;
                        assert forall|x: int| k + 1 <= x < m implies is_digit(
                            #[trigger] s[x],
                        ) by {
                            assert(s[x] == (pre + digits1)[x]);
                            assert(s[x] == digits1[x - (k + 1)]);
                        }
                        assert(s.len() == m + t1.len());
                        if t1.len() > 0 {
                            assert(s[m] == t1[0]);
                            assert(!is_digit(t1[0]));
                        }
                        if t2.len() > 0 {
                            assert(!is_digit(t2[0]));
                        }
                        lemma_digits_segment(s, pre, digits1, t1, m);
                        lemma_digits_segment(s, pre, digits2, t2, m);
                        assert(digits1 == digits2);
                        assert(q1 as int == q2 as int);
                        assert(t1 =~= s.subrange(m, s.len() as int));
                        assert(t2 =~= s.subrange(m, s.len() as int));
                    },
                }
            },
        }
    } else {
        // No port: a port segment would put ':' right after the host.
        match p1 {
            Option::Some(_) => { assert(false); },
            Option::None => {},
        }
        match p2 {
            Option::Some(_) => { assert(false); },
            Option::None => {},
        }
        assert(t1 == rest1 && t2 == rest2);
    }
}

/// The destination grammar is unambiguous: when one string parses to two
/// destinations, they agree on scheme, host and port, and the ignored
/// remainders are the same.
pub proof fn lemma_parses_to_unique(
    s: Seq<char>,
    d1: Destination,
    t1: Seq<char>,
    d2: Destination,
    t2: Seq<char>,
)
    requires
        parses_to(s, d1, t1),
        parses_to(s, d2, t2),
    ensures
        d1.scheme@ == d2.scheme@,
        d1.host@ == d2.host@,
        d1.port == d2.port,
        t1 == t2,
{
    lemma_decomposes_unique(
        s,
        d1.scheme@,
        d1.host@,
        d1.port,
        t1,
        d2.scheme@,
        d2.host@,
        d2.port,
        t2,
    );
}

/// The parsed target of one fetch: scheme, host, optional port.
pub struct Destination {
    pub scheme: String,
    pub host: String,
    pub port: Option<u16>,
}

/// The host-authority string for `host` and `port`: `host` alone when no port
/// is present, `host:port` (decimal port, no leading zeros) otherwise.
pub open spec fn authority_rep(host: Seq<char>, port: Option<u16>) -> Seq<char> {
    match port {
        Option::None => host,
        Option::Some(p) => host + seq![':'] + dec_rep(p as nat),
    }
}

impl Destination {
    /// Whether the destination asks for the one accepted secure scheme.
    pub open spec fn is_secure(self) -> bool {
        self.scheme@ == "https"@
    }

    /// Composes the host-authority string the transport dialer connects to.
    pub fn authority(&self) -> (r: String)
        ensures
            r@ == authority_rep(self.host@, self.port),
    {
        match self.port {
            None => self.host.clone(),
            Some(p) => {
                proof { reveal_strlit(":"); assert(":"@ =~= seq![':']); }
                let with_sep = self.host.clone().concat(":");
                let digits = u16_to_dec(p);
                with_sep.concat(digits.as_str())
            },
        }
    }
}

fn ch_is_alpha(c: char) -> (r: bool)
    ensures
        r == is_alpha(c),
{
    let u = c as u32;
    (65 <= u && u <= 90) || (97 <= u && u <= 122)
}

fn ch_is_digit(c: char) -> (r: bool)
    ensures
        r == is_digit(c),
{
    let u = c as u32;
    48 <= u && u <= 57
}

fn ch_is_scheme(c: char) -> (r: bool)
    ensures
        r == is_scheme_char(c),
{
    ch_is_alpha(c) || ch_is_digit(c) || c == '+' || c == '-' || c == '.'
}

fn ch_is_host(c: char) -> (r: bool)
    ensures
        r == is_host_char(c),
{
    c != ':' && c != '/' && c != '?' && c != '#'
}

fn ch_is_tail_start(c: char) -> (r: bool)
    ensures
        r == (c == '/' || c == '?' || c == '#'),
{
    c == '/' || c == '?' || c == '#'
}

/// Parses a URI string into a destination: `scheme "://" host [":" port]`,
/// followed by nothing or by a path, query or fragment, which a fetch
/// target ignores. Returns the destination exactly when the string meets
/// that grammar, with the port read as decimal and at most 65535.
#[verifier::rlimit(100)]
#[verifier::spinoff_prover]
pub fn parse_uri(s: &str) -> (r: Option<Destination>)
    ensures
        match r {
            Option::Some(d) => exists|tail: Seq<char>| #[trigger] parses_to(s@, d, tail),
            Option::None => !parseable(s@),
        },
{
    let n = s.unicode_len();

    // Scan the scheme: the longest prefix of scheme characters.
    let mut i: usize = 0;
    while i < n && ch_is_scheme(s.get_char(i))
        invariant
            n == s@.len(),
            i <= n,
            forall|x: int| 0 <= x < i ==> is_scheme_char(#[trigger] s@[x]),
        decreases n - i,
    {
        i = i + 1;
    }

    if i == 0 || !ch_is_alpha(s.get_char(0)) {
        proof {
            assert_by_contradiction!(!parseable(s@), {
                let (sch, h, p, tl) = choose|sch: Seq<char>, h: Seq<char>, p: Option<u16>, tl: Seq<char>|
                    uri_decomposes(s@, sch, h, p, tl);
                let rest = lemma_flatten(s@, sch, h, p, tl);
                lemma_forced_prefix(s@, sch, h, rest, i as int);
                assert(sch.len() == i);
                assert(false);
            });
        }
        return None;
    }

    if n - i < 4 {
        proof {
            assert_by_contradiction!(!parseable(s@), {
                let (sch, h, p, tl) = choose|sch: Seq<char>, h: Seq<char>, p: Option<u16>, tl: Seq<char>|
                    uri_decomposes(s@, sch, h, p, tl);
                let rest = lemma_flatten(s@, sch, h, p, tl);
                lemma_forced_prefix(s@, sch, h, rest, i as int);
                assert(false);
            });
        }
        return None;
    }

    if s.get_char(i) != ':' || s.get_char(i + 1) != '/' || s.get_char(i + 2) != '/' {
        proof {
            assert_by_contradiction!(!parseable(s@), {
                let (sch, h, p, tl) = choose|sch: Seq<char>, h: Seq<char>, p: Option<u16>, tl: Seq<char>|
                    uri_decomposes(s@, sch, h, p, tl);
                let rest = lemma_flatten(s@, sch, h, p, tl);
                lemma_forced_prefix(s@, sch, h, rest, i as int);
                assert(false);
            });
        }
        return None;
    }

    // Scan the host: the longest run of host characters after "://".
    let j = i + 3;
    let mut k = j;
    while k < n && ch_is_host(s.get_char(k))
        invariant
            n == s@.len(),
            j <= k <= n,
            forall|x: int| j <= x < k ==> is_host_char(#[trigger] s@[x]),
        decreases n - k,
    {
        k = k + 1;
    }

    if k == j {
        proof {
            assert_by_contradiction!(!parseable(s@), {
                let (sch, h, p, tl) = choose|sch: Seq<char>, h: Seq<char>, p: Option<u16>, tl: Seq<char>|
                    uri_decomposes(s@, sch, h, p, tl);
                let rest = lemma_flatten(s@, sch, h, p, tl);
                lemma_forced_prefix(s@, sch, h, rest, i as int);
                lemma_forced_host(s@, sch, h, rest, i as int, k as int);
                assert(h.len() == 0);
                assert(false);
            });
        }
        return None;
    }

    let scheme_string = String::from_str(s.substring_char(0, i));
    let host_string = String::from_str(s.substring_char(j, k));

    if k == n {
        // No port, nothing after the host.
        let d = Destination { scheme: scheme_string, host: host_string, port: None };
        proof {
            assert(s@ =~= d.scheme@ + sep() + d.host@ + Seq::<char>::empty());
            assert(parses_to(s@, d, Seq::<char>::empty()));
        }
        return Some(d);
    }

    let c = s.get_char(k);
    if ch_is_tail_start(c) {
        // No port; a path, query or fragment follows the host.
        let d = Destination { scheme: scheme_string, host: host_string, port: None };
        proof {
            let tail = s@.subrange(k as int, n as int);
            assert(s@ =~= d.scheme@ + sep() + d.host@ + tail);
            assert(parses_to(s@, d, tail));
        }
        return Some(d);
    }

    // The host scan stopped at a non-host character that does not open the
    // tail, so only a port may follow.
    if c != ':' {
        proof {
            assert_by_contradiction!(!parseable(s@), {
                let (sch, h, p, tl) = choose|sch: Seq<char>, h: Seq<char>, p: Option<u16>, tl: Seq<char>|
                    uri_decomposes(s@, sch, h, p, tl);
                let rest = lemma_flatten(s@, sch, h, p, tl);
                lemma_forced_prefix(s@, sch, h, rest, i as int);
                lemma_forced_host(s@, sch, h, rest, i as int, k as int);
                assert(rest[0] == s@[k as int]);
                match p {
                    Option::None => {
                        assert(is_tail(tl) && tl.len() > 0);
                        assert(false);
                    },
                    Option::Some(_) => {
                        assert(rest[0] == ':');
                        assert(false);
                    },
                }
            });
        }
        return None;
    }

    // Scan the port digits and accumulate their value, noting when it can
    // no longer fit a port number.
    let mut m = k + 1;
    let mut val: u32 = 0;
    let mut over: bool = false;
    while m < n && ch_is_digit(s.get_char(m))
        invariant
            n == s@.len(),
            k + 1 <= m <= n,
            k + 1 <= n,
            forall|x: int| k + 1 <= x < m ==> is_digit(#[trigger] s@[x]),
            over ==> dec_val(s@.subrange(k + 1, m as int)) > 65535,
            !over ==> val == dec_val(s@.subrange(k + 1, m as int)) && val <= 65535,
        decreases n - m,
    {
        let c2 = s.get_char(m);
        let dv = c2 as u32 - 48;
        proof {
            let prefix = s@.subrange(k + 1, m as int);
            let grown = s@.subrange(k + 1, m + 1 as int);
            assert(grown.drop_last() =~= prefix);
            assert(grown.last() == s@[m as int]);
            assert(dec_val(grown) == dec_val(prefix) * 10 + digit_val(s@[m as int]));
            assert(0 <= digit_val(s@[m as int]) <= 9);
        }
        if over {
            proof {
                assert(dec_val(s@.subrange(k + 1, m + 1 as int)) > 65535);
            }
        } else {
            let grown_val = val * 10 + dv;
            if grown_val > 65535 {
                over = true;
            } else {
                val = grown_val;
            }
        }
        m = m + 1;
    }

    if m == k + 1 {
        // A ':' with no digits after it fits no decomposition.
        proof {
            assert_by_contradiction!(!parseable(s@), {
                let (sch, h, p, tl) = choose|sch: Seq<char>, h: Seq<char>, p: Option<u16>, tl: Seq<char>|
                    uri_decomposes(s@, sch, h, p, tl);
                let rest = lemma_flatten(s@, sch, h, p, tl);
                lemma_forced_prefix(s@, sch, h, rest, i as int);
                lemma_forced_host(s@, sch, h, rest, i as int, k as int);
                match p {
                    Option::None => {
                        assert(rest[0] == s@[k as int]);
                        assert(is_tail(tl) && tl.len() > 0);
                        assert(false);
                    },
                    Option::Some(q) => {
                        let digits = choose|digits: Seq<char>|
                            {
                                &&& #[trigger] all_digits(digits)
                                &&& digits.len() > 0
                                &&& dec_val(digits) == q as int
                                &&& rest == seq![':'] + digits + tl
                            };
                        assert(s@ =~= (sch + sep() + h + seq![':']) + digits + tl);
                        assert(s@[k + 1] == digits[0]);
                        assert(is_digit(s@[k + 1]));
                        assert(s@.len() >= k + 2);
                        assert(false);
                    },
                }
            });
        }
        return None;
    }

    proof {
        // From here on, any decomposition must carry a port whose digits are
        // exactly the scanned run.
        assert(s@[k as int] == ':');
    }

    if over {
        proof {
            assert_by_contradiction!(!parseable(s@), {
                let (sch, h, p, tl) = choose|sch: Seq<char>, h: Seq<char>, p: Option<u16>, tl: Seq<char>|
                    uri_decomposes(s@, sch, h, p, tl);
                let rest = lemma_flatten(s@, sch, h, p, tl);
                lemma_forced_prefix(s@, sch, h, rest, i as int);
                lemma_forced_host(s@, sch, h, rest, i as int, k as int);
                match p {
                    Option::None => {
                        assert(rest[0] == s@[k as int]);
                        assert(is_tail(tl) && tl.len() > 0);
                        assert(false);
                    },
                    Option::Some(q) => {
                        let digits = choose|digits: Seq<char>|
                            {
                                &&& #[trigger] all_digits(digits)
                                &&& digits.len() > 0
                                &&& dec_val(digits) == q as int
                                &&& rest == seq![':'] + digits + tl
                            };
                        assert(s@ =~= (sch + sep() + h + seq![':']) + digits + tl);
                        if tl.len() > 0 {
                            assert(!is_digit(tl[0]));
                        }
                        lemma_digits_segment(
                            s@,
                            sch + sep() + h + seq![':'],
                            digits,
                            tl,
                            m as int,
                        );
                        assert(digits == s@.subrange(k + 1, m as int));
                        assert(dec_val(digits) > 65535);
                        assert(q as int <= 65535);
                        assert(false);
                    },
                }
            });
        }
        return None;
    }

    if m < n {
        let c3 = s.get_char(m);
        if !ch_is_tail_start(c3) {
            proof {
                assert_by_contradiction!(!parseable(s@), {
                    let (sch, h, p, tl) = choose|sch: Seq<char>, h: Seq<char>, p: Option<u16>, tl: Seq<char>|
                        uri_decomposes(s@, sch, h, p, tl);
                    let rest = lemma_flatten(s@, sch, h, p, tl);
                    lemma_forced_prefix(s@, sch, h, rest, i as int);
                    lemma_forced_host(s@, sch, h, rest, i as int, k as int);
                    match p {
                        Option::None => {
                            assert(rest[0] == s@[k as int]);
                            assert(is_tail(tl) && tl.len() > 0);
                            assert(false);
                        },
                        Option::Some(q) => {
                            let digits = choose|digits: Seq<char>|
                                {
                                    &&& #[trigger] all_digits(digits)
                                    &&& digits.len() > 0
                                    &&& dec_val(digits) == q as int
                                    &&& rest == seq![':'] + digits + tl
                                };
                            assert(s@ =~= (sch + sep() + h + seq![':']) + digits + tl);
                            if tl.len() > 0 {
                                assert(!is_digit(tl[0]));
                            }
                            lemma_digits_segment(
                                s@,
                                sch + sep() + h + seq![':'],
                                digits,
                                tl,
                                m as int,
                            );
                            assert(digits == s@.subrange(k + 1, m as int));
                            assert(s@.len() == m + tl.len());
                            assert(tl.len() > 0);
                            assert(tl[0] == s@[m as int]);
                            assert(is_tail(tl));
                            assert(false);
                        },
                    }
                });
            }
            return None;
        }
    }

    let d = Destination { scheme: scheme_string, host: host_string, port: Some(val as u16) };
    proof {
        let digits = s@.subrange(k + 1, m as int);
        let tail = s@.subrange(m as int, n as int);
        assert(s@ =~= d.scheme@ + sep() + d.host@ + seq![':'] + digits + tail);
        assert(all_digits(digits));
        assert(digits.len() > 0);
        assert(dec_val(digits) == (val as u16) as int);
        assert(is_tail(tail));
        assert(uri_decomposes(s@, d.scheme@, d.host@, d.port, tail));
        assert(parses_to(s@, d, tail));
    }
    Some(d)
}

} // verus!
