//! The arguments of the trace client.

use vstd::prelude::*;

use crate::base::text::{chars_of, number_value, parse_number};
use crate::types::vip::Protocol;

verus! {

/// Where `c` is first, or the length if it does not occur.
pub open spec fn first_at(s: Seq<char>, c: char) -> int
    decreases s.len(),
{
    if s.len() == 0 || s[0] == c {
        0
    } else {
        1 + first_at(s.drop_first(), c)
    }
}

/// Where `c` is last, or -1 if it does not occur.
pub open spec fn last_at(s: Seq<char>, c: char) -> int
    decreases s.len(),
{
    if s.len() == 0 {
        -1
    } else if s.last() == c {
        s.len() - 1
    } else {
        last_at(s.drop_last(), c)
    }
}

/// The host text and the port text of an endpoint: `[host]:port`, or
/// `host:port` split at the last colon.
pub open spec fn endpoint_parts(s: Seq<char>) -> Option<(Seq<char>, Seq<char>)> {
    if s.len() > 0 && s[0] == '[' {
        let rest = s.drop_first();
        let end = first_at(rest, ']');
        if end + 1 < rest.len() && rest[end + 1] == ':' {
            Some((rest.take(end), rest.skip(end + 2)))
        } else {
            None
        }
    } else {
        let colon = last_at(s, ':');
        if colon >= 0 {
            Some((s.take(colon), s.skip(colon + 1)))
        } else {
            None
        }
    }
}

/// The host text and the port number of an endpoint.
pub open spec fn endpoint(s: Seq<char>) -> Option<(Seq<char>, int)> {
    match endpoint_parts(s) {
        Some((host, port)) => match number_value(port, 65535) {
            Ok(n) => Some((host, n)),
            Err(_) => None,
        },
        None => None,
    }
}

proof fn lemma_first_at(s: Seq<char>, c: char, n: int)
    requires
        0 <= n <= s.len(),
        forall|i: int| 0 <= i < n ==> #[trigger] s[i] != c,
        n < s.len() ==> s[n] == c,
    ensures
        first_at(s, c) == n,
    decreases s.len(),
{
    if n > 0 {
        let t = s.drop_first();
        assert(s[0] != c);
        assert forall|i: int| 0 <= i < n - 1 implies #[trigger] t[i] != c by {
            assert(s[i + 1] != c);
        }
        lemma_first_at(t, c, n - 1);
    }
}

/// Splits `"IP:PORT"` into the IP text and the port. Accepts IPv6 literals in
/// the standard bracketed form (`[::1]:443`).
pub fn split_addr(s: &str) -> (r: Option<(String, u16)>)
    ensures
        match r {
            Some((host, port)) => endpoint(s@) == Some((host@, port as int)),
            None => endpoint(s@) is None,
        },
{
    let v: Vec<char> = chars_of(s);
    let n: usize = v.len();
    let (from, to, port_from): (usize, usize, usize) = if n > 0 && v[0] == '[' {
        let ghost rest = s@.drop_first();
        let mut i: usize = 1;
        while i < n && v[i] != ']'
            invariant
                1 <= i <= n,
                n == v@.len(),
                forall|j: int| 1 <= j < i ==> #[trigger] v@[j] != ']',
            decreases n - i,
        {
            i = i + 1;
        }
        proof {
            assert forall|j: int| 0 <= j < i - 1 implies #[trigger] rest[j] != ']' by {
                assert(v@[j + 1] != ']');
            }
            lemma_first_at(rest, ']', i - 1);
        }
        if n - i < 2 || v[i + 1] != ':' {
            return None;
        }
        assert(rest.take(i - 1) =~= s@.subrange(1, i as int));
        assert(rest.skip(i + 1) =~= s@.subrange(i + 2, n as int));
        (1, i, i + 2)
    } else {
        let mut i: usize = n;
        assert(s@.take(n as int) =~= s@);
        while i > 0 && v[i - 1] != ':'
            invariant
                i <= n,
                n == v@.len(),
                v@ == s@,
                last_at(s@, ':') == last_at(s@.take(i as int), ':'),
            decreases i,
        {
            assert(s@.take(i as int).drop_last() =~= s@.take(i - 1));
            i = i - 1;
        }
        if i == 0 {
            return None;
        }
        assert(s@.take(i as int).last() == ':');
        assert(s@.take(i - 1) =~= s@.subrange(0, i - 1));
        assert(s@.skip(i as int) =~= s@.subrange(i as int, n as int));
        (0, i - 1, i)
    };
    match parse_number(&v, port_from, n, 65535) {
        Ok(port) => {
            proof {
                lemma_number_bound(s@.subrange(port_from as int, n as int), 65535);
            }
            let host: String = s.substring_char(from, to).to_string();
            Some((host, port as u16))
        },
        Err(_) => None,
    }
}

proof fn lemma_number_bound(s: Seq<char>, max: int)
    requires
        max >= 0,
    ensures
        number_value(s, max) matches Ok(n) ==> n <= max,
{
    lemma_digits_bound(s, 0, max);
    if s.len() > 0 {
        lemma_digits_bound(s.drop_first(), 0, max);
    }
}

proof fn lemma_digits_bound(s: Seq<char>, acc: int, max: int)
    requires
        acc <= max,
    ensures
        crate::base::text::digits_value(s, acc, max) matches Ok(n) ==> n <= max,
    decreases s.len(),
{
    reveal_with_fuel(crate::base::text::digits_value, 2);
    if s.len() > 0 {
        let d = s[0] as int - '0' as int;
        if acc * 10 + d <= max {
            lemma_digits_bound(s.drop_first(), acc * 10 + d, max);
        }
    }
}

/// The lower case of an ASCII letter.
pub open spec fn ascii_lower(c: char) -> char {
    if 'A' <= c && c <= 'Z' {
        ((c as u32 + 32) as u32) as char
    } else {
        c
    }
}

/// Whether two texts are the same but for the case of ASCII letters.
pub open spec fn same_ignoring_case(s: Seq<char>, t: Seq<char>) -> bool {
    s.len() == t.len() && forall|i: int|
        0 <= i < s.len() ==> ascii_lower(#[trigger] s[i]) == ascii_lower(t[i])
}

fn letter_is(c: char, lower: char, upper: char) -> (b: bool)
    requires
        'a' <= lower && lower <= 'z',
        upper as u32 + 32 == lower as u32,
    ensures
        b == (ascii_lower(c) == lower),
{
    c == lower || c == upper
}

/// The L4 protocol that an argument names (`tcp` or `udp`, in any case).
pub fn parse_protocol(s: &str) -> (r: Option<Protocol>)
    ensures
        match r {
            Some(Protocol::Tcp) => same_ignoring_case(s@, "tcp"@),
            Some(Protocol::Udp) => same_ignoring_case(s@, "udp"@),
            None => !same_ignoring_case(s@, "tcp"@) && !same_ignoring_case(s@, "udp"@),
        },
{
    let v: Vec<char> = chars_of(s);
    proof {
        reveal_strlit("tcp");
        reveal_strlit("udp");
        assert(v@.len() == 3 ==> v@[0] == s@[0] && v@[1] == s@[1] && v@[2] == s@[2]);
    }
    if v.len() != 3 {
        None
    } else if letter_is(v[0], 't', 'T') && letter_is(v[1], 'c', 'C') && letter_is(v[2], 'p', 'P') {
        Some(Protocol::Tcp)
    } else if letter_is(v[0], 'u', 'U') && letter_is(v[1], 'd', 'D') && letter_is(v[2], 'p', 'P') {
        Some(Protocol::Udp)
    } else {
        None
    }
}

/// A text without the slashes at its end.
pub open spec fn without_slashes(s: Seq<char>) -> Seq<char>
    decreases s.len(),
{
    if s.len() > 0 && s.last() == '/' {
        without_slashes(s.drop_last())
    } else {
        s
    }
}

/// The URL to post a trace request to.
pub fn trace_url(node: &str) -> (url: String)
    ensures
        url@ == without_slashes(node@) + "/v1/trace"@,
{
    let v: Vec<char> = chars_of(node);
    let mut n: usize = v.len();
    assert(node@.take(n as int) =~= node@);
    while n > 0 && v[n - 1] == '/'
        invariant
            n <= v@.len(),
            v@ == node@,
            without_slashes(node@) == without_slashes(node@.take(n as int)),
        decreases n,
    {
        assert(node@.take(n as int).drop_last() =~= node@.take(n - 1));
        n = n - 1;
    }
    let mut url: String = node.substring_char(0, n).to_string();
    assert(node@.subrange(0, n as int) =~= node@.take(n as int));
    url.append("/v1/trace");
    url
}

} // verus!
