//! How numbers and addresses are written, and how numbers are read.

use vstd::arithmetic::div_mod::{lemma_fundamental_div_mod, lemma_mod_bound};
use vstd::prelude::*;

use crate::base::net::{
    colon_joined, compressed_text, is_longest_zero_run, zero_run, IpAddr, Ipv4Addr, Ipv6Addr,
};
use crate::base::text::{
    decimal, digit_char, digits_value, hexadecimal, is_white_space, number_value, numeral,
    trim_end, trim_start, trimmed, zero_padded, NumberError,
};
use crate::bgp::session::BgpError;
use crate::health::probe::ProbeError;
use crate::types::error::LbError;

verus! {

/// What a digit counts: `0` to `9`, then `a` to `f`.
pub open spec fn digit_value(c: char) -> int {
    if '0' <= c <= '9' {
        c as int - '0' as int
    } else if 'a' <= c <= 'f' {
        c as int - 'a' as int + 10
    } else {
        -1
    }
}

/// The number that digits spell: each counts as many times more as the radix says
/// than the one behind it.
pub open spec fn spelled(s: Seq<char>, radix: int) -> int
    decreases s.len(),
{
    if s.len() == 0 {
        0
    } else {
        spelled(s.drop_last(), radix) * radix + digit_value(s.last())
    }
}

/// A numeral spells its number, in digits under the radix, and starts with a zero
/// only if it is one.
pub proof fn numerals_spell_their_number(n: int, radix: int)
    requires
        0 <= n,
        2 <= radix <= 16,
    ensures
        spelled(numeral(n, radix), radix) == n,
        numeral(n, radix).len() > 0,
        forall|i: int|
            0 <= i < numeral(n, radix).len() ==> 0 <= digit_value(#[trigger] numeral(n, radix)[i])
                < radix,
        numeral(n, radix)[0] == '0' ==> n == 0,
    decreases n,
{
    let s = numeral(n, radix);
    if n < radix {
        assert(s.drop_last() =~= Seq::<char>::empty());
        assert(s.last() == digit_char(n));
        assert(spelled(Seq::<char>::empty(), radix) * radix == 0) by (nonlinear_arith)
            requires
                spelled(Seq::<char>::empty(), radix) == 0,
        ;
    } else {
        lemma_fundamental_div_mod(n, radix);
        lemma_mod_bound(n, radix);
        assert(n / radix < n && n / radix > 0) by (nonlinear_arith)
            requires
                n >= radix,
                radix >= 2,
        ;
        numerals_spell_their_number(n / radix, radix);
        let p = numeral(n / radix, radix);
        assert(s.drop_last() =~= p);
        assert(s.last() == digit_char(n % radix));
        assert((n / radix) * radix + n % radix == n) by (nonlinear_arith)
            requires
                n == radix * (n / radix) + n % radix,
        ;
        assert(s[0] == p[0]);
    }
}

/// Decimal numerals are numerals in base ten, hexadecimal ones in base sixteen.
pub proof fn bases_are_ten_and_sixteen(n: int)
    requires
        0 <= n,
    ensures
        spelled(decimal(n), 10) == n,
        spelled(hexadecimal(n), 16) == n,
        forall|i: int|
            0 <= i < decimal(n).len() ==> 0 <= digit_value(#[trigger] decimal(n)[i]) < 10,
        decimal(n).len() > 0 && hexadecimal(n).len() > 0,
        decimal(n)[0] == '0' ==> n == 0,
        hexadecimal(n)[0] == '0' ==> n == 0,
{
    numerals_spell_their_number(n, 10);
    numerals_spell_their_number(n, 16);
}

/// Padding puts zeros in front, up to the width and no further.
pub proof fn padding_puts_zeros_in_front(s: Seq<char>, width: int, i: int)
    ensures
        s.len() >= width ==> zero_padded(s, width) == s,
        s.len() < width ==> {
            let p = zero_padded(s, width);
            &&& p.len() == width
            &&& p.skip(width - s.len()) == s
            &&& 0 <= i < width - s.len() ==> p[i] == '0'
        },
{
    if s.len() < width {
        assert(zero_padded(s, width).skip(width - s.len()) =~= s);
    }
}

/// Digits are read as the number they spell; a number above the limit is refused.
pub proof fn digits_are_read_as_spelled(s: Seq<char>, max: int)
    requires
        s.len() > 0,
        forall|i: int| 0 <= i < s.len() ==> '0' <= #[trigger] s[i] <= '9',
        max >= 0,
    ensures
        number_value(s, max) == (if spelled(s, 10) <= max {
            Ok::<int, NumberError>(spelled(s, 10))
        } else {
            Err(NumberError::Overflow)
        }),
        number_value(seq!['+'] + s, max) == number_value(s, max),
{
    lemma_digits_read(s, max);
    let t = seq!['+'] + s;
    assert(t.drop_first() =~= s);
    assert(s[0] != '+');
}

proof fn lemma_digits_read(s: Seq<char>, max: int)
    requires
        forall|i: int| 0 <= i < s.len() ==> '0' <= #[trigger] s[i] <= '9',
        max >= 0,
    ensures
        digits_value(s, 0, max) == (if spelled(s, 10) <= max {
            Ok::<int, NumberError>(spelled(s, 10))
        } else {
            Err(NumberError::Overflow)
        }),
        spelled(s, 10) >= 0,
    decreases s.len(),
{
    if s.len() > 0 {
        let p = s.drop_last();
        let c = s.last();
        assert forall|i: int| 0 <= i < p.len() implies '0' <= #[trigger] p[i] <= '9' by {
            assert(p[i] == s[i]);
        }
        lemma_digits_read(p, max);
        assert(s =~= p.push(c));
        lemma_read_on(p, c, 0, max);
        reveal_with_fuel(digits_value, 2);
        assert(seq![c].drop_first() =~= Seq::<char>::empty());
        assert('0' <= s[s.len() - 1] <= '9');
    }
}

proof fn lemma_read_on(s: Seq<char>, c: char, acc: int, max: int)
    ensures
        digits_value(s.push(c), acc, max) == (match digits_value(s, acc, max) {
            Ok(v) => digits_value(seq![c], v, max),
            Err(e) => Err(e),
        }),
    decreases s.len(),
{
    let t = s.push(c);
    if s.len() == 0 {
        assert(t =~= seq![c]);
    } else {
        assert(t.drop_first() =~= s.drop_first().push(c));
        lemma_read_on(s.drop_first(), c, acc * 10 + (s[0] as int - 48), max);
    }
}

/// What is empty or holds anything but digits behind an optional plus sign is no
/// number.
pub proof fn other_texts_are_no_numbers(s: Seq<char>, k: int, max: int)
    ensures
        number_value(Seq::<char>::empty(), max) is Err,
        0 <= k < s.len() && !('0' <= s[k] <= '9') && !(k == 0 && s[0] == '+' && s.len() > 1)
            ==> number_value(s, max) is Err,
{
    if 0 <= k < s.len() && !('0' <= s[k] <= '9') && !(k == 0 && s[0] == '+' && s.len() > 1) {
        if s[0] == '+' && s.len() > 1 {
            assert(s.drop_first()[k - 1] == s[k]);
            lemma_no_digit(s.drop_first(), k - 1, 0, max);
        } else {
            lemma_no_digit(s, k, 0, max);
        }
    }
}

proof fn lemma_no_digit(s: Seq<char>, k: int, acc: int, max: int)
    requires
        0 <= k < s.len(),
        !('0' <= s[k] <= '9'),
    ensures
        digits_value(s, acc, max) is Err,
    decreases s.len(),
{
    if k > 0 && '0' <= s[0] <= '9' {
        assert(s.drop_first()[k - 1] == s[k]);
        lemma_no_digit(s.drop_first(), k - 1, acc * 10 + (s[0] as int - 48), max);
    }
}

/// Trimming takes white space off both ends, all of it and nothing else.
pub proof fn trimming_takes_white_space_off(s: Seq<char>)
    ensures
        ({
            let t = trimmed(s);
            &&& t.len() > 0 ==> !is_white_space(t[0]) && !is_white_space(t.last())
            &&& exists|i: int| #[trigger] cut_out(s, t, i)
        }),
{
    let a = lemma_trim_start(s);
    let u = trim_start(s);
    let b = lemma_trim_end(u);
    let t = trim_end(u);
    assert(t =~= s.subrange(a, a + t.len()));
    assert forall|k: int| a + t.len() <= k < s.len() implies is_white_space(#[trigger] s[k]) by {
        assert(u[k - a] == s[k]);
    }
    assert(t.len() > 0 ==> t[0] == u[0]);
    assert(cut_out(s, t, a));
}

/// Whether `t` is the part of `s` from `i` on, with white space alone around it.
pub open spec fn cut_out(s: Seq<char>, t: Seq<char>, i: int) -> bool {
    &&& 0 <= i
    &&& i + t.len() <= s.len()
    &&& t == s.subrange(i, i + t.len())
    &&& forall|k: int| 0 <= k < i ==> is_white_space(#[trigger] s[k])
    &&& forall|k: int| i + t.len() <= k < s.len() ==> is_white_space(#[trigger] s[k])
}

proof fn lemma_trim_start(s: Seq<char>) -> (a: int)
    ensures
        0 <= a <= s.len(),
        trim_start(s) == s.skip(a),
        forall|k: int| 0 <= k < a ==> is_white_space(#[trigger] s[k]),
        a < s.len() ==> !is_white_space(s[a]),
    decreases s.len(),
{
    if s.len() > 0 && is_white_space(s[0]) {
        let r = s.drop_first();
        let a = lemma_trim_start(r);
        assert(r.skip(a) =~= s.skip(a + 1));
        assert forall|k: int| 0 <= k < a + 1 implies is_white_space(#[trigger] s[k]) by {
            if k > 0 {
                assert(r[k - 1] == s[k]);
            }
        }
        if a < r.len() {
            assert(r[a] == s[a + 1]);
        }
        a + 1
    } else {
        assert(s.skip(0) =~= s);
        0
    }
}

proof fn lemma_trim_end(s: Seq<char>) -> (b: int)
    ensures
        0 <= b <= s.len(),
        trim_end(s) == s.take(b),
        forall|k: int| b <= k < s.len() ==> is_white_space(#[trigger] s[k]),
        b > 0 ==> !is_white_space(s[b - 1]),
    decreases s.len(),
{
    if s.len() > 0 && is_white_space(s.last()) {
        let r = s.drop_last();
        let b = lemma_trim_end(r);
        assert(r.take(b) =~= s.take(b));
        assert forall|k: int| b <= k < s.len() implies is_white_space(#[trigger] s[k]) by {
            if k < r.len() {
                assert(r[k] == s[k]);
            }
        }
        if b > 0 {
            assert(r[b - 1] == s[b - 1]);
        }
        b
    } else {
        assert(s.take(s.len() as int) =~= s);
        s.len() as int
    }
}

/// Blanks, tabs and line ends are white space; letters, digits and ASCII punctuation are
/// not.
pub proof fn blanks_are_white_space(c: char)
    ensures
        c == ' ' || c == '\t' || c == '\n' || c == '\r' ==> is_white_space(c),
        '!' <= c <= '~' ==> !is_white_space(c),
{
}

/// An IPv4 address is written as its four octets in decimal, with dots in between.
pub proof fn ipv4_is_written_with_dots(x: Ipv4Addr, y: Ipv4Addr)
    ensures
        x.text() == decimal(x.a as int) + seq!['.'] + decimal(x.b as int) + seq!['.'] + decimal(
            x.c as int,
        ) + seq!['.'] + decimal(x.d as int),
        x.octet_seq() == seq![x.a, x.b, x.c, x.d],
        IpAddr::V4(x).text() == x.text(),
        x.number() < y.number() <==> (x.a < y.a || (x.a == y.a && (x.b < y.b || (x.b == y.b && (x.c
            < y.c || (x.c == y.c && x.d < y.d)))))),
{
    reveal_strlit(".");
    assert("."@ =~= seq!['.']);
}

/// The octets of an IPv6 address are those of its segments, the high one first.
pub proof fn ipv6_octets_are_those_of_its_segments(x: Ipv6Addr, j: int)
    requires
        0 <= j < 8,
    ensures
        x.octet_seq().len() == 16,
        x.octet_seq()[2 * j] * 256 + x.octet_seq()[2 * j + 1] == x.segment_seq()[j],
        x.segment_seq() == seq![x.s0, x.s1, x.s2, x.s3, x.s4, x.s5, x.s6, x.s7],
{
    assert((2 * j) / 2 == j && (2 * j + 1) / 2 == j);
}

/// Segments are written in hexadecimal, with colons in between.
pub proof fn segments_are_written_with_colons(s: Seq<u16>, x: u16)
    ensures
        colon_joined(Seq::<u16>::empty()) == Seq::<char>::empty(),
        s.len() == 0 ==> colon_joined(s.push(x)) == hexadecimal(x as int),
        s.len() > 0 ==> colon_joined(s.push(x)) == colon_joined(s) + seq![':'] + hexadecimal(
            x as int,
        ),
{
    reveal_strlit(":");
    assert(":"@ =~= seq![':']);
    assert(s.push(x).drop_last() =~= s);
}

proof fn lemma_run_length(s: Seq<u16>, i: int, j: int)
    requires
        0 <= i <= j <= s.len(),
        forall|k: int| i <= k < j ==> #[trigger] s[k] == 0,
        j < s.len() ==> s[j] != 0,
    ensures
        zero_run(s.skip(i)) == j - i,
    decreases j - i,
{
    if i < j {
        assert(s[i] == 0);
        assert(s.skip(i).drop_first() =~= s.skip(i + 1));
        lemma_run_length(s, i + 1, j);
    }
}

proof fn lemma_run_end(s: Seq<u16>, i: int) -> (j: int)
    requires
        0 <= i <= s.len(),
    ensures
        i <= j <= s.len(),
        forall|k: int| i <= k < j ==> #[trigger] s[k] == 0,
        j < s.len() ==> s[j] != 0,
    decreases s.len() - i,
{
    if i < s.len() && s[i] == 0 {
        lemma_run_end(s, i + 1)
    } else {
        i
    }
}

/// Two colons stand for the longest run of two or more zero segments, the first of
/// them if several are equally long.
pub proof fn longest_run_of_zeros_is_left_out(s: Seq<u16>, i: int, j: int)
    requires
        0 <= i,
        i + 2 <= j <= s.len(),
        forall|k: int| i <= k < j ==> #[trigger] s[k] == 0,
        j < s.len() ==> s[j] != 0,
        forall|x: int, y: int|
            0 <= x < y <= s.len() && (forall|k: int| x <= k < y ==> #[trigger] s[k] == 0)
                ==> #[trigger] span(x, y) <= j - i,
        forall|x: int, y: int|
            0 <= x < i && x < y <= s.len() && (forall|k: int| x <= k < y ==> #[trigger] s[k] == 0)
                ==> #[trigger] span(x, y) < j - i,
    ensures
        compressed_text(s) == colon_joined(s.take(i)) + seq![':', ':'] + colon_joined(s.skip(j)),
{
    reveal_strlit("::");
    assert("::"@ =~= seq![':', ':']);
    lemma_run_length(s, i, j);
    assert forall|x: int| 0 <= x <= s.len() implies zero_run(#[trigger] s.skip(x)) <= zero_run(
        s.skip(i),
    ) && (x < i ==> zero_run(s.skip(x)) < zero_run(s.skip(i))) by {
        let y = lemma_run_end(s, x);
        lemma_run_length(s, x, y);
        assert(span(x, y) == y - x);
    }
    assert(is_longest_zero_run(s, i));
    let start = choose|start: int| is_longest_zero_run(s, start);
    assert(zero_run(s.skip(start)) <= zero_run(s.skip(i)));
    assert(zero_run(s.skip(i)) <= zero_run(s.skip(start)));
    assert(start == i);
}

/// How many segments lie from `x` up to `y`.
pub open spec fn span(x: int, y: int) -> int {
    y - x
}

/// An address without two zero segments in a row is written with all of its
/// segments.
pub proof fn lone_zeros_are_written(s: Seq<u16>)
    requires
        forall|k: int| 0 <= k < s.len() - 1 && #[trigger] s[k] == 0 ==> s[k + 1] != 0,
    ensures
        compressed_text(s) == colon_joined(s),
{
    let start = choose|start: int| is_longest_zero_run(s, start);
    if 0 <= start <= s.len() {
        let y = lemma_run_end(s, start);
        lemma_run_length(s, start, y);
        if y > start + 1 {
            assert(s[start] == 0);
            assert(s[start + 1] == 0);
        }
    } else {
        lemma_some_run_is_longest(s, s.len() as int);
    }
}

proof fn lemma_some_run_is_longest(s: Seq<u16>, n: int) -> (best: int)
    requires
        0 <= n <= s.len(),
    ensures
        0 <= best <= n,
        forall|i: int| 0 <= i <= n ==> zero_run(#[trigger] s.skip(i)) <= zero_run(s.skip(best)),
        forall|i: int| 0 <= i < best ==> zero_run(#[trigger] s.skip(i)) < zero_run(s.skip(best)),
        n == s.len() ==> is_longest_zero_run(s, best),
    decreases n,
{
    if n == 0 {
        0
    } else {
        let b = lemma_some_run_is_longest(s, n - 1);
        if zero_run(s.skip(n)) > zero_run(s.skip(b)) {
            n
        } else {
            b
        }
    }
}

/// An address that maps an IPv4 address is written with it, any other in its
/// segments.
pub proof fn mapped_addresses_show_their_ipv4(x: Ipv6Addr)
    ensures
        x.s0 == 0 && x.s1 == 0 && x.s2 == 0 && x.s3 == 0 && x.s4 == 0 && x.s5 == 0xffff
            ==> exists|v: Ipv4Addr|
            v.a * 256 + v.b == x.s6 && v.c * 256 + v.d == x.s7 && x.text() == seq![
                ':', ':', 'f', 'f', 'f', 'f', ':',
            ] + #[trigger] v.text(),
        !(x.s0 == 0 && x.s1 == 0 && x.s2 == 0 && x.s3 == 0 && x.s4 == 0 && x.s5 == 0xffff)
            ==> x.text() == compressed_text(x.segment_seq()),
        IpAddr::V6(x).text() == x.text(),
{
    reveal_strlit("::ffff:");
    assert("::ffff:"@ =~= seq![':', ':', 'f', 'f', 'f', 'f', ':']);
    if x.s0 == 0 && x.s1 == 0 && x.s2 == 0 && x.s3 == 0 && x.s4 == 0 && x.s5 == 0xffff {
        let v = x.mapped_ipv4()->0;
        assert(v.a * 256 + v.b == x.s6 && v.c * 256 + v.d == x.s7);
        assert(x.text() == seq![':', ':', 'f', 'f', 'f', 'f', ':'] + v.text());
    }
}

/// An error in words says what kind of error it is, and then its particulars.
pub proof fn errors_say_their_kind(s: String)
    ensures
        LbError::Config(s).text() == "configuration error"@ + ": "@ + s@,
        LbError::Validation(s).text() == "validation error"@ + ": "@ + s@,
        LbError::Io(s).text() == "I/O error"@ + ": "@ + s@,
        LbError::NoHealthyBackends(s).text() == "no healthy backends for pool "@ + s@,
        LbError::VipNotFound(s).text() == "VIP not found"@ + ": "@ + s@,
        LbError::PoolNotFound(s).text() == "pool not found"@ + ": "@ + s@,
        BgpError::Io(s).text() == "I/O error"@ + ": "@ + s@,
        BgpError::Session(s).text() == "BGP session error"@ + ": "@ + s@,
        BgpError::Timeout.text() == "connection timeout"@,
        ProbeError::Timeout.text() == "probe timed out"@,
        ProbeError::ConnectionFailed(s).text() == "connection failed"@ + ": "@ + s@,
        ProbeError::UnexpectedResponse(s).text() == "unexpected response"@ + ": "@ + s@,
        NumberError::Empty.text() == "cannot parse integer from empty string"@,
        NumberError::InvalidDigit.text() == "invalid digit found in string"@,
        NumberError::Overflow.text() == "number too large to fit in target type"@,
{
    reveal_strlit(": ");
    reveal_strlit("configuration error");
    reveal_strlit("configuration error: ");
    reveal_strlit("validation error");
    reveal_strlit("validation error: ");
    reveal_strlit("I/O error");
    reveal_strlit("I/O error: ");
    reveal_strlit("VIP not found");
    reveal_strlit("VIP not found: ");
    reveal_strlit("pool not found");
    reveal_strlit("pool not found: ");
    reveal_strlit("BGP session error");
    reveal_strlit("BGP session error: ");
    reveal_strlit("connection failed");
    reveal_strlit("connection failed: ");
    reveal_strlit("unexpected response");
    reveal_strlit("unexpected response: ");
    assert("configuration error: "@ =~= "configuration error"@ + ": "@);
    assert("validation error: "@ =~= "validation error"@ + ": "@);
    assert("I/O error: "@ =~= "I/O error"@ + ": "@);
    assert("VIP not found: "@ =~= "VIP not found"@ + ": "@);
    assert("pool not found: "@ =~= "pool not found"@ + ": "@);
    assert("BGP session error: "@ =~= "BGP session error"@ + ": "@);
    assert("connection failed: "@ =~= "connection failed"@ + ": "@);
    assert("unexpected response: "@ =~= "unexpected response"@ + ": "@);
}

} // verus!
