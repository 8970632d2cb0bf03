//! Numerals and pieces of text.

use vstd::prelude::*;

verus! {

/// The digit for a value under sixteen, in lower case.
pub open spec fn digit_char(d: int) -> char {
    if d < 10 {
        (48 + d) as char
    } else {
        (87 + d) as char
    }
}

/// The numeral of `n`, without leading zeros.
pub open spec fn numeral(n: int, radix: int) -> Seq<char>
    decreases n,
    when 0 <= n && 2 <= radix
{
    if n < radix {
        seq![digit_char(n)]
    } else {
        proof {
            assert(n / radix < n) by (nonlinear_arith)
                requires
                    n >= radix,
                    radix >= 2,
            ;
            assert(n / radix >= 0) by (nonlinear_arith)
                requires
                    n >= radix,
                    radix >= 2,
            ;
        }
        numeral(n / radix, radix).push(digit_char(n % radix))
    }
}

/// The decimal numeral of `n`.
pub open spec fn decimal(n: int) -> Seq<char> {
    numeral(n, 10)
}

/// The hexadecimal numeral of `n`, in lower case.
pub open spec fn hexadecimal(n: int) -> Seq<char> {
    numeral(n, 16)
}

/// `s` with zeros in front, up to `width` characters.
pub open spec fn zero_padded(s: Seq<char>, width: int) -> Seq<char> {
    if s.len() < width {
        Seq::new((width - s.len()) as nat, |i: int| '0') + s
    } else {
        s
    }
}

fn digit_str(d: u128) -> (s: &'static str)
    requires
        d < 16,
    ensures
        s@ == seq![digit_char(d as int)],
{
    proof {
        reveal_strlit("0");
        reveal_strlit("1");
        reveal_strlit("2");
        reveal_strlit("3");
        reveal_strlit("4");
        reveal_strlit("5");
        reveal_strlit("6");
        reveal_strlit("7");
        reveal_strlit("8");
        reveal_strlit("9");
        reveal_strlit("a");
        reveal_strlit("b");
        reveal_strlit("c");
        reveal_strlit("d");
        reveal_strlit("e");
        reveal_strlit("f");
    }
    match d {
        0 => "0",
        1 => "1",
        2 => "2",
        3 => "3",
        4 => "4",
        5 => "5",
        6 => "6",
        7 => "7",
        8 => "8",
        9 => "9",
        10 => "a",
        11 => "b",
        12 => "c",
        13 => "d",
        14 => "e",
        _ => "f",
    }
}

/// Writes the numeral of `n` behind `out`.
pub fn push_numeral(out: &mut String, n: u128, radix: u128)
    requires
        2 <= radix <= 16,
    ensures
        final(out)@ == old(out)@ + numeral(n as int, radix as int),
    decreases n,
{
    if n < radix {
        out.append(digit_str(n));
    } else {
        proof {
            assert(n / radix < n) by (nonlinear_arith)
                requires
                    n >= radix,
                    radix >= 2,
            ;
        }
        push_numeral(out, n / radix, radix);
        out.append(digit_str(n % radix));
    }
}

/// Writes `n` in decimal behind `out`.
pub fn push_decimal(out: &mut String, n: u64)
    ensures
        final(out)@ == old(out)@ + decimal(n as int),
{
    push_numeral(out, n as u128, 10)
}

/// Writes `n` in hexadecimal, padded to `width` digits, behind `out`.
pub fn push_padded_hex(out: &mut String, n: u64, width: u64)
    ensures
        final(out)@ == old(out)@ + zero_padded(hexadecimal(n as int), width as int),
{
    let mut digits: u64 = 1;
    let mut rest: u64 = n;
    while rest >= 16
        invariant
            1 <= digits <= n - rest + 1,
            hexadecimal(n as int).len() == hexadecimal(rest as int).len() + digits - 1,
        decreases rest,
    {
        rest = rest / 16;
        digits = digits + 1;
    }
    let ghost start = out@;
    let mut written: u64 = digits;
    while written < width
        invariant
            digits <= written,
            written == digits || written <= width,
            digits == hexadecimal(n as int).len(),
            out@ == start + Seq::new((written - digits) as nat, |i: int| '0'),
        decreases width - written,
    {
        out.append("0");
        written = written + 1;
        proof {
            reveal_strlit("0");
            assert(out@ =~= start + Seq::new((written - digits) as nat, |i: int| '0'));
        }
    }
    push_numeral(out, n as u128, 16);
    assert(out@ =~= start + zero_padded(hexadecimal(n as int), width as int));
}

/// The characters of `s`.
pub fn chars_of(s: &str) -> (v: Vec<char>)
    ensures
        v@ == s@,
{
    let n: usize = s.unicode_len();
    let mut v: Vec<char> = Vec::with_capacity(n);
    let mut i: usize = 0;
    while i < n
        invariant
            i <= n,
            n == s@.len(),
            v@ == s@.take(i as int),
        decreases n - i,
    {
        v.push(s.get_char(i));
        i = i + 1;
        assert(v@ =~= s@.take(i as int));
    }
    assert(s@.take(n as int) =~= s@);
    v
}

/// The characters that Unicode calls white space.
pub open spec fn is_white_space(c: char) -> bool {
    let u = c as u32;
    ||| 0x09 <= u <= 0x0d
    ||| u == 0x20
    ||| u == 0x85
    ||| u == 0xa0
    ||| u == 0x1680
    ||| 0x2000 <= u <= 0x200a
    ||| u == 0x2028
    ||| u == 0x2029
    ||| u == 0x202f
    ||| u == 0x205f
    ||| u == 0x3000
}

fn white_space(c: char) -> (b: bool)
    ensures
        b == is_white_space(c),
{
    let u: u32 = c as u32;
    (0x09 <= u && u <= 0x0d) || u == 0x20 || u == 0x85 || u == 0xa0 || u == 0x1680 || (0x2000 <= u
        && u <= 0x200a) || u == 0x2028 || u == 0x2029 || u == 0x202f || u == 0x205f || u == 0x3000
}

/// `s` without leading white space.
pub open spec fn trim_start(s: Seq<char>) -> Seq<char>
    decreases s.len(),
{
    if s.len() > 0 && is_white_space(s[0]) {
        trim_start(s.drop_first())
    } else {
        s
    }
}

/// `s` without trailing white space.
pub open spec fn trim_end(s: Seq<char>) -> Seq<char>
    decreases s.len(),
{
    if s.len() > 0 && is_white_space(s.last()) {
        trim_end(s.drop_last())
    } else {
        s
    }
}

/// `s` without leading and trailing white space.
pub open spec fn trimmed(s: Seq<char>) -> Seq<char> {
    trim_end(trim_start(s))
}

/// The part of `v[lo..hi]` that is left after trimming.
pub fn trim_range(v: &Vec<char>, lo: usize, hi: usize) -> (r: (usize, usize))
    requires
        lo <= hi <= v@.len(),
    ensures
        lo <= r.0 <= r.1 <= hi,
        v@.subrange(r.0 as int, r.1 as int) == trimmed(v@.subrange(lo as int, hi as int)),
{
    let mut a: usize = lo;
    while a < hi && white_space(v[a])
        invariant
            lo <= a <= hi <= v@.len(),
            trim_start(v@.subrange(lo as int, hi as int)) == trim_start(
                v@.subrange(a as int, hi as int),
            ),
        decreases hi - a,
    {
        assert(v@.subrange(a as int, hi as int).drop_first() =~= v@.subrange(a + 1, hi as int));
        a = a + 1;
    }
    let mut b: usize = hi;
    while a < b && white_space(v[b - 1])
        invariant
            lo <= a <= b <= hi <= v@.len(),
            trimmed(v@.subrange(lo as int, hi as int)) == trim_end(
                v@.subrange(a as int, b as int),
            ),
        decreases b - a,
    {
        assert(v@.subrange(a as int, b as int).drop_last() =~= v@.subrange(a as int, b - 1));
        b = b - 1;
    }
    (a, b)
}

/// Why a text is no unsigned 64-bit number.
#[derive(Debug, Clone, Copy, PartialEq, Eq, Structural)]
pub enum NumberError {
    Empty,
    InvalidDigit,
    Overflow,
}

impl NumberError {
    /// The error in words.
    pub open spec fn text(self) -> Seq<char> {
        match self {
            NumberError::Empty => "cannot parse integer from empty string"@,
            NumberError::InvalidDigit => "invalid digit found in string"@,
            NumberError::Overflow => "number too large to fit in target type"@,
        }
    }

    /// The error in words.
    pub fn message(&self) -> (m: &'static str)
        ensures
            m@ == self.text(),
    {
        match self {
            NumberError::Empty => "cannot parse integer from empty string",
            NumberError::InvalidDigit => "invalid digit found in string",
            NumberError::Overflow => "number too large to fit in target type",
        }
    }
}

/// Reads decimal digits behind the value `acc`, up to the first character that
/// is no digit or that takes the value above `max`.
pub open spec fn digits_value(s: Seq<char>, acc: int, max: int) -> Result<int, NumberError>
    decreases s.len(),
{
    if s.len() == 0 {
        Ok(acc)
    } else if !('0' <= s[0] <= '9') {
        Err(NumberError::InvalidDigit)
    } else {
        let v = acc * 10 + (s[0] as int - 48);
        if v > max {
            Err(NumberError::Overflow)
        } else {
            digits_value(s.drop_first(), v, max)
        }
    }
}

/// The number that `s` spells: an optional plus sign and decimal digits.
pub open spec fn number_value(s: Seq<char>, max: int) -> Result<int, NumberError> {
    if s.len() == 0 {
        Err(NumberError::Empty)
    } else if s[0] == '+' && s.len() > 1 {
        digits_value(s.drop_first(), 0, max)
    } else {
        digits_value(s, 0, max)
    }
}

/// Reads the number that `v[lo..hi]` spells.
pub fn parse_number(v: &Vec<char>, lo: usize, hi: usize, max: u64) -> (r: Result<u64, NumberError>)
    requires
        lo <= hi <= v@.len(),
    ensures
        match r {
            Ok(n) => number_value(v@.subrange(lo as int, hi as int), max as int) == Ok::<
                int,
                NumberError,
            >(n as int),
            Err(e) => number_value(v@.subrange(lo as int, hi as int), max as int) == Err::<
                int,
                NumberError,
            >(e),
        },
{
    let ghost s = v@.subrange(lo as int, hi as int);
    if lo == hi {
        return Err(NumberError::Empty);
    }
    let mut i: usize = lo;
    if v[lo] == '+' && hi - lo > 1 {
        i = lo + 1;
        assert(s.drop_first() =~= v@.subrange(i as int, hi as int));
    }
    let mut acc: u64 = 0;
    while i < hi
        invariant
            lo <= i <= hi <= v@.len(),
            s == v@.subrange(lo as int, hi as int),
            acc <= max,
            number_value(s, max as int) == digits_value(
                v@.subrange(i as int, hi as int),
                acc as int,
                max as int,
            ),
        decreases hi - i,
    {
        let c: char = v[i];
        let ghost rest = v@.subrange(i as int, hi as int);
        assert(rest.drop_first() =~= v@.subrange(i + 1, hi as int));
        if c < '0' || c > '9' {
            return Err(NumberError::InvalidDigit);
        }
        let d: u32 = c as u32 - 48;
        let value: u128 = acc as u128 * 10 + d as u128;
        if value > max as u128 {
            return Err(NumberError::Overflow);
        }
        acc = value as u64;
        i = i + 1;
    }
    Ok(acc)
}

proof fn lemma_digits_push(s: Seq<char>, c: char, acc: int, max: int)
    ensures
        digits_value(s.push(c), acc, max) == (match digits_value(s, acc, max) {
            Ok(v) => digits_value(seq![c], v, max),
            Err(e) => Err(e),
        }),
    decreases s.len(),
{
    let t = s.push(c);
    if s.len() == 0 {
        assert(t =~= seq![c]);
    } else {
        assert(t.drop_first() =~= s.drop_first().push(c));
        lemma_digits_push(s.drop_first(), c, acc * 10 + (s[0] as int - 48), max);
    }
}

/// Decimal numerals read back as the number they came from.
pub proof fn decimal_round_trip(n: int, max: int)
    requires
        0 <= n <= max,
    ensures
        number_value(decimal(n), max) == Ok::<int, NumberError>(n),
        decimal(n).len() > 0,
        forall|i: int| 0 <= i < decimal(n).len() ==> '0' <= #[trigger] decimal(n)[i] <= '9',
    decreases n,
{
    reveal_with_fuel(digits_value, 2);
    if n >= 10 {
        decimal_round_trip(n / 10, max);
        let p = decimal(n / 10);
        let c = digit_char(n % 10);
        lemma_digits_push(p, c, 0, max);
        assert(seq![c].drop_first() =~= Seq::<char>::empty());
        assert(n / 10 * 10 + n % 10 == n);
        assert(p[0] != '+');
        assert(decimal(n)[0] == p[0]);
    } else {
        let c = digit_char(n);
        assert(seq![c].drop_first() =~= Seq::<char>::empty());
    }
}

} // verus!
