//! Internet addresses and their canonical text.

use vstd::prelude::*;

use crate::base::checksum::{hi8, lo8};
use crate::base::text::{decimal, hexadecimal, push_decimal, push_numeral};

verus! {

/// An IPv4 address, most significant octet first.
#[derive(Clone, Copy, Debug, PartialEq, Eq, Hash, Structural)]
pub struct Ipv4Addr {
    pub a: u8,
    pub b: u8,
    pub c: u8,
    pub d: u8,
}

/// An IPv6 address as eight segments, most significant first.
#[derive(Clone, Copy, Debug, PartialEq, Eq, Hash, Structural)]
pub struct Ipv6Addr {
    pub s0: u16,
    pub s1: u16,
    pub s2: u16,
    pub s3: u16,
    pub s4: u16,
    pub s5: u16,
    pub s6: u16,
    pub s7: u16,
}

/// An address of either family.
#[derive(Clone, Copy, Debug, PartialEq, Eq, Hash, Structural)]
pub enum IpAddr {
    V4(Ipv4Addr),
    V6(Ipv6Addr),
}

impl Ipv4Addr {
    pub fn new(a: u8, b: u8, c: u8, d: u8) -> (r: Ipv4Addr)
        ensures
            r == (Ipv4Addr { a, b, c, d }),
    {
        Ipv4Addr { a, b, c, d }
    }

    /// The octets in network order.
    pub open spec fn octet_seq(self) -> Seq<u8> {
        seq![self.a, self.b, self.c, self.d]
    }

    /// The octets in network order.
    pub fn octets(&self) -> (r: [u8; 4])
        ensures
            r@ == self.octet_seq(),
    {
        [self.a, self.b, self.c, self.d]
    }

    /// The address as a number, by which addresses are ordered.
    pub open spec fn number(self) -> int {
        self.a * 0x100_0000 + self.b * 0x1_0000 + self.c * 0x100 + self.d
    }

    /// The address as a number, by which addresses are ordered.
    pub fn to_number(&self) -> (n: u32)
        ensures
            n == self.number(),
    {
        self.a as u32 * 0x100_0000 + self.b as u32 * 0x1_0000 + self.c as u32 * 0x100
            + self.d as u32
    }

    /// Dotted decimal.
    pub open spec fn text(self) -> Seq<char> {
        decimal(self.a as int) + "."@ + decimal(self.b as int) + "."@ + decimal(self.c as int)
            + "."@ + decimal(self.d as int)
    }

    /// Writes the address in dotted decimal behind `out`.
    pub fn push_text(&self, out: &mut String)
        ensures
            final(out)@ == old(out)@ + self.text(),
    {
        push_decimal(out, self.a as u64);
        out.append(".");
        push_decimal(out, self.b as u64);
        out.append(".");
        push_decimal(out, self.c as u64);
        out.append(".");
        push_decimal(out, self.d as u64);
        assert(out@ =~= old(out)@ + self.text());
    }
}

/// Addresses with the same number are the same.
pub proof fn lemma_ipv4_number_injective(x: Ipv4Addr, y: Ipv4Addr)
    ensures
        x.number() == y.number() ==> x == y,
{
    if x.number() == y.number() {
        let xr = x.b * 0x1_0000 + x.c * 0x100 + x.d;
        let yr = y.b * 0x1_0000 + y.c * 0x100 + y.d;
        assert(x.a == y.a && xr == yr);
        let xs = x.c * 0x100 + x.d;
        let ys = y.c * 0x100 + y.d;
        assert(x.b == y.b && xs == ys);
    }
}

/// The length of the run of zeros at the start of `s`.
pub open spec fn zero_run(s: Seq<u16>) -> nat
    decreases s.len(),
{
    if s.len() == 0 || s[0] != 0 {
        0
    } else {
        1 + zero_run(s.drop_first())
    }
}

/// Whether the segments from `start` on begin with the first of the longest
/// runs of zeros in `s`.
pub open spec fn is_longest_zero_run(s: Seq<u16>, start: int) -> bool {
    &&& 0 <= start <= s.len()
    &&& forall|i: int|
        0 <= i <= s.len() ==> zero_run(#[trigger] s.skip(i)) <= zero_run(s.skip(start))
    &&& forall|i: int| 0 <= i < start ==> zero_run(#[trigger] s.skip(i)) < zero_run(s.skip(start))
}

/// Segments in hexadecimal with colons in between.
pub open spec fn colon_joined(s: Seq<u16>) -> Seq<char>
    decreases s.len(),
{
    if s.len() == 0 {
        Seq::empty()
    } else if s.len() == 1 {
        hexadecimal(s[0] as int)
    } else {
        colon_joined(s.drop_last()) + ":"@ + hexadecimal(s.last() as int)
    }
}

/// The text of an address that does not map an IPv4 address: the first of the
/// longest runs of two or more zero segments is written as `::`.
pub open spec fn compressed_text(s: Seq<u16>) -> Seq<char> {
    let start = choose|start: int| is_longest_zero_run(s, start);
    let run = zero_run(s.skip(start)) as int;
    if run > 1 {
        colon_joined(s.take(start)) + "::"@ + colon_joined(s.skip(start + run))
    } else {
        colon_joined(s)
    }
}

proof fn lemma_zero_run_step(s: Seq<u16>, i: int)
    requires
        0 <= i <= s.len(),
    ensures
        zero_run(s.skip(i)) == (if i < s.len() && s[i] == 0 {
            1 + zero_run(s.skip(i + 1))
        } else {
            0
        }),
        zero_run(s.skip(i)) <= s.len() - i,
    decreases s.len() - i,
{
    if i < s.len() && s[i] == 0 {
        assert(s.skip(i).drop_first() =~= s.skip(i + 1));
        lemma_zero_run_step(s, i + 1);
    }
}

/// The first longest run is unique.
proof fn lemma_longest_run_unique(s: Seq<u16>, x: int, y: int)
    requires
        is_longest_zero_run(s, x),
        is_longest_zero_run(s, y),
    ensures
        x == y,
{
    let rx = zero_run(s.skip(x));
    let ry = zero_run(s.skip(y));
    assert(rx <= ry && ry <= rx);
}

fn zero_run_len(s: &[u16], from: usize) -> (n: usize)
    requires
        from <= s@.len(),
    ensures
        n == zero_run(s@.skip(from as int)),
        from + n <= s@.len(),
    decreases s@.len() - from,
{
    proof {
        lemma_zero_run_step(s@, from as int);
    }
    if from < s.len() && s[from] == 0 {
        1 + zero_run_len(s, from + 1)
    } else {
        0
    }
}

fn push_colon_joined(out: &mut String, s: &[u16], from: usize, to: usize)
    requires
        from <= to <= s@.len(),
    ensures
        final(out)@ == old(out)@ + colon_joined(s@.subrange(from as int, to as int)),
{
    let mut i: usize = from;
    while i < to
        invariant
            from <= i <= to <= s@.len(),
            out@ == old(out)@ + colon_joined(s@.subrange(from as int, i as int)),
        decreases to - i,
    {
        if i > from {
            out.append(":");
        }
        push_numeral(out, s[i] as u128, 16);
        proof {
            let part = s@.subrange(from as int, i + 1);
            assert(part.drop_last() =~= s@.subrange(from as int, i as int));
            assert(out@ =~= old(out)@ + colon_joined(part));
        }
        i = i + 1;
    }
}

fn push_compressed_text(out: &mut String, s: &[u16])
    ensures
        final(out)@ == old(out)@ + compressed_text(s@),
{
    let n: usize = s.len();
    let mut start: usize = 0;
    let mut run: usize = zero_run_len(s, 0);
    let mut i: usize = 1;
    while i < n
        invariant
            n == s@.len(),
            1 <= i,
            start < i,
            start <= n,
            i <= n || start == 0,
            start + run <= n,
            run == zero_run(s@.skip(start as int)),
            forall|j: int| 0 <= j < i ==> zero_run(#[trigger] s@.skip(j)) <= run,
            forall|j: int| 0 <= j < start ==> zero_run(#[trigger] s@.skip(j)) < run,
        decreases n - i,
    {
        let r: usize = zero_run_len(s, i);
        if r > run {
            start = i;
            run = r;
        }
        i = i + 1;
    }
    proof {
        lemma_zero_run_step(s@, n as int);
        assert forall|j: int| 0 <= j <= n implies zero_run(#[trigger] s@.skip(j)) <= run by {
            if j == n {
                assert(zero_run(s@.skip(j)) == 0);
            }
        }
        assert(is_longest_zero_run(s@, start as int));
        let chosen = choose|x: int| is_longest_zero_run(s@, x);
        lemma_longest_run_unique(s@, start as int, chosen);
    }
    if run > 1 {
        push_colon_joined(out, s, 0, start);
        out.append("::");
        push_colon_joined(out, s, start + run, n);
        proof {
            assert(s@.subrange(0, start as int) =~= s@.take(start as int));
            assert(s@.subrange(start + run, n as int) =~= s@.skip(start + run));
            assert(out@ =~= old(out)@ + compressed_text(s@));
        }
    } else {
        push_colon_joined(out, s, 0, n);
        proof {
            assert(s@.subrange(0, n as int) =~= s@);
        }
    }
}

/// Four segments as one number.
pub open spec fn joined(a: u16, b: u16, c: u16, d: u16) -> int {
    a * 0x1_0000_0000_0000 + b * 0x1_0000_0000 + c * 0x1_0000 + d
}

fn join(a: u16, b: u16, c: u16, d: u16) -> (n: u64)
    ensures
        n == joined(a, b, c, d),
{
    a as u64 * 0x1_0000_0000_0000 + b as u64 * 0x1_0000_0000 + c as u64 * 0x1_0000 + d as u64
}

proof fn lemma_joined_injective(a: u16, b: u16, c: u16, d: u16, e: u16, f: u16, g: u16, h: u16)
    requires
        joined(a, b, c, d) == joined(e, f, g, h),
    ensures
        a == e && b == f && c == g && d == h,
{
    let xr = b * 0x1_0000_0000 + c * 0x1_0000 + d;
    let yr = f * 0x1_0000_0000 + g * 0x1_0000 + h;
    assert(a == e && xr == yr);
    let xs = c * 0x1_0000 + d;
    let ys = g * 0x1_0000 + h;
    assert(b == f && xs == ys);
}

/// Addresses with the same halves are the same.
pub proof fn lemma_ipv6_halves_injective(x: Ipv6Addr, y: Ipv6Addr)
    ensures
        x.halves() == y.halves() ==> x == y,
{
    if x.halves() == y.halves() {
        lemma_joined_injective(x.s0, x.s1, x.s2, x.s3, y.s0, y.s1, y.s2, y.s3);
        lemma_joined_injective(x.s4, x.s5, x.s6, x.s7, y.s4, y.s5, y.s6, y.s7);
    }
}

impl Ipv6Addr {
    pub fn new(
        s0: u16,
        s1: u16,
        s2: u16,
        s3: u16,
        s4: u16,
        s5: u16,
        s6: u16,
        s7: u16,
    ) -> (r: Ipv6Addr)
        ensures
            r == (Ipv6Addr { s0, s1, s2, s3, s4, s5, s6, s7 }),
    {
        Ipv6Addr { s0, s1, s2, s3, s4, s5, s6, s7 }
    }

    pub open spec fn segment_seq(self) -> Seq<u16> {
        seq![self.s0, self.s1, self.s2, self.s3, self.s4, self.s5, self.s6, self.s7]
    }

    /// The octets in network order.
    pub open spec fn octet_seq(self) -> Seq<u8> {
        Seq::new(
            16,
            |i: int|
                {
                    let w = self.segment_seq()[i / 2] as int;
                    if i % 2 == 0 {
                        hi8(w)
                    } else {
                        lo8(w)
                    }
                },
        )
    }

    /// The upper and the lower half of the address as numbers.
    pub open spec fn halves(self) -> (int, int) {
        (
            joined(self.s0, self.s1, self.s2, self.s3),
            joined(self.s4, self.s5, self.s6, self.s7),
        )
    }

    /// The upper and the lower half of the address as numbers.
    pub fn to_halves(&self) -> (h: (u64, u64))
        ensures
            (h.0 as int, h.1 as int) == self.halves(),
    {
        (
            join(self.s0, self.s1, self.s2, self.s3),
            join(self.s4, self.s5, self.s6, self.s7),
        )
    }

    /// The segments, most significant first.
    pub fn segments(&self) -> (r: [u16; 8])
        ensures
            r@ == self.segment_seq(),
    {
        [self.s0, self.s1, self.s2, self.s3, self.s4, self.s5, self.s6, self.s7]
    }

    /// The octets in network order.
    pub fn octets(&self) -> (r: [u8; 16])
        ensures
            r@ == self.octet_seq(),
    {
        let r = [
            (self.s0 / 256) as u8,
            (self.s0 % 256) as u8,
            (self.s1 / 256) as u8,
            (self.s1 % 256) as u8,
            (self.s2 / 256) as u8,
            (self.s2 % 256) as u8,
            (self.s3 / 256) as u8,
            (self.s3 % 256) as u8,
            (self.s4 / 256) as u8,
            (self.s4 % 256) as u8,
            (self.s5 / 256) as u8,
            (self.s5 % 256) as u8,
            (self.s6 / 256) as u8,
            (self.s6 % 256) as u8,
            (self.s7 / 256) as u8,
            (self.s7 % 256) as u8,
        ];
        assert(r@ =~= self.octet_seq());
        r
    }

    /// The IPv4 address that a mapped address (`::ffff:0:0/96`) stands for.
    pub open spec fn mapped_ipv4(self) -> Option<Ipv4Addr> {
        if self.s0 == 0 && self.s1 == 0 && self.s2 == 0 && self.s3 == 0 && self.s4 == 0 && self.s5
            == 0xffff {
            Some(
                Ipv4Addr {
                    a: hi8(self.s6 as int),
                    b: lo8(self.s6 as int),
                    c: hi8(self.s7 as int),
                    d: lo8(self.s7 as int),
                },
            )
        } else {
            None
        }
    }

    /// The canonical text: `::ffff:a.b.c.d` for a mapped IPv4 address, else
    /// hexadecimal segments with the longest run of zeros left out.
    pub open spec fn text(self) -> Seq<char> {
        match self.mapped_ipv4() {
            Some(v4) => "::ffff:"@ + v4.text(),
            None => compressed_text(self.segment_seq()),
        }
    }

    /// Writes the canonical text behind `out`.
    pub fn push_text(&self, out: &mut String)
        ensures
            final(out)@ == old(out)@ + self.text(),
    {
        if self.s0 == 0 && self.s1 == 0 && self.s2 == 0 && self.s3 == 0 && self.s4 == 0 && self.s5
            == 0xffff {
            let v4 = Ipv4Addr {
                a: (self.s6 / 256) as u8,
                b: (self.s6 % 256) as u8,
                c: (self.s7 / 256) as u8,
                d: (self.s7 % 256) as u8,
            };
            out.append("::ffff:");
            v4.push_text(out);
            assert(out@ =~= old(out)@ + self.text());
        } else {
            let segs = self.segments();
            push_compressed_text(out, segs.as_slice());
        }
    }
}

impl IpAddr {
    /// The canonical text of the address.
    pub open spec fn text(self) -> Seq<char> {
        match self {
            IpAddr::V4(v4) => v4.text(),
            IpAddr::V6(v6) => v6.text(),
        }
    }

    /// Writes the canonical text behind `out`.
    pub fn push_text(&self, out: &mut String)
        ensures
            final(out)@ == old(out)@ + self.text(),
    {
        match self {
            IpAddr::V4(v4) => v4.push_text(out),
            IpAddr::V6(v6) => v6.push_text(out),
        }
    }

    /// The canonical text of the address.
    pub fn to_text(&self) -> (s: String)
        ensures
            s@ == self.text(),
    {
        let mut s = String::new();
        self.push_text(&mut s);
        assert(s@ =~= self.text());
        s
    }
}

} // verus!
