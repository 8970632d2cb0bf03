//! TCP MSS clamping for GRE tunnel MTU compliance.
//!
//! A SYN or SYN-ACK announces the largest segment its sender will accept. If
//! that is more than the tunnel carries, the option is lowered in place and
//! the TCP checksum is updated incrementally (RFC 1624).

use vstd::prelude::*;

use crate::base::checksum::{
    be16, checksum_of_sum, fold_sum, folded, hi8, lemma_word_bytes, lemma_words_sum_bounds,
    lemma_words_sum_odd_update, lemma_words_sum_update, lo8, sum_words, swapped, total_sum,
    with_word, word_at,
};

verus! {

/// End of the option list.
pub const TCP_OPT_END: u8 = 0;

/// One byte of padding.
pub const TCP_OPT_NOP: u8 = 1;

/// Maximum segment size.
pub const TCP_OPT_MSS: u8 = 2;

/// Length of the maximum segment size option.
pub const TCP_OPT_MSS_LEN: u8 = 4;

/// The longest packet whose TCP checksum a 32-bit accumulator can hold.
pub const MAX_TCP_CHECKSUM_LEN: usize = 131_056;

/// Result of MSS clamp operation, used for metric classification.
#[derive(Debug, Clone, Copy, PartialEq, Eq, Structural)]
pub enum ClampResult {
    /// Not a TCP packet.
    NotTcp,
    /// TCP but not SYN.
    NotSyn,
    /// MSS was rewritten to a lower value.
    Clamped,
    /// MSS was present but already within limit.
    Noop,
    /// SYN packet but no MSS option found.
    MssMissing,
}

/// The length that an IPv4 header gives for itself.
pub open spec fn ipv4_header_len(d: Seq<u8>) -> int {
    (d[0] % 16) * 4
}

/// Whether `d` is an IPv4 packet with room for a TCP header.
pub open spec fn is_ipv4_tcp(d: Seq<u8>) -> bool {
    &&& d.len() >= 40
    &&& d[0] / 16 == 4
    &&& d[9] == 6
    &&& d.len() >= ipv4_header_len(d) + 20
}

/// Whether the SYN bit of the TCP header is set.
pub open spec fn is_tcp_syn(d: Seq<u8>) -> bool {
    (d[ipv4_header_len(d) + 13] / 2) % 2 == 1
}

/// Where the TCP header, options included, says that it ends.
pub open spec fn tcp_options_end(d: Seq<u8>) -> int {
    ipv4_header_len(d) + (d[ipv4_header_len(d) + 12] / 16) * 4
}

/// Where the first MSS option stands in the option list `d[off..end]`.
///
/// An option is a kind byte, a length byte that counts the whole option, and
/// its value; END and NOP are single bytes. The list is given up at END, at a
/// length under two and at a truncated option.
pub open spec fn find_mss(d: Seq<u8>, off: int, end: int) -> Option<int>
    decreases (if off < end { end - off } else { 0 }),
{
    if off >= end || d[off] == TCP_OPT_END {
        None
    } else if d[off] == TCP_OPT_NOP {
        find_mss(d, off + 1, end)
    } else if off + 1 >= end || d[off + 1] < 2 {
        None
    } else if d[off] == TCP_OPT_MSS && d[off + 1] == TCP_OPT_MSS_LEN {
        if off + 4 > end {
            None
        } else {
            Some(off)
        }
    } else {
        find_mss(d, off + d[off + 1], end)
    }
}

/// Where the MSS option of a TCP packet stands, if its header is well formed
/// and holds one.
pub open spec fn mss_option(d: Seq<u8>) -> Option<int> {
    if tcp_options_end(d) < ipv4_header_len(d) + 20 || d.len() < tcp_options_end(d) {
        None
    } else {
        find_mss(d, ipv4_header_len(d) + 20, tcp_options_end(d))
    }
}

/// The MSS that the option at `off` announces.
pub open spec fn mss_value(d: Seq<u8>, off: int) -> int {
    be16(d[off + 2], d[off + 3])
}

/// How `clamp_mss` classifies a packet.
pub open spec fn clamp_class(d: Seq<u8>, max_mss: int) -> ClampResult {
    if !is_ipv4_tcp(d) {
        ClampResult::NotTcp
    } else if !is_tcp_syn(d) {
        ClampResult::NotSyn
    } else {
        match mss_option(d) {
            None => ClampResult::MssMissing,
            Some(off) => if mss_value(d, off) > max_mss {
                ClampResult::Clamped
            } else {
                ClampResult::Noop
            },
        }
    }
}

/// The checksum `c` after one word of the data went from `old_word` to
/// `new_word`: `~c' = ~c + ~old + new` in one's complement arithmetic.
pub open spec fn updated_checksum(c: int, old_word: int, new_word: int) -> int {
    checksum_of_sum((65535 - c) + (65535 - old_word) + new_word)
}

/// What a word at offset `p` of a segment adds to its word sum: at an odd offset
/// its two bytes belong to two words, each in the other half.
pub open spec fn lane_word(w: int, p: int) -> int {
    if p % 2 == 0 {
        w
    } else {
        swapped(w)
    }
}

/// The packet that `clamp_mss` leaves behind.
pub open spec fn clamped_packet(d: Seq<u8>, max_mss: int) -> Seq<u8> {
    if clamp_class(d, max_mss) is Clamped {
        let off = mss_option(d)->0;
        let ck = ipv4_header_len(d) + 16;
        with_word(
            with_word(d, off + 2, max_mss),
            ck,
            updated_checksum(
                be16(d[ck], d[ck + 1]),
                lane_word(mss_value(d, off), off - ipv4_header_len(d)),
                lane_word(max_mss, off - ipv4_header_len(d)),
            ),
        )
    } else {
        d
    }
}

/// A TCP segment with its checksum field set to zero.
pub open spec fn without_checksum(seg: Seq<u8>) -> Seq<u8> {
    if seg.len() >= 18 {
        with_word(seg, 16, 0)
    } else {
        seg
    }
}

/// The word sum that the TCP checksum of packet `d` is taken over: addresses,
/// protocol, segment length, and the segment without its checksum field.
pub open spec fn tcp_sum(d: Seq<u8>, ihl: int) -> int {
    be16(d[12], d[13]) + be16(d[14], d[15]) + be16(d[16], d[17]) + be16(d[18], d[19]) + d[9] + (
    d.len() - ihl) + total_sum(without_checksum(d.subrange(ihl, d.len() as int)))
}

/// Whether the checksum that a TCP packet carries is the right one.
pub open spec fn tcp_checksum_valid(d: Seq<u8>) -> bool {
    let ihl = ipv4_header_len(d);
    be16(d[ihl + 16], d[ihl + 17]) == checksum_of_sum(tcp_sum(d, ihl))
}

/// Where an option is found, it lies within the list, and finding it depends
/// on nothing behind its first two bytes.
proof fn lemma_find_mss(d: Seq<u8>, e: Seq<u8>, off: int, end: int)
    requires
        find_mss(d, off, end) is Some,
        forall|i: int| off <= i < find_mss(d, off, end)->0 + 2 ==> d[i] == e[i],
    ensures
        off <= find_mss(d, off, end)->0,
        find_mss(d, off, end)->0 + 4 <= end,
        find_mss(e, off, end) == find_mss(d, off, end),
    decreases (if off < end { end - off } else { 0 }),
{
    if off < end && d[off] == TCP_OPT_NOP {
        lemma_find_mss_bounds(d, off + 1, end);
        lemma_find_mss(d, e, off + 1, end);
    } else if d[off] == TCP_OPT_MSS && d[off + 1] == TCP_OPT_MSS_LEN {
    } else {
        lemma_find_mss_bounds(d, off + d[off + 1], end);
        lemma_find_mss(d, e, off + d[off + 1], end);
    }
}

proof fn lemma_find_mss_bounds(d: Seq<u8>, off: int, end: int)
    requires
        find_mss(d, off, end) is Some,
    ensures
        off <= find_mss(d, off, end)->0,
        find_mss(d, off, end)->0 + 4 <= end,
    decreases (if off < end { end - off } else { 0 }),
{
    if off < end && d[off] == TCP_OPT_NOP {
        lemma_find_mss_bounds(d, off + 1, end);
    } else if d[off] == TCP_OPT_MSS && d[off + 1] == TCP_OPT_MSS_LEN {
    } else {
        lemma_find_mss_bounds(d, off + d[off + 1], end);
    }
}

/// After clamping, the packet announces exactly the limit and clamping it
/// again does nothing.
pub proof fn clamping_is_idempotent(d: Seq<u8>, max_mss: u16)
    ensures
        clamp_class(d, max_mss as int) is Clamped ==> {
            let e = clamped_packet(d, max_mss as int);
            &&& clamp_class(e, max_mss as int) is Noop
            &&& mss_option(e) == mss_option(d)
            &&& mss_value(e, mss_option(e)->0) == max_mss
        },
        clamped_packet(clamped_packet(d, max_mss as int), max_mss as int) == clamped_packet(
            d,
            max_mss as int,
        ),
{
    if clamp_class(d, max_mss as int) is Clamped {
        let e = clamped_packet(d, max_mss as int);
        let ihl = ipv4_header_len(d);
        let off = mss_option(d)->0;
        lemma_find_mss_bounds(d, ihl + 20, tcp_options_end(d));
        lemma_find_mss(d, e, ihl + 20, tcp_options_end(d));
        lemma_word_bytes(max_mss as int);
    }
}

/// Clamping keeps the length.
pub proof fn lemma_clamped_len(d: Seq<u8>, max_mss: u16)
    ensures
        clamped_packet(d, max_mss as int).len() == d.len(),
{
    if clamp_class(d, max_mss as int) is Clamped {
        lemma_find_mss_bounds(d, ipv4_header_len(d) + 20, tcp_options_end(d));
    }
}

/// Clamping leaves the fixed part of the IP header alone, up to the addresses at
/// least, and all of it if the header gives itself a length.
pub proof fn lemma_clamped_header(d: Seq<u8>, max_mss: u16)
    ensures
        forall|i: int|
            0 <= i < 16 && i < d.len() ==> #[trigger] clamped_packet(d, max_mss as int)[i] == d[i],
        ipv4_header_len(d) > 0 ==> forall|i: int|
            0 <= i < 20 && i < d.len() ==> #[trigger] clamped_packet(d, max_mss as int)[i] == d[i],
{
    if clamp_class(d, max_mss as int) is Clamped {
        lemma_find_mss_bounds(d, ipv4_header_len(d) + 20, tcp_options_end(d));
    }
}

/// Clamping changes nothing but the MSS value and the TCP checksum.
pub proof fn clamping_is_local(d: Seq<u8>, max_mss: u16, i: int)
    requires
        0 <= i < d.len(),
        clamp_class(d, max_mss as int) is Clamped ==> {
            &&& i != mss_option(d)->0 + 2
            &&& i != mss_option(d)->0 + 3
            &&& i != ipv4_header_len(d) + 16
            &&& i != ipv4_header_len(d) + 17
        },
    ensures
        clamped_packet(d, max_mss as int).len() == d.len(),
        clamped_packet(d, max_mss as int)[i] == d[i],
{
    if clamp_class(d, max_mss as int) is Clamped {
        lemma_find_mss_bounds(d, ipv4_header_len(d) + 20, tcp_options_end(d));
    }
}

/// RFC 1624: the incremental update gives what the full computation gives.
pub proof fn lemma_updated_checksum(sum: int, old_word: int, new_word: int)
    requires
        sum > 0,
        0 <= old_word <= 65535,
        0 <= new_word <= 65535,
        sum - old_word + new_word > 0,
    ensures
        updated_checksum(checksum_of_sum(sum), old_word, new_word) == checksum_of_sum(
            sum - old_word + new_word,
        ),
{
    let f = folded(sum);
    assert((f + 65535 - old_word + new_word - 1) % 65535 == (sum - old_word + new_word - 1) % 65535);
}

proof fn lemma_tcp_sum_positive(d: Seq<u8>, ihl: int)
    requires
        d.len() >= ihl,
        d[9] > 0,
    ensures
        tcp_sum(d, ihl) > 0,
{
    let seg = without_checksum(d.subrange(ihl, d.len() as int));
    lemma_words_sum_bounds(seg, ((seg.len() + 1) / 2) as nat);
}

proof fn lemma_tcp_sum_of_clamped(d: Seq<u8>, ihl: int, off: int, max_mss: u16, c: int)
    requires
        20 <= ihl,
        ihl + 20 <= off,
        off + 4 <= d.len(),
    ensures
        tcp_sum(with_word(with_word(d, off + 2, max_mss as int), ihl + 16, c), ihl) == tcp_sum(
            d,
            ihl,
        ) - lane_word(mss_value(d, off), off - ihl) + lane_word(max_mss as int, off - ihl),
{
    let e = with_word(with_word(d, off + 2, max_mss as int), ihl + 16, c);
    let seg = without_checksum(d.subrange(ihl, d.len() as int));
    let seg2 = without_checksum(e.subrange(ihl, e.len() as int));
    let p = off + 2 - ihl;
    assert(seg2 =~= with_word(seg, p, max_mss as int));
    assert(be16(seg[p], seg[p + 1]) == mss_value(d, off));
    if p % 2 == 0 {
        lemma_words_sum_update(
            seg,
            p,
            hi8(max_mss as int),
            lo8(max_mss as int),
            ((seg.len() + 1) / 2) as nat,
        );
        lemma_word_bytes(max_mss as int);
        assert(word_at(seg, p) == mss_value(d, off));
    } else {
        lemma_words_sum_odd_update(seg, p, max_mss as int);
    }
}

/// A packet whose TCP checksum was right still has the right checksum after
/// clamping, wherever in the options the MSS stands, provided that its IPv4
/// header is whole.
pub proof fn clamping_keeps_checksum(d: Seq<u8>, max_mss: u16)
    requires
        is_ipv4_tcp(d),
        ipv4_header_len(d) >= 20,
        tcp_checksum_valid(d),
    ensures
        tcp_checksum_valid(clamped_packet(d, max_mss as int)),
{
    if clamp_class(d, max_mss as int) is Clamped {
        let ihl = ipv4_header_len(d);
        let off = mss_option(d)->0;
        let e = clamped_packet(d, max_mss as int);
        let c = be16(d[ihl + 16], d[ihl + 17]);
        let old_word = lane_word(mss_value(d, off), off - ihl);
        let new_word = lane_word(max_mss as int, off - ihl);
        let c2 = updated_checksum(c, old_word, new_word);
        lemma_find_mss_bounds(d, ihl + 20, tcp_options_end(d));
        lemma_tcp_sum_of_clamped(d, ihl, off, max_mss, c2);
        lemma_tcp_sum_positive(d, ihl);
        lemma_tcp_sum_positive(e, ihl);
        lemma_updated_checksum(tcp_sum(d, ihl), old_word, new_word);
        lemma_word_bytes(c2);
    }
}

/// Incremental checksum update per RFC 1624.
///
/// Updates a one's complement checksum in place when one word changes.
fn incremental_checksum_update(
    data: &mut [u8],
    checksum_offset: usize,
    old_word: u16,
    new_word: u16,
)
    requires
        checksum_offset + 1 < old(data)@.len(),
    ensures
        final(data)@ == with_word(
            old(data)@,
            checksum_offset as int,
            updated_checksum(
                be16(old(data)@[checksum_offset as int], old(data)@[checksum_offset + 1]),
                old_word as int,
                new_word as int,
            ),
        ),
{
    let old_checksum: u32 = data[checksum_offset] as u32 * 256 + data[checksum_offset + 1] as u32;
    let sum: u32 = (0xFFFF - old_checksum) + (0xFFFF - old_word as u32) + new_word as u32;
    let new_checksum: u16 = 0xFFFF - fold_sum(sum);
    data[checksum_offset] = (new_checksum / 256) as u8;
    data[checksum_offset + 1] = (new_checksum % 256) as u8;
}

/// A word as it counts in the sum at a given offset of the segment.
fn word_in_lane(w: u16, position: usize) -> (r: u16)
    ensures
        r == lane_word(w as int, position as int),
{
    if position % 2 == 0 {
        w
    } else {
        (w % 256) * 256 + w / 256
    }
}

/// Clamp the MSS in a TCP SYN or SYN-ACK packet.
///
/// `data` is the full IP packet starting at the IP header.
pub fn clamp_mss(data: &mut [u8], max_mss: u16) -> (r: ClampResult)
    ensures
        r == clamp_class(old(data)@, max_mss as int),
        final(data)@ == clamped_packet(old(data)@, max_mss as int),
{
    if data.len() < 40 {
        return ClampResult::NotTcp;
    }
    if data[0] / 16 != 4 {
        return ClampResult::NotTcp;
    }
    if data[9] != 6 {
        return ClampResult::NotTcp;
    }
    let ihl: usize = (data[0] % 16) as usize * 4;
    if data.len() < ihl + 20 {
        return ClampResult::NotTcp;
    }
    if (data[ihl + 13] / 2) % 2 == 0 {
        return ClampResult::NotSyn;
    }
    let data_offset: usize = (data[ihl + 12] / 16) as usize * 4;
    if data_offset < 20 || data.len() < ihl + data_offset {
        return ClampResult::MssMissing;
    }
    let options_end: usize = ihl + data_offset;
    let mut offset: usize = ihl + 20;
    let ghost d = data@;
    while offset < options_end
        invariant
            data@ == d,
            d == old(data)@,
            is_ipv4_tcp(d),
            is_tcp_syn(d),
            ihl == ipv4_header_len(d),
            options_end == tcp_options_end(d),
            ihl + 20 <= offset,
            options_end <= d.len(),
            options_end <= ihl + 60,
            mss_option(d) == find_mss(d, offset as int, options_end as int),
            clamp_class(d, max_mss as int) == (match mss_option(d) {
                None => ClampResult::MssMissing,
                Some(off) => if mss_value(d, off) > max_mss {
                    ClampResult::Clamped
                } else {
                    ClampResult::Noop
                },
            }),
        decreases (if offset < options_end { options_end - offset } else { 0 }),
    {
        let kind: u8 = data[offset];
        if kind == TCP_OPT_END {
            return ClampResult::MssMissing;
        }
        if kind == TCP_OPT_NOP {
            offset = offset + 1;
            continue ;
        }
        if offset + 1 >= options_end {
            return ClampResult::MssMissing;
        }
        let length: u8 = data[offset + 1];
        if length < 2 {
            return ClampResult::MssMissing;
        }
        if kind == TCP_OPT_MSS && length == TCP_OPT_MSS_LEN {
            if offset + 4 > options_end {
                return ClampResult::MssMissing;
            }
            let current_mss: u16 = data[offset + 2] as u16 * 256 + data[offset + 3] as u16;
            if current_mss > max_mss {
                data[offset + 2] = (max_mss / 256) as u8;
                data[offset + 3] = (max_mss % 256) as u8;
                let position: usize = offset - ihl;
                incremental_checksum_update(
                    data,
                    ihl + 16,
                    word_in_lane(current_mss, position),
                    word_in_lane(max_mss, position),
                );
                return ClampResult::Clamped;
            }
            return ClampResult::Noop;
        }
        offset = offset + length as usize;
    }
    ClampResult::MssMissing
}

/// Compute a full TCP checksum from scratch.
pub fn full_tcp_checksum(data: &[u8], ihl: usize) -> (c: u16)
    requires
        20 <= data@.len() <= MAX_TCP_CHECKSUM_LEN,
        ihl <= data@.len(),
    ensures
        c == checksum_of_sum(tcp_sum(data@, ihl as int)),
{
    let n: usize = data.len();
    let tcp_len: usize = n - ihl;
    let mut sum: u32 = sum_words(data, ihl, n);
    let ghost seg = data@.subrange(ihl as int, n as int);
    proof {
        assert(without_checksum(seg).len() == seg.len());
    }
    if tcp_len >= 18 {
        let w: u32 = data[ihl + 16] as u32 * 256 + data[ihl + 17] as u32;
        proof {
            let k = ((seg.len() + 1) / 2) as nat;
            lemma_words_sum_update(seg, 16, 0, 0, k);
            lemma_words_sum_bounds(without_checksum(seg), k);
            assert(hi8(0) == 0 && lo8(0) == 0);
            assert(w == word_at(seg, 16));
        }
        sum = sum - w;
    }
    assert(sum == total_sum(without_checksum(seg)));
    sum = sum + data[12] as u32 * 256 + data[13] as u32;
    sum = sum + data[14] as u32 * 256 + data[15] as u32;
    sum = sum + data[16] as u32 * 256 + data[17] as u32;
    sum = sum + data[18] as u32 * 256 + data[19] as u32;
    sum = sum + data[9] as u32 + tcp_len as u32;
    0xFFFF - fold_sum(sum)
}

} // verus!
