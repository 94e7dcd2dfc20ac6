//! The multistream varint codec: unsigned 64-bit integers as big-endian
//! seven-bit groups, continuation flag `0x80` on every byte but the last,
//! minimal length (one to ten bytes, first byte never exactly `0x80`).

use vstd::prelude::*;

use crate::Error;
use crate::Progress;

verus! {

/// The continuation flag of a varint byte is set.
pub open spec fn has_cont(b: u8) -> bool {
    b & 0x80 == 0x80
}

/// The low seven bits of each byte of `s`, folded big-endian group by group,
/// truncated to 64 bits.
pub open spec fn varint_acc(s: Seq<u8>) -> u64
    decreases s.len(),
{
    if s.len() == 0 {
        0u64
    } else {
        (varint_acc(s.drop_last()) << 7u64) | ((s.last() & 0x7f) as u64)
    }
}

/// How many leading bytes of `s` carry the continuation flag.
pub open spec fn cont_prefix_len(s: Seq<u8>) -> int
    decreases s.len(),
{
    if s.len() == 0 || !has_cont(s[0]) {
        0
    } else {
        1 + cont_prefix_len(s.drop_first())
    }
}

/// `s` opens with the redundant all-zero continuation byte, which a minimal
/// encoding never produces.
pub open spec fn varint_malformed(s: Seq<u8>) -> bool {
    s.len() > 0 && s[0] == 0x80
}

/// `s` begins with a complete, well-formed varint.
pub open spec fn varint_complete(s: Seq<u8>) -> bool {
    &&& !varint_malformed(s)
    &&& cont_prefix_len(s) < 10
    &&& cont_prefix_len(s) < s.len()
}

/// Number of bytes of the varint at the head of `s`.
pub open spec fn varint_len(s: Seq<u8>) -> int {
    cont_prefix_len(s) + 1
}

/// The value of the varint at the head of `s`.
pub open spec fn varint_value_of(s: Seq<u8>) -> u64 {
    varint_acc(s.take(varint_len(s)))
}

/// The seven value bits that group `i` (0 ≤ i ≤ 9) of the untrimmed ten-group
/// layout of `value` carries; group 0 holds only the top bit of `value`.
pub open spec fn varint_bits(value: u64, i: int) -> u64 {
    (value >> ((7 * (9 - i)) as u64)) & 0x7f
}

/// Byte `i` of the untrimmed ten-group layout of `value`: its seven value
/// bits, with the continuation flag on every group but the last.
pub open spec fn varint_group(value: u64, i: int) -> u8 {
    if i < 9 {
        (0x80u64 | varint_bits(value, i)) as u8
    } else {
        varint_bits(value, i) as u8
    }
}

/// Index, at or after `i`, of the first group of `value` that is not the
/// empty continuation sentinel `0x80`.
pub open spec fn start_from(value: u64, i: int) -> int
    decreases 9 - i,
{
    if i >= 9 {
        9
    } else if varint_group(value, i) != 0x80 {
        i
    } else {
        start_from(value, i + 1)
    }
}

/// Index of the first emitted group of `value`.
pub open spec fn varint_start(value: u64) -> int {
    start_from(value, 0)
}

/// The minimal big-endian varint encoding of `value`.
pub open spec fn varint_encoding(value: u64) -> Seq<u8> {
    Seq::new((10 - varint_start(value)) as nat, |j: int| varint_group(value, varint_start(value) + j))
}

/// Facts about a seven-bit group `g` packed into a byte, with and without the
/// continuation flag.
proof fn lemma_flag_u8(g: u64)
    requires
        g <= 0x7f,
    ensures
        ((0x80u64 | g) as u8) & 0x80 == 0x80,
        (g as u8) & 0x80 == 0,
        g as u8 != 0x80u8,
        ((0x80u64 | g) as u8) == 0x80u8 <==> g == 0,
        (((0x80u64 | g) as u8) & 0x7f) as u64 == g,
        ((g as u8) & 0x7f) as u64 == g,
{
    assert(g <= 0x7f ==> {
        &&& ((0x80u64 | g) as u8) & 0x80 == 0x80
        &&& (g as u8) & 0x80 == 0
        &&& g as u8 != 0x80u8
        &&& (((0x80u64 | g) as u8) == 0x80u8 <==> g == 0)
        &&& (((0x80u64 | g) as u8) & 0x7f) as u64 == g
        &&& ((g as u8) & 0x7f) as u64 == g
    }) by (bit_vector);
}

/// The masked shifted group of `v` at any shift is at most `0x7f`.
proof fn lemma_bits_bound(v: u64, s: u64)
    ensures
        (v >> s) & 0x7f <= 0x7f,
{
    assert((v >> s) & 0x7f <= 0x7f) by (bit_vector);
}

/// Folding one more seven-bit group into an accumulator that already holds
/// the higher groups of `v >> s` reconstructs `v >> s`.
proof fn lemma_acc_step(v: u64, s: u64)
    requires
        s <= 56,
    ensures
        ((v >> (s + 7)) << 7u64) | ((v >> s) & 0x7f) == v >> s,
{
    assert(s <= 56 ==> (((v >> (s + 7)) << 7u64) | ((v >> s) & 0x7f) == v >> s)) by (bit_vector);
}

/// A shifted value whose next seven bits are zero and whose higher bits are
/// zero is zero.
proof fn lemma_zero_ext(v: u64, s: u64)
    requires
        s <= 56,
        v >> (s + 7) == 0,
        (v >> s) & 0x7f == 0,
    ensures
        v >> s == 0,
{
    assert((s <= 56 && v >> (s + 7) == 0 && (v >> s) & 0x7f == 0) ==> v >> s == 0) by (bit_vector);
}

/// Properties of the first non-sentinel group at or after `i`: it is in
/// range, every group before it is the sentinel, and it is itself no
/// sentinel.
proof fn lemma_start_from_props(v: u64, i: int)
    requires
        0 <= i <= 9,
    ensures
        i <= start_from(v, i) <= 9,
        forall|j: int| i <= j < start_from(v, i) ==> varint_group(v, j) == 0x80,
        start_from(v, i) < 9 ==> varint_group(v, start_from(v, i)) != 0x80,
        varint_group(v, 9) != 0x80,
    decreases 9 - i,
{
    lemma_bits_bound(v, (7 * (9 - 9)) as u64);
    lemma_flag_u8(varint_bits(v, 9));
    if i < 9 {
        if varint_group(v, i) != 0x80 {
        } else {
            lemma_start_from_props(v, i + 1);
        }
    }
}

/// Every group of `value` strictly above the first emitted one carries no
/// value bits: `value` shifted past them is zero.
proof fn lemma_high_zero(v: u64, j: int)
    requires
        1 <= j <= varint_start(v),
    ensures
        v >> ((7 * (10 - j)) as u64) == 0,
    decreases j,
{
    lemma_start_from_props(v, 0);
    let bits = varint_bits(v, j - 1);
    lemma_bits_bound(v, (7 * (9 - (j - 1))) as u64);
    lemma_flag_u8(bits);
    assert(varint_group(v, j - 1) == 0x80);
    assert(bits == 0);
    if j == 1 {
        assert((v >> 63) & 0x7f == 0 ==> v >> 63 == 0) by (bit_vector);
        assert(v >> ((7 * (10 - 1)) as u64) == v >> 63);
    } else {
        lemma_high_zero(v, j - 1);
        assert(v >> ((7 * (11 - j)) as u64) == 0);
        lemma_zero_ext(v, (7 * (10 - j)) as u64);
    }
}

/// The accumulator over the first `k - varint_start(value)` emitted groups of
/// `value` equals `value` shifted down past the groups not yet folded in.
proof fn lemma_acc_prefix(v: u64, k: int)
    requires
        varint_start(v) < k <= 10,
    ensures
        varint_acc(varint_encoding(v).take(k - varint_start(v))) == v >> ((7 * (10 - k)) as u64),
    decreases k,
{
    let start = varint_start(v);
    let e = varint_encoding(v);
    lemma_start_from_props(v, 0);
    let sh = (7 * (10 - k)) as u64;
    let p = e.take(k - start);
    assert(p.last() == varint_group(v, k - 1));
    lemma_bits_bound(v, (7 * (9 - (k - 1))) as u64);
    lemma_flag_u8(varint_bits(v, k - 1));
    assert((p.last() & 0x7f) as u64 == varint_bits(v, k - 1));
    if k == start + 1 {
        assert(p.drop_last() =~= Seq::<u8>::empty());
        assert(varint_acc(p.drop_last()) == 0);
        assert(varint_acc(p) == (varint_acc(p.drop_last()) << 7u64) | ((p.last() & 0x7f) as u64));
        assert(0u64 << 7u64 == 0u64) by (bit_vector);
        assert(0u64 | ((v >> sh) & 0x7f) == (v >> sh) & 0x7f) by (bit_vector);
        assert((0u64 << 7u64) | ((v >> sh) & 0x7f) == (v >> sh) & 0x7f) by (bit_vector);
        // the groups above the first emitted one are empty, so masking with
        // 0x7f loses nothing
        if start == 0 {
            assert(v >> 63 <= 0x7f ==> (v >> 63) & 0x7f == v >> 63) by (bit_vector);
            assert(v >> 63 <= 1) by (bit_vector);
        } else {
            lemma_high_zero(v, start);
            assert(v >> (sh + 7) == 0 ==> (v >> sh) & 0x7f == v >> sh) by (bit_vector);
            assert((7 * (10 - start)) as u64 == sh + 7);
        }
    } else {
        lemma_acc_prefix(v, k - 1);
        assert(p.drop_last() =~= e.take(k - 1 - start));
        assert(varint_acc(p) == (varint_acc(e.take(k - 1 - start)) << 7u64) | varint_bits(v, k - 1));
        lemma_acc_step(v, sh);
        assert((7 * (10 - (k - 1))) as u64 == sh + 7);
    }
}

/// The length of the leading continuation run is never negative nor longer
/// than the sequence.
pub(crate) proof fn lemma_cont_prefix_len_le(s: Seq<u8>)
    ensures
        0 <= cont_prefix_len(s) <= s.len(),
    decreases s.len(),
{
    if s.len() != 0 && has_cont(s[0]) {
        lemma_cont_prefix_len_le(s.drop_first());
    }
}

/// If the first `i` bytes all carry the continuation flag and byte `i` (if
/// present) does not, the leading continuation run has length exactly `i`.
pub(crate) proof fn lemma_cont_prefix_len_is(s: Seq<u8>, i: int)
    requires
        0 <= i <= s.len(),
        forall|j: int| 0 <= j < i ==> has_cont(s[j]),
        i < s.len() ==> !has_cont(s[i]),
    ensures
        cont_prefix_len(s) == i,
    decreases i,
{
    if i == 0 {
    } else {
        let t = s.drop_first();
        assert(forall|j: int| 0 <= j < i - 1 ==> s[j + 1] == t[j] && has_cont(s[j + 1]));
        lemma_cont_prefix_len_is(t, i - 1);
    }
}

/// If the first `i` bytes all carry the continuation flag, the leading
/// continuation run is at least `i` long.
proof fn lemma_cont_prefix_len_ge(s: Seq<u8>, i: int)
    requires
        0 <= i <= s.len(),
        forall|j: int| 0 <= j < i ==> has_cont(s[j]),
    ensures
        cont_prefix_len(s) >= i,
    decreases i,
{
    lemma_cont_prefix_len_le(s);
    if i > 0 {
        let t = s.drop_first();
        assert(has_cont(s[0]));
        assert(forall|j: int| 0 <= j < i - 1 ==> s[j + 1] == t[j] && has_cont(s[j + 1]));
        lemma_cont_prefix_len_ge(t, i - 1);
        assert(cont_prefix_len(s) == 1 + cont_prefix_len(t));
    }
}

/// An accumulator over at most nine groups stays below `2^(7·len)`.
proof fn lemma_acc_bound(s: Seq<u8>)
    requires
        s.len() <= 9,
    ensures
        varint_acc(s) < (1u64 << ((7 * s.len()) as u64)),
    decreases s.len(),
{
    if s.len() == 0 {
        assert(0u64 < 1u64 << 0u64) by (bit_vector);
    } else {
        lemma_acc_bound(s.drop_last());
        let a = varint_acc(s.drop_last());
        let cb: u8 = s.last();
        let c = (cb & 0x7f) as u64;
        let j = (7 * (s.len() - 1)) as u64;
        assert(((cb & 0x7f) as u64) <= 0x7f) by (bit_vector);
        assert((j <= 56 && a < (1u64 << j) && c <= 0x7f) ==> ((a << 7u64) | c) < (1u64 << (j + 7))) by (bit_vector);
    }
}

/// Law: the encoding of `value` is a well-formed varint — between one and ten
/// bytes, first byte never the sentinel `0x80`, the continuation flag on
/// every byte but the last and on no last byte — and decoding it consumes all
/// of it and yields back exactly `value`.
pub proof fn lemma_varint_round_trip(value: u64)
    ensures
        ({
            let e = varint_encoding(value);
            &&& 1 <= e.len() <= 10
            &&& e[0] != 0x80
            &&& (forall|j: int| 0 <= j < e.len() - 1 ==> has_cont(e[j]))
            &&& !has_cont(e[e.len() - 1])
            &&& varint_complete(e)
            &&& varint_len(e) == e.len()
            &&& varint_value_of(e) == value
        }),
{
    let e = varint_encoding(value);
    let start = varint_start(value);
    lemma_start_from_props(value, 0);
    assert forall|j: int| 0 <= j < e.len() - 1 implies has_cont(e[j]) by {
        lemma_bits_bound(value, (7 * (9 - (start + j))) as u64);
        lemma_flag_u8(varint_bits(value, start + j));
    }
    lemma_bits_bound(value, 0u64);
    lemma_flag_u8(varint_bits(value, 9));
    assert(e[e.len() - 1] == varint_group(value, 9));
    assert(!has_cont(e[e.len() - 1]));
    if start < 9 {
        lemma_bits_bound(value, (7 * (9 - start)) as u64);
        lemma_flag_u8(varint_bits(value, start));
        assert(e[0] != 0x80);
    }
    lemma_cont_prefix_len_is(e, e.len() - 1);
    lemma_acc_prefix(value, 10);
    assert(e.take(e.len() as int) =~= e);
    assert(value >> 0u64 == value) by (bit_vector);
}

/// Law: the encoding is minimal — no well-formed varint shorter than
/// `varint_encoding(value)` decodes to `value`.
pub proof fn lemma_varint_minimal(value: u64, s: Seq<u8>)
    requires
        varint_complete(s),
        varint_len(s) == s.len(),
        s.len() < varint_encoding(value).len(),
    ensures
        varint_value_of(s) != value,
{
    let e = varint_encoding(value);
    let start = varint_start(value);
    let len = s.len() as int;
    lemma_start_from_props(value, 0);
    assert(e.len() == 10 - start);
    assert(len <= 9 - start);
    assert(s.take(len) =~= s);
    lemma_acc_bound(s);
    // the first emitted group of `value` is not the sentinel, so `value` has
    // a bit at or above position 7·(9 - start)
    assert(start < 9);
    let sh = (7 * (9 - start)) as u64;
    lemma_bits_bound(value, sh);
    lemma_flag_u8(varint_bits(value, start));
    assert(varint_bits(value, start) != 0);
    assert((sh <= 63 && (value >> sh) & 0x7f != 0) ==> value >= (1u64 << sh)) by (bit_vector);
    let j = (7 * len) as u64;
    assert((j <= 56 && sh <= 63 && j <= sh) ==> (1u64 << j) <= (1u64 << sh)) by (bit_vector);
    assert(varint_value_of(s) < value);
}

/// Append the minimal varint encoding of `value` to `dst`.
pub fn serialise_varint(dst: &mut Vec<u8>, value: u64)
    ensures
        final(dst)@ == old(dst)@ + varint_encoding(value),
{
    let mut groups: Vec<u8> = Vec::with_capacity(10);
    let mut i: usize = 0;
    while i < 10
        invariant
            0 <= i <= 10,
            groups@.len() == i,
            forall|k: int| 0 <= k < i ==> groups@[k] == varint_group(value, k),
        decreases 10 - i,
    {
        let sh: u64 = (7 * (9 - i)) as u64;
        let g: u64 = (value >> sh) & 0x7f;
        proof {
            lemma_bits_bound(value, sh);
            lemma_flag_u8(g);
        }
        let b: u8 = if i < 9 {
            (0x80u64 | g) as u8
        } else {
            g as u8
        };
        groups.push(b);
        i += 1;
    }

    let mut start: usize = 0;
    while start < 9 && groups[start] == 0x80
        invariant
            0 <= start <= 9,
            groups@.len() == 10,
            forall|k: int| 0 <= k < 10 ==> groups@[k] == varint_group(value, k),
            forall|k: int| 0 <= k < start ==> varint_group(value, k) == 0x80,
        decreases 9 - start,
    {
        start += 1;
    }
    proof {
        lemma_start_from_is(value, start as int);
    }

    let mut t: usize = start;
    while t < 10
        invariant
            start <= t <= 10,
            start as int == varint_start(value),
            groups@.len() == 10,
            forall|k: int| 0 <= k < 10 ==> groups@[k] == varint_group(value, k),
            dst@ == old(dst)@ + varint_encoding(value).take(t - start),
        decreases 10 - t,
    {
        dst.push(groups[t]);
        proof {
            assert(varint_encoding(value).take(t + 1 - start) =~= varint_encoding(value).take(
                t - start,
            ).push(varint_group(value, t as int)));
        }
        t += 1;
    }
    proof {
        assert(varint_encoding(value).take(10 - start) =~= varint_encoding(value));
    }
}

/// If the groups of `value` below index `k` are all the sentinel and group
/// `k` is not (or `k` is the last index), `k` is the first emitted group.
proof fn lemma_start_from_is(v: u64, k: int)
    requires
        0 <= k <= 9,
        forall|j: int| 0 <= j < k ==> varint_group(v, j) == 0x80,
        k < 9 ==> varint_group(v, k) != 0x80,
    ensures
        varint_start(v) == k,
{
    lemma_start_from_seg(v, 0, k);
}

/// Helper for `lemma_start_from_is`, inducting from `i` up to `k`.
proof fn lemma_start_from_seg(v: u64, i: int, k: int)
    requires
        0 <= i <= k <= 9,
        forall|j: int| i <= j < k ==> varint_group(v, j) == 0x80,
        k < 9 ==> varint_group(v, k) != 0x80,
    ensures
        start_from(v, i) == k,
    decreases k - i,
{
    if i < k {
        lemma_start_from_seg(v, i + 1, k);
    }
}

/// Decode the varint at the head of `bytes`.
///
/// Fails with `MalformedVarint` when the first byte is the redundant
/// sentinel, with `VarintTooLarge` when ten bytes pass without a terminating
/// byte, and reports an incomplete buffer otherwise when no terminating byte
/// has arrived yet.
pub fn deserialise_varint(bytes: &[u8]) -> (r: Progress<u64>)
    ensures
        varint_malformed(bytes@) ==> r == Progress::<u64>::Failed(Error::MalformedVarint),
        !varint_malformed(bytes@) && cont_prefix_len(bytes@) >= 10 ==> r == Progress::<
            u64,
        >::Failed(Error::VarintTooLarge),
        !varint_malformed(bytes@) && cont_prefix_len(bytes@) < 10 && cont_prefix_len(bytes@)
            >= bytes@.len() ==> r == Progress::<u64>::Incomplete,
        varint_complete(bytes@) ==> r == Progress::<u64>::Done(
            varint_value_of(bytes@),
            varint_len(bytes@) as usize,
        ),
{
    proof {
        lemma_cont_prefix_len_le(bytes@);
    }
    if bytes.len() > 0 && bytes[0] == 0x80 {
        return Progress::Failed(Error::MalformedVarint);
    }
    let n: usize = if bytes.len() < 10 {
        bytes.len()
    } else {
        10
    };
    let mut value: u64 = 0;
    let mut i: usize = 0;
    while i < n
        invariant
            0 <= i <= n,
            n == if bytes@.len() < 10 { bytes@.len() as int } else { 10int },
            value == varint_acc(bytes@.take(i as int)),
            forall|j: int| 0 <= j < i ==> has_cont(bytes@[j]),
            !varint_malformed(bytes@),
        decreases n - i,
    {
        let b: u8 = bytes[i];
        value = (value << 7u64) | ((b & 0x7f) as u64);
        proof {
            assert(bytes@.take(i + 1).drop_last() =~= bytes@.take(i as int));
            assert(bytes@.take(i + 1).last() == b);
        }
        i += 1;
        if b & 0x80 == 0 {
            proof {
                assert(b & 0x80 == 0 ==> !(b & 0x80 == 0x80)) by (bit_vector);
                lemma_cont_prefix_len_is(bytes@, i - 1);
            }
            return Progress::Done(value, i);
        }
        proof {
            assert(b & 0x80 != 0 ==> b & 0x80 == 0x80) by (bit_vector);
        }
    }
    if bytes.len() < 10 {
        proof {
            lemma_cont_prefix_len_is(bytes@, bytes@.len() as int);
        }
        Progress::Incomplete
    } else {
        proof {
            lemma_cont_prefix_len_ge(bytes@, 10);
        }
        Progress::Failed(Error::VarintTooLarge)
    }
}

} // verus!
