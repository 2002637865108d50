//! Internet checksums for IP, TCP, UDP and ICMPv6.

use crate::bytes::{be_bytes, push_be16, push_be32};
use vstd::prelude::*;

verus! {

/// The sum of the 16-bit big-endian words of `bytes`; an odd last byte is the
/// high half of a word whose low half is zero.
pub open spec fn word_sum(bytes: Seq<u8>) -> nat
    decreases bytes.len(),
{
    if bytes.len() == 0 {
        0
    } else if bytes.len() % 2 == 1 {
        word_sum(bytes.drop_last()) + bytes.last() as nat * 256
    } else {
        word_sum(bytes.subrange(0, bytes.len() - 2)) + bytes[bytes.len() - 2] as nat * 256
            + bytes.last() as nat
    }
}

/// The end-around-carry fold of `sum` into 16 bits.
pub open spec fn fold16(sum: nat) -> nat {
    if sum == 0 {
        0
    } else {
        ((sum - 1) % 0xFFFF + 1) as nat
    }
}

/// The checksum of `bytes` started from `sum`: the complement of the folded
/// sum, where the running sum wraps at 32 bits.
pub open spec fn ones_complement_spec(sum: u32, bytes: Seq<u8>) -> u16 {
    (0xFFFF - fold16((sum as nat + word_sum(bytes)) % 0x1_0000_0000)) as u16
}

/// A folded sum fits sixteen bits, is zero only for zero, and leaves a
/// sum of sixteen bits as it is.
pub proof fn lemma_fold16_bound(sum: nat)
    ensures
        fold16(sum) <= 0xFFFF,
        sum > 0 ==> fold16(sum) > 0,
        sum <= 0xFFFF ==> fold16(sum) == sum,
{
}

/// One step of the fold keeps the folded value and makes the sum smaller.
pub proof fn lemma_fold_step(sum: nat)
    requires
        sum >= 0x1_0000,
    ensures
        fold16(sum % 0x1_0000 + sum / 0x1_0000) == fold16(sum),
        sum % 0x1_0000 + sum / 0x1_0000 < sum,
        sum % 0x1_0000 + sum / 0x1_0000 > 0,
{
    let hi = sum / 0x1_0000;
    let lo = sum % 0x1_0000;
    assert(sum == hi * 0x1_0000 + lo);
    assert(sum - 1 == (lo + hi - 1) + hi * 0xFFFF);
    vstd::arithmetic::div_mod::lemma_mod_multiples_vanish(hi as int, (lo + hi - 1) as int, 0xFFFF);
    assert(((lo + hi - 1) + hi * 0xFFFF) % 0xFFFF == (0xFFFF * hi + (lo + hi - 1)) % 0xFFFF);
}

/// One more word behind an even number of bytes adds its value to the sum.
pub proof fn lemma_word_sum_push_word(bytes: Seq<u8>, hi: u8, lo: u8)
    requires
        bytes.len() % 2 == 0,
    ensures
        word_sum(bytes.push(hi).push(lo)) == word_sum(bytes) + hi as nat * 256 + lo as nat,
{
    let s = bytes.push(hi).push(lo);
    assert(s.subrange(0, s.len() - 2) =~= bytes);
}

/// A last single byte behind an even number of bytes counts as the high half of a word.
pub proof fn lemma_word_sum_push_odd(bytes: Seq<u8>, hi: u8)
    requires
        bytes.len() % 2 == 0,
    ensures
        word_sum(bytes.push(hi)) == word_sum(bytes) + hi as nat * 256,
{
    assert(bytes.push(hi).drop_last() =~= bytes);
}

/// Behind a first part of even length the words of the second part add up on their own.
pub proof fn lemma_word_sum_concat(a: Seq<u8>, b: Seq<u8>)
    requires
        a.len() % 2 == 0,
    ensures
        word_sum(a + b) == word_sum(a) + word_sum(b),
    decreases b.len(),
{
    let s = a + b;
    if b.len() == 0 {
        assert(s =~= a);
    } else if b.len() % 2 == 1 {
        assert(s.drop_last() =~= a + b.drop_last());
        lemma_word_sum_concat(a, b.drop_last());
    } else {
        assert(s.subrange(0, s.len() - 2) =~= a + b.subrange(0, b.len() - 2));
        lemma_word_sum_concat(a, b.subrange(0, b.len() - 2));
    }
}

/// Writing a word at an even offset changes the sum by the difference of the words.
pub proof fn lemma_word_sum_update(bytes: Seq<u8>, off: int, hi: u8, lo: u8)
    requires
        0 <= off,
        off % 2 == 0,
        off + 2 <= bytes.len(),
    ensures
        word_sum(bytes.update(off, hi).update(off + 1, lo)) + bytes[off] as nat * 256 + bytes[off
            + 1] as nat == word_sum(bytes) + hi as nat * 256 + lo as nat,
{
    let head = bytes.subrange(0, off);
    let tail = bytes.subrange(off + 2, bytes.len() as int);
    let old_word = seq![bytes[off], bytes[off + 1]];
    let new_word = seq![hi, lo];
    let updated = bytes.update(off, hi).update(off + 1, lo);
    assert(bytes =~= (head + old_word) + tail);
    assert(updated =~= (head + new_word) + tail);
    lemma_word_sum_concat(head + old_word, tail);
    lemma_word_sum_concat(head + new_word, tail);
    lemma_word_sum_concat(head, old_word);
    lemma_word_sum_concat(head, new_word);
    lemma_word_sum_push_word(Seq::empty(), bytes[off], bytes[off + 1]);
    lemma_word_sum_push_word(Seq::empty(), hi, lo);
    assert(Seq::<u8>::empty().push(bytes[off]).push(bytes[off + 1]) =~= old_word);
    assert(Seq::<u8>::empty().push(hi).push(lo) =~= new_word);
}

/// A checksum field that holds the checksum of the data around it makes the
/// data sum to all ones: the receiver's check. The running sum is kept in
/// 32 bits; where it wraps, it wraps for the sender and the receiver alike.
pub proof fn lemma_checksum_verifies(prefix: Seq<u8>, data: Seq<u8>, off: int)
    requires
        prefix.len() % 2 == 0,
        0 <= off,
        off % 2 == 0,
        off + 2 <= data.len(),
        data[off] == 0,
        data[off + 1] == 0,
    ensures
        ({
            let sum = ones_complement_spec(0, prefix + data);
            let filled = data.update(off, (sum / 256) as u8).update(off + 1, (sum % 256) as u8);
            ones_complement_spec(0, prefix + filled) == 0
        }),
{
    let sum = ones_complement_spec(0, prefix + data);
    let hi = (sum / 256) as u8;
    let lo = (sum % 256) as u8;
    let filled = data.update(off, hi).update(off + 1, lo);
    lemma_word_sum_concat(prefix, data);
    lemma_word_sum_concat(prefix, filled);
    lemma_word_sum_update(data, off, hi, lo);
    let s = word_sum(prefix + data);
    assert(word_sum(prefix + filled) == s + sum as nat);
    // What the sender summed, wrapped, and what the receiver adds to it.
    let m = s % 0x1_0000_0000;
    lemma_fold16_bound(m);
    let f = fold16(m);
    assert(sum as nat == 0xFFFF - f);
    let q: nat = if m == 0 {
        0
    } else {
        (m - 1) as nat / 0xFFFF
    };
    // The two together are a multiple of 0xFFFF that fits 32 bits.
    assert(m + sum as nat == (q + 1) * 0xFFFF && q <= 0x1_0000) by {
        if m > 0 {
            assert(m - 1 == q * 0xFFFF + (f - 1));
            assert(m <= 0xFFFF_FFFF);
            assert(q <= 0x1_0000);
            assert((q + 1) * 0xFFFF == q * 0xFFFF + 0xFFFF) by (nonlinear_arith);
        }
    }
    assert((q + 1) * 0xFFFF <= 0xFFFF_FFFF) by (nonlinear_arith)
        requires
            q <= 0x1_0000,
    ;
    lemma_wrapping_step(s, sum as nat);
    let t = (s + sum as nat) % 0x1_0000_0000;
    assert(t == m + sum as nat) by {
        vstd::arithmetic::div_mod::lemma_small_mod((m + sum as nat) as nat, 0x1_0000_0000);
    }
    assert((t - 1) % 0xFFFF == 0xFFFE) by {
        assert(t - 1 == q * 0xFFFF + 0xFFFE) by (nonlinear_arith)
            requires
                t == (q + 1) * 0xFFFF,
        ;
        vstd::arithmetic::div_mod::lemma_mod_multiples_vanish(q as int, 0xFFFE, 0xFFFF);
        assert(q * 0xFFFF == 0xFFFF * q) by (nonlinear_arith);
    }
    assert(fold16(t) == 0xFFFF);
}

/// Adding to a sum that was reduced modulo `2^32` and reducing again is the
/// same as reducing the whole sum once.
proof fn lemma_wrapping_step(total: nat, word: nat)
    ensures
        ((total % 0x1_0000_0000) + word) % 0x1_0000_0000 == (total + word) % 0x1_0000_0000,
{
    vstd::arithmetic::div_mod::lemma_add_mod_noop(total as int, word as int, 0x1_0000_0000);
    vstd::arithmetic::div_mod::lemma_mod_twice(total as int, 0x1_0000_0000);
    vstd::arithmetic::div_mod::lemma_add_mod_noop(
        (total % 0x1_0000_0000) as int,
        word as int,
        0x1_0000_0000,
    );
}

/// The running sum of the words of `bytes`, started from `sum` and wrapped at 32 bits.
fn wrapped_word_sum(sum: u32, bytes: &[u8]) -> (acc: u64)
    ensures
        acc as nat == (sum as nat + word_sum(bytes@)) % 0x1_0000_0000,
{
    let len: usize = bytes.len();
    let mut acc: u64 = sum as u64;
    let mut i: usize = 0;
    assert(bytes@.subrange(0, 0) =~= Seq::<u8>::empty());
    while i + 1 < len
        invariant
            i % 2 == 0,
            i <= len,
            len == bytes@.len(),
            acc < 0x1_0000_0000,
            acc as nat == (sum as nat + word_sum(bytes@.subrange(0, i as int))) % 0x1_0000_0000,
        decreases len - i,
    {
        let word: u64 = (bytes[i] as u64) * 256 + (bytes[i + 1] as u64);
        proof {
            let prefix = bytes@.subrange(0, i as int);
            lemma_word_sum_push_word(prefix, bytes@[i as int], bytes@[i + 1]);
            assert(prefix.push(bytes@[i as int]).push(bytes@[i + 1]) =~= bytes@.subrange(0, i + 2));
            lemma_wrapping_step(sum as nat + word_sum(prefix), word as nat);
        }
        acc = (acc + word) % 0x1_0000_0000;
        i = i + 2;
    }
    if i < len {
        let word: u64 = (bytes[i] as u64) * 256;
        proof {
            let prefix = bytes@.subrange(0, i as int);
            lemma_word_sum_push_odd(prefix, bytes@[i as int]);
            assert(prefix.push(bytes@[i as int]) =~= bytes@);
            lemma_wrapping_step(sum as nat + word_sum(prefix), word as nat);
        }
        acc = (acc + word) % 0x1_0000_0000;
    } else {
        assert(bytes@.subrange(0, i as int) =~= bytes@);
    }
    acc
}

/// Folds a sum of under 32 bits into 16 bits with end-around carry.
fn fold_carries(total: u64) -> (r: u16)
    requires
        total < 0x1_0000_0000,
    ensures
        r as nat == fold16(total as nat),
{
    let mut acc: u64 = total;
    while acc >= 0x1_0000
        invariant
            acc < 0x1_0000_0000,
            fold16(acc as nat) == fold16(total as nat),
        decreases acc,
    {
        proof {
            lemma_fold_step(acc as nat);
        }
        acc = (acc % 0x1_0000) + (acc / 0x1_0000);
    }
    proof {
        lemma_fold16_bound(acc as nat);
    }
    acc as u16
}

/// Compute the ones' complement checksum over a byte slice.
pub fn ones_complement(sum: u32, bytes: &[u8]) -> (r: u16)
    ensures
        r == ones_complement_spec(sum, bytes@),
{
    let total = wrapped_word_sum(sum, bytes);
    let folded = fold_carries(total);
    proof {
        lemma_fold16_bound(total as nat);
    }
    0xFFFF - folded
}

/// Compute IPv4 header checksum.
pub fn ipv4_header(header: &[u8]) -> (r: u16)
    ensures
        r == ones_complement_spec(0, header@),
{
    ones_complement(0, header)
}

/// The pseudo-header that TCP and UDP checksums cover over IPv4.
pub open spec fn pseudo_header_v4(src: u32, dst: u32, protocol: u8, len: nat) -> Seq<u8> {
    be_bytes(src as nat, 4) + be_bytes(dst as nat, 4) + seq![0u8, protocol] + be_bytes(
        len % 0x1_0000,
        2,
    )
}

/// The pseudo-header that TCP, UDP and ICMPv6 checksums cover over IPv6.
pub open spec fn pseudo_header_v6(src: u128, dst: u128, next_header: u8, len: nat) -> Seq<u8> {
    be_bytes(src as nat, 16) + be_bytes(dst as nat, 16) + be_bytes(len % 0x1_0000_0000, 4) + seq![
        0u8,
        0u8,
        0u8,
        next_header,
    ]
}

fn checksum_v4(src: u32, dst: u32, protocol: u8, segment: &[u8]) -> (r: u16)
    ensures
        r == ones_complement_spec(0, pseudo_header_v4(src, dst, protocol, segment@.len()) + segment@),
{
    let len: usize = segment.len();
    let mut buffer: Vec<u8> = Vec::new();
    push_be32(&mut buffer, src);
    push_be32(&mut buffer, dst);
    buffer.push(0);
    buffer.push(protocol);
    push_be16(&mut buffer, (len % 0x1_0000) as u16);
    assert(buffer@ =~= pseudo_header_v4(src, dst, protocol, segment@.len()));
    let mut i: usize = 0;
    while i < len
        invariant
            i <= len,
            len == segment@.len(),
            buffer@ =~= pseudo_header_v4(src, dst, protocol, segment@.len()) + segment@.subrange(
                0,
                i as int,
            ),
        decreases len - i,
    {
        buffer.push(segment[i]);
        i = i + 1;
    }
    assert(segment@.subrange(0, len as int) =~= segment@);
    ones_complement(0, buffer.as_slice())
}

fn checksum_v6(src: u128, dst: u128, next_header: u8, segment: &[u8]) -> (r: u16)
    ensures
        r == ones_complement_spec(
            0,
            pseudo_header_v6(src, dst, next_header, segment@.len()) + segment@,
        ),
{
    let len: usize = segment.len();
    let mut buffer: Vec<u8> = Vec::new();
    crate::bytes::push_be128(&mut buffer, src);
    crate::bytes::push_be128(&mut buffer, dst);
    push_be32(&mut buffer, ((len as u64) % 0x1_0000_0000) as u32);
    buffer.push(0);
    buffer.push(0);
    buffer.push(0);
    buffer.push(next_header);
    assert(buffer@ =~= pseudo_header_v6(src, dst, next_header, segment@.len()));
    let mut i: usize = 0;
    while i < len
        invariant
            i <= len,
            len == segment@.len(),
            buffer@ =~= pseudo_header_v6(src, dst, next_header, segment@.len())
                + segment@.subrange(0, i as int),
        decreases len - i,
    {
        buffer.push(segment[i]);
        i = i + 1;
    }
    assert(segment@.subrange(0, len as int) =~= segment@);
    ones_complement(0, buffer.as_slice())
}

/// Compute TCP checksum over IPv4 pseudo-header + segment.
pub fn tcp_ipv4(src: u32, dst: u32, segment: &[u8]) -> (r: u16)
    ensures
        r == ones_complement_spec(0, pseudo_header_v4(src, dst, 6, segment@.len()) + segment@),
{
    checksum_v4(src, dst, 6, segment)
}

/// Compute TCP checksum over IPv6 pseudo-header + segment.
pub fn tcp_ipv6(src: u128, dst: u128, segment: &[u8]) -> (r: u16)
    ensures
        r == ones_complement_spec(0, pseudo_header_v6(src, dst, 6, segment@.len()) + segment@),
{
    checksum_v6(src, dst, 6, segment)
}

/// Compute ICMPv6 checksum over IPv6 pseudo-header + message.
pub fn icmpv6(src: u128, dst: u128, message: &[u8]) -> (r: u16)
    ensures
        r == ones_complement_spec(0, pseudo_header_v6(src, dst, 58, message@.len()) + message@),
{
    checksum_v6(src, dst, 58, message)
}

/// Compute UDP checksum over IPv4 pseudo-header + segment.
pub fn udp_ipv4(src: u32, dst: u32, segment: &[u8]) -> (r: u16)
    ensures
        r == ones_complement_spec(0, pseudo_header_v4(src, dst, 17, segment@.len()) + segment@),
{
    checksum_v4(src, dst, 17, segment)
}

/// Compute UDP checksum over IPv6 pseudo-header + segment.
pub fn udp_ipv6(src: u128, dst: u128, segment: &[u8]) -> (r: u16)
    ensures
        r == ones_complement_spec(0, pseudo_header_v6(src, dst, 17, segment@.len()) + segment@),
{
    checksum_v6(src, dst, 17, segment)
}

} // verus!
