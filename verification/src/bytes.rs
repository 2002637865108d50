//! Big-endian integers as byte sequences, and the executable readers and
//! writers that the packet codec is built from.

use vstd::prelude::*;

verus! {

/// `256^n`.
pub open spec fn pow256(n: nat) -> nat
    decreases n,
{
    if n == 0 {
        1
    } else {
        256 * pow256((n - 1) as nat)
    }
}

/// The `n` low-order bytes of `x`, most significant first.
pub open spec fn be_bytes(x: nat, n: nat) -> Seq<u8>
    decreases n,
{
    if n == 0 {
        Seq::empty()
    } else {
        be_bytes(x / 256, (n - 1) as nat).push((x % 256) as u8)
    }
}

/// The number that `bytes` spells, most significant byte first.
pub open spec fn be_value(bytes: Seq<u8>) -> nat
    decreases bytes.len(),
{
    if bytes.len() == 0 {
        0
    } else {
        be_value(bytes.drop_last()) * 256 + bytes.last() as nat
    }
}

/// The powers of 256 that the codecs use.
pub proof fn lemma_pow256_values()
    ensures
        pow256(0) == 1,
        pow256(1) == 0x100,
        pow256(2) == 0x1_0000,
        pow256(4) == 0x1_0000_0000,
        pow256(8) == 0x1_0000_0000_0000_0000,
        pow256(16) == 0x1_0000_0000_0000_0000_0000_0000_0000_0000,
{
    reveal_with_fuel(pow256, 17);
}

/// `be_bytes(x, n)` has `n` bytes.
pub proof fn lemma_be_bytes_len(x: nat, n: nat)
    ensures
        be_bytes(x, n).len() == n,
    decreases n,
{
    if n > 0 {
        lemma_be_bytes_len(x / 256, (n - 1) as nat);
    }
}

/// The value of `n` bytes is below `256^n`.
pub proof fn lemma_be_value_bound(bytes: Seq<u8>)
    ensures
        be_value(bytes) < pow256(bytes.len()),
    decreases bytes.len(),
{
    if bytes.len() > 0 {
        lemma_be_value_bound(bytes.drop_last());
    }
}

/// Writing a number that fits in `n` bytes and reading it back gives the number.
pub proof fn lemma_be_value_of_bytes(x: nat, n: nat)
    requires
        x < pow256(n),
    ensures
        be_value(be_bytes(x, n)) == x,
    decreases n,
{
    if n > 0 {
        lemma_be_bytes_len(x / 256, (n - 1) as nat);
        lemma_be_value_of_bytes(x / 256, (n - 1) as nat);
        let b = be_bytes(x, n);
        assert(b.drop_last() =~= be_bytes(x / 256, (n - 1) as nat));
    }
}

/// Reading bytes and writing the number back gives the bytes.
pub proof fn lemma_be_bytes_of_value(bytes: Seq<u8>)
    ensures
        be_bytes(be_value(bytes), bytes.len()) == bytes,
    decreases bytes.len(),
{
    if bytes.len() > 0 {
        lemma_be_bytes_of_value(bytes.drop_last());
        let v = be_value(bytes);
        assert(v / 256 == be_value(bytes.drop_last()));
        assert(v % 256 == bytes.last() as nat);
        assert(be_bytes(v, bytes.len()) =~= bytes);
    }
}

/// The two bytes of a number, written out.
pub proof fn lemma_be_bytes_2(x: nat)
    ensures
        be_bytes(x, 2) == seq![((x / 256) % 256) as u8, (x % 256) as u8],
{
    reveal_with_fuel(be_bytes, 3);
    assert(be_bytes(x, 2) =~= seq![((x / 256) % 256) as u8, (x % 256) as u8]);
}

/// The four bytes of a number, written out.
pub proof fn lemma_be_bytes_4(x: nat)
    ensures
        be_bytes(x, 4) == seq![
            ((x / 0x100_0000) % 256) as u8,
            ((x / 0x1_0000) % 256) as u8,
            ((x / 256) % 256) as u8,
            (x % 256) as u8,
        ],
{
    reveal_with_fuel(be_bytes, 5);
    assert(x / 256 / 256 == x / 0x1_0000);
    assert(x / 256 / 256 / 256 == x / 0x100_0000);
    assert(be_bytes(x, 4) =~= seq![
        ((x / 0x100_0000) % 256) as u8,
        ((x / 0x1_0000) % 256) as u8,
        ((x / 256) % 256) as u8,
        (x % 256) as u8,
    ]);
}

/// The value of two bytes, written out.
pub proof fn lemma_be_value_2(b0: u8, b1: u8)
    ensures
        be_value(seq![b0, b1]) == b0 as nat * 256 + b1 as nat,
{
    reveal_with_fuel(be_value, 3);
    let s = seq![b0, b1];
    assert(s.drop_last() =~= seq![b0]);
    assert(s.drop_last().drop_last() =~= Seq::<u8>::empty());
}

/// The value of four bytes, written out.
pub proof fn lemma_be_value_4(b0: u8, b1: u8, b2: u8, b3: u8)
    ensures
        be_value(seq![b0, b1, b2, b3]) == b0 as nat * 0x100_0000 + b1 as nat * 0x1_0000 + b2 as nat
            * 256 + b3 as nat,
{
    reveal_with_fuel(be_value, 5);
    let s = seq![b0, b1, b2, b3];
    assert(s.drop_last() =~= seq![b0, b1, b2]);
    assert(s.drop_last().drop_last() =~= seq![b0, b1]);
    assert(s.drop_last().drop_last().drop_last() =~= seq![b0]);
    assert(s.drop_last().drop_last().drop_last().drop_last() =~= Seq::<u8>::empty());
}

/// Reads the two bytes at `off` as a big-endian number.
pub fn read_be16(buf: &[u8], off: usize) -> (r: u16)
    requires
        off + 2 <= buf@.len(),
    ensures
        r as nat == be_value(buf@.subrange(off as int, off + 2)),
        r == buf@[off as int] as nat * 256 + buf@[off + 1] as nat,
{
    proof {
        lemma_be_value_2(buf@[off as int], buf@[off + 1]);
        assert(buf@.subrange(off as int, off + 2) =~= seq![buf@[off as int], buf@[off + 1]]);
    }
    (buf[off] as u16) * 256 + (buf[off + 1] as u16)
}

/// Reads the four bytes at `off` as a big-endian number.
pub fn read_be32(buf: &[u8], off: usize) -> (r: u32)
    requires
        off + 4 <= buf@.len(),
    ensures
        r as nat == be_value(buf@.subrange(off as int, off + 4)),
{
    proof {
        lemma_be_value_4(buf@[off as int], buf@[off + 1], buf@[off + 2], buf@[off + 3]);
        assert(buf@.subrange(off as int, off + 4) =~= seq![
            buf@[off as int],
            buf@[off + 1],
            buf@[off + 2],
            buf@[off + 3],
        ]);
    }
    (buf[off] as u32) * 0x100_0000 + (buf[off + 1] as u32) * 0x1_0000 + (buf[off + 2] as u32) * 256
        + (buf[off + 3] as u32)
}

/// Reads the sixteen bytes at `off` as a big-endian number.
pub fn read_be128(buf: &[u8], off: usize) -> (r: u128)
    requires
        off + 16 <= buf@.len(),
    ensures
        r as nat == be_value(buf@.subrange(off as int, off + 16)),
{
    let mut acc: u128 = 0;
    let mut i: usize = 0;
    let len: usize = buf.len();
    proof {
        lemma_pow256_values();
        assert(buf@.subrange(off as int, off as int) =~= Seq::<u8>::empty());
    }
    while i < 16
        invariant
            i <= 16,
            off + 16 <= buf@.len() == len,
            acc as nat == be_value(buf@.subrange(off as int, off + i)),
        decreases 16 - i,
    {
        proof {
            let prefix = buf@.subrange(off as int, off + i);
            let next = buf@.subrange(off as int, off + i + 1);
            assert(next.drop_last() =~= prefix);
            assert(next.last() == buf@[off + i]);
            lemma_be_value_bound(prefix);
            lemma_be_value_bound(next);
            lemma_pow256_monotonic((i + 1) as nat, 16);
            lemma_pow256_values();
        }
        acc = acc * 256 + (buf[off + i] as u128);
        i = i + 1;
    }
    acc
}

/// A larger exponent gives no smaller power of 256.
pub proof fn lemma_pow256_monotonic(a: nat, b: nat)
    requires
        a <= b,
    ensures
        pow256(a) <= pow256(b),
    decreases b,
{
    if a < b {
        lemma_pow256_monotonic(a, (b - 1) as nat);
    }
}

/// Appends `x` to `out` as two bytes, most significant first.
pub fn push_be16(out: &mut Vec<u8>, x: u16)
    ensures
        final(out)@ == old(out)@ + be_bytes(x as nat, 2),
{
    proof {
        lemma_be_bytes_2(x as nat);
    }
    out.push((x / 256) as u8);
    out.push((x % 256) as u8);
    assert(out@ =~= old(out)@ + be_bytes(x as nat, 2));
}

/// Appends `x` to `out` as four bytes, most significant first.
pub fn push_be32(out: &mut Vec<u8>, x: u32)
    ensures
        final(out)@ == old(out)@ + be_bytes(x as nat, 4),
{
    proof {
        lemma_be_bytes_4(x as nat);
    }
    out.push((x / 0x100_0000) as u8);
    out.push(((x / 0x1_0000) % 256) as u8);
    out.push(((x / 256) % 256) as u8);
    out.push((x % 256) as u8);
    assert(out@ =~= old(out)@ + be_bytes(x as nat, 4));
}

/// Appends `x` to `out` as sixteen bytes, most significant first.
pub fn push_be128(out: &mut Vec<u8>, x: u128)
    ensures
        final(out)@ == old(out)@ + be_bytes(x as nat, 16),
{
    let mut digits: Vec<u8> = Vec::new();
    let mut rest: u128 = x;
    let mut i: usize = 0;
    // `digits` collects the bytes least significant first.
    while i < 16
        invariant
            i <= 16,
            digits@.len() == i,
            be_bytes(x as nat, 16) =~= be_bytes(rest as nat, (16 - i) as nat) + Seq::new(
                i as nat,
                |k: int| digits@[i - 1 - k],
            ),
        decreases 16 - i,
    {
        let ghost before = digits@;
        let ghost r0 = rest;
        digits.push((rest % 256) as u8);
        rest = rest / 256;
        i = i + 1;
        proof {
            lemma_be_bytes_len(rest as nat, (16 - i) as nat);
            let tail_old = Seq::new((i - 1) as nat, |k: int| before[i - 2 - k]);
            let tail_new = Seq::new(i as nat, |k: int| digits@[i - 1 - k]);
            assert(be_bytes(r0 as nat, (17 - i) as nat) == be_bytes(rest as nat, (16 - i) as nat).push(
                (r0 % 256) as u8,
            ));
            assert(be_bytes(rest as nat, (16 - i) as nat).push((r0 % 256) as u8) + tail_old
                =~= be_bytes(rest as nat, (16 - i) as nat) + tail_new);
        }
    }
    let mut j: usize = 16;
    while j > 0
        invariant
            j <= 16,
            digits@.len() == 16,
            out@ =~= old(out)@ + Seq::new((16 - j) as nat, |k: int| digits@[15 - k]),
        decreases j,
    {
        j = j - 1;
        out.push(digits[j]);
    }
    proof {
        assert(be_bytes(rest as nat, 0) =~= Seq::<u8>::empty());
        assert(out@ =~= old(out)@ + be_bytes(x as nat, 16));
    }
}

} // verus!
