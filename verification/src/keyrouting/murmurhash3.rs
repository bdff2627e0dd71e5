//! MurmurHash3 x64 128-bit, returning the first 64 bits.
//!
//! Partition keys are hashed with it for deterministic node routing, so the
//! values agree with those of the Alternator clients in other languages.

use vstd::arithmetic::div_mod::{lemma_mul_mod_noop, lemma_small_mod};
use vstd::prelude::*;

verus! {

/// First lane multiplier.
pub const C1: u64 = 0x87c37b91114253d5;

/// Second lane multiplier.
pub const C2: u64 = 0x4cf5ad432745937f;

/// First avalanche multiplier.
pub const FMIX1: u64 = 0xff51afd7ed558ccd;

/// Second avalanche multiplier.
pub const FMIX2: u64 = 0xc4ceb9fe1a85ec53;

/// The number of bytes in one block.
pub const BLOCK: usize = 16;

/// `x` rotated left by `n` bits.
pub open spec fn rotated(x: u64, n: u64) -> u64 {
    (x << n) | (x >> ((64 - n) as u64))
}

/// The value of `bytes` read as a little-endian number.
pub open spec fn le_value(bytes: Seq<u8>) -> nat
    decreases bytes.len(),
{
    if bytes.len() == 0 {
        0
    } else {
        bytes[0] as nat + 256 * le_value(bytes.drop_first())
    }
}

/// The scrambled first lane of a block.
pub open spec fn lane1(k: u64) -> u64 {
    rotated(k.wrapping_mul(C1), 31).wrapping_mul(C2)
}

/// The scrambled second lane of a block.
pub open spec fn lane2(k: u64) -> u64 {
    rotated(k.wrapping_mul(C2), 33).wrapping_mul(C1)
}

/// The state after absorbing one block with lanes `k1` and `k2`.
pub open spec fn absorbed(h: (u64, u64), k1: u64, k2: u64) -> (u64, u64) {
    let h1 = rotated(h.0 ^ lane1(k1), 27).wrapping_add(h.1).wrapping_mul(5).wrapping_add(
        0x52dce729,
    );
    let h2 = rotated(h.1 ^ lane2(k2), 31).wrapping_add(h1).wrapping_mul(5).wrapping_add(0x38495ab5);
    (h1, h2)
}

/// The state after the first `n` whole blocks of `data`.
pub open spec fn after_blocks(data: Seq<u8>, n: nat) -> (u64, u64)
    decreases n,
{
    if n == 0 {
        (0, 0)
    } else {
        absorbed(
            after_blocks(data, (n - 1) as nat),
            le_value(data.subrange(16 * (n - 1), 16 * (n - 1) + 8)) as u64,
            le_value(data.subrange(16 * (n - 1) + 8, 16 * n as int)) as u64,
        )
    }
}

/// The state after the bytes that follow the last whole block.
pub open spec fn after_tail(h: (u64, u64), tail: Seq<u8>) -> (u64, u64) {
    let k1 = le_value(tail.take(if tail.len() < 8 { tail.len() as int } else { 8 })) as u64;
    let k2 = le_value(tail.skip(8)) as u64;
    (
        if tail.len() > 0 { h.0 ^ lane1(k1) } else { h.0 },
        if tail.len() > 8 { h.1 ^ lane2(k2) } else { h.1 },
    )
}

/// The final avalanche of one 64-bit half.
pub open spec fn avalanche(k: u64) -> u64 {
    let a = (k ^ (k >> 33)).wrapping_mul(FMIX1);
    let b = (a ^ (a >> 33)).wrapping_mul(FMIX2);
    b ^ (b >> 33)
}

/// The first half of the hash, from the state after all bytes and their count.
pub open spec fn finished(h: (u64, u64), len: u64) -> u64 {
    let h1 = (h.0 ^ len).wrapping_add(h.1 ^ len);
    let h2 = (h.1 ^ len).wrapping_add(h1);
    avalanche(h1).wrapping_add(avalanche(h2))
}

/// The first 64 bits of MurmurHash3 x64 128-bit of `data` with seed zero.
pub open spec fn murmur3(data: Seq<u8>) -> u64 {
    let blocks = data.len() / 16;
    finished(
        after_tail(after_blocks(data, blocks), data.skip(16 * blocks as int)),
        data.len() as u64,
    )
}

/// The power of 256 that bounds a little-endian number of `n` bytes.
spec fn le_bound(n: nat) -> nat
    decreases n,
{
    if n == 0 {
        1
    } else {
        256 * le_bound((n - 1) as nat)
    }
}

proof fn lemma_le_value_bound(bytes: Seq<u8>)
    ensures
        le_value(bytes) < le_bound(bytes.len()),
    decreases bytes.len(),
{
    if bytes.len() > 0 {
        lemma_le_value_bound(bytes.drop_first());
    }
}

proof fn lemma_le_value_fits(bytes: Seq<u8>)
    requires
        bytes.len() <= 8,
    ensures
        le_value(bytes) <= u64::MAX,
{
    lemma_le_value_bound(bytes);
    reveal_with_fuel(le_bound, 9);
}

fn rotate(x: u64, n: u64) -> (r: u64)
    requires
        0 < n < 64,
    ensures
        r == rotated(x, n),
{
    (x << n) | (x >> (64 - n))
}

/// Reads `data[from..to]` as a little-endian number.
fn read_le(data: &[u8], from: usize, to: usize) -> (r: u64)
    requires
        from <= to <= data.len(),
        to - from <= 8,
    ensures
        r == le_value(data@.subrange(from as int, to as int)),
{
    let mut v: u64 = 0;
    let mut i: usize = to;
    while i > from
        invariant
            from <= i <= to <= data.len(),
            to - from <= 8,
            v == le_value(data@.subrange(i as int, to as int)),
        decreases i,
    {
        let ghost rest = data@.subrange(i as int, to as int);
        let ghost more = data@.subrange(i - 1, to as int);
        i = i - 1;
        proof {
            assert(more.drop_first() =~= rest);
            lemma_le_value_fits(more);
        }
        v = v * 256 + data[i] as u64;
    }
    v
}

fn scramble1(k: u64) -> (r: u64)
    ensures
        r == lane1(k),
{
    rotate(k.wrapping_mul(C1), 31).wrapping_mul(C2)
}

fn scramble2(k: u64) -> (r: u64)
    ensures
        r == lane2(k),
{
    rotate(k.wrapping_mul(C2), 33).wrapping_mul(C1)
}

/// Computes MurmurHash3 x64 128-bit with seed zero and returns the first 64 bits.
pub fn hash(data: &[u8]) -> (r: u64)
    ensures
        r == murmur3(data@),
{
    let mut h1: u64 = 0;
    let mut h2: u64 = 0;
    let blocks: usize = data.len() / BLOCK;

    let mut n: usize = 0;
    while n < blocks
        invariant
            n <= blocks,
            blocks == data.len() / 16,
            (h1, h2) == after_blocks(data@, n as nat),
        decreases blocks - n,
    {
        let at: usize = n * BLOCK;
        let k1: u64 = read_le(data, at, at + 8);
        let k2: u64 = read_le(data, at + 8, at + BLOCK);
        h1 = rotate(h1 ^ scramble1(k1), 27).wrapping_add(h2).wrapping_mul(5).wrapping_add(
            0x52dce729,
        );
        h2 = rotate(h2 ^ scramble2(k2), 31).wrapping_add(h1).wrapping_mul(5).wrapping_add(
            0x38495ab5,
        );
        n = n + 1;
    }

    let start: usize = blocks * BLOCK;
    let ghost tail = data@.skip(start as int);
    if data.len() - start > 8 {
        let k2: u64 = read_le(data, start + 8, data.len());
        proof {
            assert(data@.subrange(start + 8, data@.len() as int) =~= tail.skip(8));
        }
        h2 = h2 ^ scramble2(k2);
    }
    if data.len() > start {
        let end: usize = if data.len() - start < 8 {
            data.len()
        } else {
            start + 8
        };
        let k1: u64 = read_le(data, start, end);
        proof {
            assert(data@.subrange(start as int, end as int) =~= tail.take(end - start));
        }
        h1 = h1 ^ scramble1(k1);
    }
    let len: u64 = data.len() as u64;
    h1 = h1 ^ len;
    h2 = h2 ^ len;
    h1 = h1.wrapping_add(h2);
    h2 = h2.wrapping_add(h1);
    fmix64(h1).wrapping_add(fmix64(h2))
}

/// The final avalanche of one 64-bit half. No two numbers have the same, and
/// zero stays zero.
pub fn fmix64(k: u64) -> (r: u64)
    ensures
        r == avalanche(k),
{
    let a: u64 = (k ^ (k >> 33)).wrapping_mul(FMIX1);
    let b: u64 = (a ^ (a >> 33)).wrapping_mul(FMIX2);
    b ^ (b >> 33)
}

/// The inverse of the first avalanche multiplier, modulo 2^64.
pub const FMIX1_INVERSE: u64 = 0x4f74430c22a54005;

/// The inverse of the second avalanche multiplier, modulo 2^64.
pub const FMIX2_INVERSE: u64 = 0x9cb4b2f8129337db;

proof fn lemma_product_one_to_one(a: u64, b: u64, c: u64, inverse: u64)
    requires
        (c as int * inverse as int) % 0x1_0000_0000_0000_0000 == 1,
        a.wrapping_mul(c) == b.wrapping_mul(c),
    ensures
        a == b,
{
    let m: int = 0x1_0000_0000_0000_0000;
    let (x, y, k, i) = (a as int, b as int, c as int, inverse as int);
    assert((x * k) % m == (y * k) % m);
    lemma_mul_mod_noop(x * k, i, m);
    lemma_mul_mod_noop(y * k, i, m);
    assert(((x * k) * i) % m == ((y * k) * i) % m);
    assert((x * k) * i == x * (k * i)) by (nonlinear_arith);
    assert((y * k) * i == y * (k * i)) by (nonlinear_arith);
    lemma_mul_mod_noop(x, k * i, m);
    lemma_mul_mod_noop(y, k * i, m);
    lemma_small_mod(a as nat, m as nat);
    lemma_small_mod(b as nat, m as nat);
}

/// The avalanche loses nothing: no two numbers have the same, and zero stays zero.
pub proof fn law_avalanche_is_one_to_one(a: u64, b: u64)
    ensures
        avalanche(a) == avalanche(b) ==> a == b,
        avalanche(0) == 0,
{
    assert(0u64 ^ (0u64 >> 33) == 0) by (bit_vector);
    if avalanche(a) == avalanche(b) {
        let (a1, b1) = ((a ^ (a >> 33)).wrapping_mul(FMIX1), (b ^ (b >> 33)).wrapping_mul(FMIX1));
        let (a2, b2) = (
            (a1 ^ (a1 >> 33)).wrapping_mul(FMIX2),
            (b1 ^ (b1 >> 33)).wrapping_mul(FMIX2),
        );
        assert(a2 ^ (a2 >> 33) == b2 ^ (b2 >> 33) ==> a2 == b2) by (bit_vector);
        lemma_product_one_to_one(a1 ^ (a1 >> 33), b1 ^ (b1 >> 33), FMIX2, FMIX2_INVERSE);
        assert(a1 ^ (a1 >> 33) == b1 ^ (b1 >> 33) ==> a1 == b1) by (bit_vector);
        lemma_product_one_to_one(a ^ (a >> 33), b ^ (b >> 33), FMIX1, FMIX1_INVERSE);
        assert(a ^ (a >> 33) == b ^ (b >> 33) ==> a == b) by (bit_vector);
    }
}

/// The inverse of the first lane multiplier, modulo 2^64.
pub const C1_INVERSE: u64 = 0xa98409e882ce4d7d;

/// The inverse of the second lane multiplier, modulo 2^64.
pub const C2_INVERSE: u64 = 0xa81e14edd9de2c7f;

/// The inverse of five, modulo 2^64.
pub const FIVE_INVERSE: u64 = 0xcccccccccccccccd;

/// The state after all bytes of `data`, before it is finished.
pub open spec fn state_of(data: Seq<u8>) -> (u64, u64) {
    let blocks = data.len() / 16;
    after_tail(after_blocks(data, blocks), data.skip(16 * blocks as int))
}

proof fn lemma_product_undone(a: u64, c: u64, inverse: u64)
    requires
        (c as int * inverse as int) % 0x1_0000_0000_0000_0000 == 1,
    ensures
        a.wrapping_mul(c).wrapping_mul(inverse) == a,
{
    let m: int = 0x1_0000_0000_0000_0000;
    let (x, k, i) = (a as int, c as int, inverse as int);
    lemma_mul_mod_noop(x * k, i, m);
    assert(((x * k) % m * i) % m == ((x * k) * i) % m) by {
        vstd::arithmetic::div_mod::lemma_mul_mod_noop_left(x * k, i, m);
    }
    assert((x * k) * i == x * (k * i)) by (nonlinear_arith);
    lemma_mul_mod_noop(x, k * i, m);
    lemma_small_mod(a as nat, m as nat);
}

/// A scrambled lane gives back the bytes that went into it.
pub proof fn law_lanes_can_be_undone(k: u64)
    ensures
        rotated(lane1(k).wrapping_mul(C2_INVERSE), 33).wrapping_mul(C1_INVERSE) == k,
        rotated(lane2(k).wrapping_mul(C1_INVERSE), 31).wrapping_mul(C2_INVERSE) == k,
{
    let x = k.wrapping_mul(C1);
    let y = k.wrapping_mul(C2);
    lemma_product_undone(k, C1, C1_INVERSE);
    lemma_product_undone(k, C2, C2_INVERSE);
    lemma_product_undone(rotated(x, 31), C2, C2_INVERSE);
    lemma_product_undone(rotated(y, 33), C1, C1_INVERSE);
    assert(((((x << 31) | (x >> 33)) << 33) | (((x << 31) | (x >> 33)) >> 31)) == x)
        by (bit_vector);
    assert(((((y << 33) | (y >> 31)) << 31) | (((y << 33) | (y >> 31)) >> 33)) == y)
        by (bit_vector);
}

/// Absorbing a block loses nothing of the state: what was there before can be
/// computed from what is there after it and from the block. So every block
/// counts in the state after all that follow.
pub proof fn law_absorbing_can_be_undone(h: (u64, u64), k1: u64, k2: u64)
    ensures
        ({
            let after = absorbed(h, k1, k2);
            let second = after.1.wrapping_sub(0x38495ab5).wrapping_mul(FIVE_INVERSE).wrapping_sub(
                after.0,
            );
            let first = after.0.wrapping_sub(0x52dce729).wrapping_mul(FIVE_INVERSE).wrapping_sub(
                h.1,
            );
            &&& h.1 == rotated(second, 33) ^ lane2(k2)
            &&& h.0 == rotated(first, 37) ^ lane1(k1)
        }),
{
    let x = h.0 ^ lane1(k1);
    let y = h.1 ^ lane2(k2);
    let (l1, l2) = (lane1(k1), lane2(k2));
    let (h0, h1) = h;
    let after = absorbed(h, k1, k2);
    let u = rotated(x, 27).wrapping_add(h.1);
    let v = rotated(y, 31).wrapping_add(after.0);
    lemma_product_undone(u, 5, FIVE_INVERSE);
    lemma_product_undone(v, 5, FIVE_INVERSE);
    assert(u.wrapping_mul(5).wrapping_add(0x52dce729).wrapping_sub(0x52dce729) == u.wrapping_mul(
        5,
    ));
    assert(v.wrapping_mul(5).wrapping_add(0x38495ab5).wrapping_sub(0x38495ab5) == v.wrapping_mul(
        5,
    ));
    assert(u.wrapping_sub(h.1) == rotated(x, 27));
    assert(v.wrapping_sub(after.0) == rotated(y, 31));
    assert(((((x << 27) | (x >> 37)) << 37) | (((x << 27) | (x >> 37)) >> 27)) == x)
        by (bit_vector);
    assert(((((y << 31) | (y >> 33)) << 33) | (((y << 31) | (y >> 33)) >> 31)) == y)
        by (bit_vector);
    assert((h0 ^ l1) ^ l1 == h0) by (bit_vector);
    assert((h1 ^ l2) ^ l2 == h1) by (bit_vector);
}

proof fn lemma_le_value_one_to_one(a: Seq<u8>, b: Seq<u8>)
    requires
        a.len() == b.len(),
        le_value(a) == le_value(b),
    ensures
        a == b,
    decreases a.len(),
{
    if a.len() > 0 {
        let (x, y) = (le_value(a.drop_first()) as int, le_value(b.drop_first()) as int);
        assert(a[0] as int - b[0] as int == 256 * (y - x));
        assert(x == y && a[0] == b[0]);
        lemma_le_value_one_to_one(a.drop_first(), b.drop_first());
        assert(a =~= seq![a[0]] + a.drop_first());
        assert(b =~= seq![b[0]] + b.drop_first());
    } else {
        assert(a =~= b);
    }
}

/// Numbers are read little-endian: a byte that follows counts 256 times as
/// much as the one before it.
pub proof fn law_later_bytes_weigh_more(bytes: Seq<u8>, last: u8)
    ensures
        le_value(bytes.push(last)) == le_value(bytes) + last * le_value(
            Seq::new(bytes.len(), |i: int| 0u8).push(1),
        ),
        le_value(seq![last]) == last,
    decreases bytes.len(),
{
    let all = bytes.push(last);
    let one = Seq::new(bytes.len(), |i: int| 0u8).push(1u8);
    assert(seq![last].drop_first() =~= Seq::empty());
    assert(seq![1u8].drop_first() =~= Seq::empty());
    assert(le_value(Seq::<u8>::empty()) == 0);
    if bytes.len() == 0 {
        assert(all =~= seq![last]);
        assert(one =~= seq![1u8]);
        assert(last * 1 == last);
    } else {
        let rest = bytes.drop_first();
        law_later_bytes_weigh_more(rest, last);
        assert(all.drop_first() =~= rest.push(last));
        assert(one.drop_first() =~= Seq::new(rest.len(), |i: int| 0u8).push(1u8));
        let w = le_value(Seq::new(rest.len(), |i: int| 0u8).push(1u8)) as int;
        assert(256 * (last * w) == last * (256 * w)) by (nonlinear_arith);
    }
}

/// Every block carries the state before it on: where two inputs have the same
/// block at the same place, the states after it are the same exactly where
/// those before it are. And from the same state, only the same block leads to
/// the same state.
pub proof fn law_blocks_carry_the_state(a: Seq<u8>, b: Seq<u8>, n: nat)
    requires
        16 * (n + 1) <= a.len(),
        16 * (n + 1) <= b.len(),
    ensures
        ({
            let same_block = a.subrange(16 * n as int, 16 * n as int + 16) == b.subrange(
                16 * n as int,
                16 * n as int + 16,
            );
            let same_before = after_blocks(a, n) == after_blocks(b, n);
            let same_after = after_blocks(a, n + 1) == after_blocks(b, n + 1);
            &&& same_block ==> (same_before <==> same_after)
            &&& same_before ==> (same_block <==> same_after)
        }),
{
    let (ba, bb) = (
        a.subrange(16 * n as int, 16 * n as int + 16),
        b.subrange(16 * n as int, 16 * n as int + 16),
    );
    let (a1, a2) = (
        a.subrange(16 * n as int, 16 * n as int + 8),
        a.subrange(16 * n as int + 8, 16 * (n + 1) as int),
    );
    let (b1, b2) = (
        b.subrange(16 * n as int, 16 * n as int + 8),
        b.subrange(16 * n as int + 8, 16 * (n + 1) as int),
    );
    assert(a1 =~= ba.take(8) && a2 =~= ba.skip(8) && b1 =~= bb.take(8) && b2 =~= bb.skip(8));
    assert(ba =~= a1 + a2 && bb =~= b1 + b2);
    lemma_le_value_fits(a1);
    lemma_le_value_fits(a2);
    lemma_le_value_fits(b1);
    lemma_le_value_fits(b2);
    let (ka, kb) = (
        (le_value(a1) as u64, le_value(a2) as u64),
        (le_value(b1) as u64, le_value(b2) as u64),
    );
    let (sa, sb) = (after_blocks(a, n), after_blocks(b, n));
    assert(after_blocks(a, n + 1) == absorbed(sa, ka.0, ka.1));
    assert(after_blocks(b, n + 1) == absorbed(sb, kb.0, kb.1));
    law_absorbing_can_be_undone(sa, ka.0, ka.1);
    law_absorbing_can_be_undone(sb, kb.0, kb.1);
    if sa == sb && after_blocks(a, n + 1) == after_blocks(b, n + 1) {
        let (la, lb, ma, mb) = (lane1(ka.0), lane1(kb.0), lane2(ka.1), lane2(kb.1));
        let after = after_blocks(a, n + 1);
        let second = rotated(
            after.1.wrapping_sub(0x38495ab5).wrapping_mul(FIVE_INVERSE).wrapping_sub(after.0),
            33,
        );
        let first = rotated(
            after.0.wrapping_sub(0x52dce729).wrapping_mul(FIVE_INVERSE).wrapping_sub(sa.1),
            37,
        );
        lemma_exclusive_or(la, lb, first);
        lemma_exclusive_or(ma, mb, second);
        lemma_lanes_one_to_one(ka.0, kb.0);
        lemma_lanes_one_to_one(ka.1, kb.1);
        lemma_le_value_one_to_one(a1, b1);
        lemma_le_value_one_to_one(a2, b2);
    }
}

proof fn lemma_blocks_by_bytes(a: Seq<u8>, b: Seq<u8>, n: nat)
    requires
        16 * n <= a.len(),
        16 * n <= b.len(),
        a.take(16 * n as int) == b.take(16 * n as int),
    ensures
        after_blocks(a, n) == after_blocks(b, n),
    decreases n,
{
    if n > 0 {
        let m = (n - 1) as nat;
        assert(a.take(16 * m as int) =~= a.take(16 * n as int).take(16 * m as int));
        assert(b.take(16 * m as int) =~= b.take(16 * n as int).take(16 * m as int));
        lemma_blocks_by_bytes(a, b, m);
        assert(a.subrange(16 * m as int, 16 * m as int + 16) =~= a.take(16 * n as int).skip(
            16 * m as int,
        ));
        assert(b.subrange(16 * m as int, 16 * m as int + 16) =~= b.take(16 * n as int).skip(
            16 * m as int,
        ));
        law_blocks_carry_the_state(a, b, m);
    }
}

proof fn lemma_difference_is_carried(a: Seq<u8>, b: Seq<u8>, m: nat, n: nat)
    requires
        m <= n,
        16 * n <= a.len(),
        a.len() == b.len(),
        after_blocks(a, m) != after_blocks(b, m),
        forall|i: int| 16 * m <= i < a.len() ==> a[i] == b[i],
    ensures
        after_blocks(a, n) != after_blocks(b, n),
    decreases n,
{
    if n > m {
        let k = (n - 1) as nat;
        lemma_difference_is_carried(a, b, m, k);
        assert(a.subrange(16 * k as int, 16 * k as int + 16) =~= b.subrange(16 * k as int, 16 * k as int + 16));
        law_blocks_carry_the_state(a, b, k);
    }
}

proof fn lemma_lanes_one_to_one(a: u64, b: u64)
    ensures
        lane1(a) == lane1(b) ==> a == b,
        lane2(a) == lane2(b) ==> a == b,
{
    law_lanes_can_be_undone(a);
    law_lanes_can_be_undone(b);
}

proof fn lemma_exclusive_or(a: u64, b: u64, c: u64)
    ensures
        a ^ c == b ^ c ==> a == b,
        c ^ a == c ^ b ==> a == b,
{
    assert(a ^ c == b ^ c ==> a == b) by (bit_vector);
    assert(c ^ a == c ^ b ==> a == b) by (bit_vector);
}

proof fn lemma_tails_differ(h: (u64, u64), a: Seq<u8>, b: Seq<u8>)
    requires
        a.len() == b.len(),
        a.len() < 16,
        after_tail(h, a) == after_tail(h, b),
    ensures
        a == b,
{
    let n = a.len() as int;
    let cut = if n < 8 { n } else { 8 };
    let (a1, b1) = (a.take(cut), b.take(cut));
    if n == 0 {
        assert(a =~= b);
    } else {
        lemma_le_value_fits(a1);
        lemma_le_value_fits(b1);
        let (ka, kb) = (le_value(a1) as u64, le_value(b1) as u64);
        assert(h.0 ^ lane1(ka) == h.0 ^ lane1(kb));
        lemma_exclusive_or(lane1(ka), lane1(kb), h.0);
        lemma_lanes_one_to_one(ka, kb);
        lemma_le_value_one_to_one(a1, b1);
        if n > 8 {
            let (a2, b2) = (a.skip(8), b.skip(8));
            lemma_le_value_fits(a2);
            lemma_le_value_fits(b2);
            let (ja, jb) = (le_value(a2) as u64, le_value(b2) as u64);
            assert(h.1 ^ lane2(ja) == h.1 ^ lane2(jb));
            lemma_exclusive_or(lane2(ja), lane2(jb), h.1);
            lemma_lanes_one_to_one(ja, jb);
            lemma_le_value_one_to_one(a2, b2);
            assert(a =~= a1 + a2 && b =~= b1 + b2);
        } else {
            assert(a =~= a1 && b =~= b1);
        }
    }
}

/// The bytes after the last whole block count as well: from the same state only
/// the same bytes lead to the same state, and the same bytes tell different
/// states apart.
pub proof fn law_tail_counts(g: (u64, u64), h: (u64, u64), a: Seq<u8>, b: Seq<u8>)
    requires
        a.len() == b.len(),
        a.len() < 16,
    ensures
        after_tail(h, a) == after_tail(h, b) <==> a == b,
        after_tail(g, a) == after_tail(h, a) <==> g == h,
        a.len() == 0 ==> after_tail(h, a) == h,
{
    let n = a.len() as int;
    if after_tail(h, a) == after_tail(h, b) {
        lemma_tails_differ(h, a, b);
    }
    let k1 = le_value(a.take(if n < 8 { n } else { 8 })) as u64;
    let k2 = le_value(a.skip(8)) as u64;
    lemma_exclusive_or(g.0, h.0, lane1(k1));
    lemma_exclusive_or(g.1, h.1, lane2(k2));
}

/// Zeros that are added after the last whole block change nothing there: they
/// count by the length alone.
pub proof fn law_zeros_count_by_length(h: (u64, u64), a: Seq<u8>)
    requires
        0 < a.len() < 15,
    ensures
        after_tail(h, a.push(0)) == after_tail(h, a),
{
    let n = a.len() as int;
    let h1 = h.1;
    let more = a.push(0u8);
    if n < 8 {
        assert(a.take(n) =~= a);
        assert(more.take(n + 1) =~= a.push(0u8));
        law_later_bytes_weigh_more(a, 0);
    } else {
        assert(more.take(8) =~= a.take(8));
        assert(more.skip(8) =~= a.skip(8).push(0u8));
        law_later_bytes_weigh_more(a.skip(8), 0);
        if n == 8 {
            assert(a.skip(8) =~= Seq::empty());
            assert(le_value(Seq::<u8>::empty()) == 0);
            assert(0u64.wrapping_mul(C2) == 0);
            assert(((0u64 << 33) | (0u64 >> 31)) == 0) by (bit_vector);
            assert(0u64.wrapping_mul(C1) == 0);
            assert(h1 ^ 0 == h1) by (bit_vector);
        }
    }
}

/// Every byte of the input counts: inputs of one length that differ within one
/// block, or in the bytes after the last one, and nowhere else, end in
/// different states.
pub proof fn law_every_byte_counts(a: Seq<u8>, b: Seq<u8>, m: nat)
    requires
        a.len() == b.len(),
        a != b,
        forall|i: int| 0 <= i < a.len() && !(16 * m <= i < 16 * m + 16) ==> a[i] == b[i],
    ensures
        state_of(a) != state_of(b),
{
    let blocks = a.len() / 16;
    let (ta, tb) = (a.skip(16 * blocks as int), b.skip(16 * blocks as int));
    let (sa, sb) = (after_blocks(a, blocks), after_blocks(b, blocks));
    if m < blocks {
        assert(ta =~= tb);
        assert(a.take(16 * m as int) =~= b.take(16 * m as int));
        lemma_blocks_by_bytes(a, b, m);
        let (ba, bb) = (
            a.subrange(16 * m as int, 16 * m as int + 16),
            b.subrange(16 * m as int, 16 * m as int + 16),
        );
        if ba == bb {
            assert forall|i: int| 0 <= i < a.len() implies a[i] == b[i] by {
                if 16 * m <= i < 16 * m + 16 {
                    assert(ba[i - 16 * m] == bb[i - 16 * m]);
                }
            }
            assert(a =~= b);
        }
        law_blocks_carry_the_state(a, b, m);
        lemma_difference_is_carried(a, b, m + 1, blocks);
        law_tail_counts(sa, sb, ta, tb);
    } else {
        assert(a.take(16 * blocks as int) =~= b.take(16 * blocks as int));
        lemma_blocks_by_bytes(a, b, blocks);
        if ta == tb {
            assert(a =~= a.take(16 * blocks as int) + ta);
            assert(b =~= b.take(16 * blocks as int) + tb);
        }
        law_tail_counts(sa, sb, ta, tb);
    }
}

/// The hash is the sum of two mixed halves, and the halves give the whole state
/// back, once the length is known. So where one half is the same, the hash tells
/// different states apart.
pub proof fn law_hash_holds_the_state(a: Seq<u8>)
    ensures
        exists|p: u64, q: u64|
            #![trigger avalanche(p), avalanche(q)]
            {
                let len = a.len() as u64;
                let second = q.wrapping_sub(p);
                &&& murmur3(a) == avalanche(p).wrapping_add(avalanche(q))
                &&& state_of(a) == (p.wrapping_sub(second) ^ len, second ^ len)
            },
{
    let len = a.len() as u64;
    let (h0, h1) = state_of(a);
    let p = (h0 ^ len).wrapping_add(h1 ^ len);
    let q = (h1 ^ len).wrapping_add(p);
    assert((h0 ^ len) ^ len == h0) by (bit_vector);
    assert((h1 ^ len) ^ len == h1) by (bit_vector);
    assert(q.wrapping_sub(p) == h1 ^ len);
    assert(p.wrapping_sub(h1 ^ len) == h0 ^ len);
    assert(murmur3(a) == avalanche(p).wrapping_add(avalanche(q)));
}

} // verus!
