use vstd::prelude::*;

use vstd::arithmetic::div_mod::{lemma_fundamental_div_mod, lemma_mod_division_less_than_divisor};

use rand_xorshift::XorShiftRng;

verus! {

/// The running state of the biased bit-stream generator: the byte being
/// assembled and the carry bit, which always equals the most recently
/// emitted bit.
#[derive(Clone, Copy, Debug, PartialEq, Eq, Structural)]
pub struct GenByteResult {
    pub byte: u8,
    pub bit: bool,
}

/// The mask selecting the bit a flip with index `i` writes: flips are
/// processed most-significant-bit first, so flip `i` targets bit `7 - i`.
pub open spec fn bit_mask(i: int) -> u8
    recommends
        0 <= i < 8,
{
    1u8 << ((7 - i) as u8)
}

/// One step of the generator: the new carry is the raw flip XOR-combined
/// with the old carry, and the targeted bit is set exactly when the new
/// carry is true.
pub open spec fn spec_step(acc: GenByteResult, i: int, flip: bool) -> GenByteResult
    recommends
        0 <= i < 8,
{
    let carry = flip != acc.bit;
    GenByteResult { byte: if carry { acc.byte | bit_mask(i) } else { acc.byte }, bit: carry }
}

/// The generator state after folding the first `i` flips over a cleared
/// byte, starting from carry `init`.
pub open spec fn spec_byte_upto(init: bool, flips: Seq<bool>, i: int) -> GenByteResult
    decreases i,
{
    if i <= 0 {
        GenByteResult { byte: 0u8, bit: init }
    } else {
        spec_step(spec_byte_upto(init, flips, i - 1), i - 1, flips[i - 1])
    }
}

/// One full output byte with its outgoing carry, built from the first eight
/// flips of `flips` starting from carry `init`.
pub open spec fn spec_byte(init: bool, flips: Seq<bool>) -> GenByteResult
    recommends
        flips.len() >= 8,
{
    spec_byte_upto(init, flips, 8)
}

/// The byte fold only reads the flips it consumes: two flip sequences that
/// agree on their first `i` elements fold to the same state.
pub proof fn lemma_byte_upto_agree(init: bool, f1: Seq<bool>, f2: Seq<bool>, i: int)
    requires
        forall|j: int| 0 <= j < i ==> f1[j] == f2[j],
    ensures
        spec_byte_upto(init, f1, i) == spec_byte_upto(init, f2, i),
    decreases i,
{
    if i > 0 {
        lemma_byte_upto_agree(init, f1, f2, i - 1);
    }
}

/// With no raw flip ever true the carry never changes, so the byte is a
/// uniform repeat of the initial carry: all-one for a true carry, all-zero
/// for a false one.
pub proof fn lemma_byte_all_false(init: bool, flips: Seq<bool>)
    requires
        forall|j: int| 0 <= j < 8 ==> !flips[j],
    ensures
        spec_byte(init, flips) == (GenByteResult {
            byte: if init {
                255u8
            } else {
                0u8
            },
            bit: init,
        }),
{
    reveal_with_fuel(spec_byte_upto, 9);
    if init {
        assert(((((((((0u8 | (1u8 << 7u8)) | (1u8 << 6u8)) | (1u8 << 5u8)) | (1u8 << 4u8)) | (1u8
            << 3u8)) | (1u8 << 2u8)) | (1u8 << 1u8)) | (1u8 << 0u8)) == 255u8) by (bit_vector);
    }
}

/// With every raw flip true the carry toggles at each step, so bits strictly
/// alternate: the byte is 0xAA for an initially false carry and 0x55 for an
/// initially true one, and the carry leaves the byte unchanged.
pub proof fn lemma_byte_all_true(init: bool, flips: Seq<bool>)
    requires
        forall|j: int| 0 <= j < 8 ==> flips[j],
    ensures
        spec_byte(init, flips) == (GenByteResult {
            byte: if init {
                85u8
            } else {
                170u8
            },
            bit: init,
        }),
{
    reveal_with_fuel(spec_byte_upto, 9);
    if init {
        assert(((((0u8 | (1u8 << 6u8)) | (1u8 << 4u8)) | (1u8 << 2u8)) | (1u8 << 0u8)) == 85u8)
            by (bit_vector);
    } else {
        assert(((((0u8 | (1u8 << 7u8)) | (1u8 << 5u8)) | (1u8 << 3u8)) | (1u8 << 1u8)) == 170u8)
            by (bit_vector);
    }
}

/// A cleared byte has every bit clear.
proof fn lemma_zero_and_mask(j: int)
    requires
        0 <= j < 8,
    ensures
        0u8 & bit_mask(j) == 0u8,
{
    let t = (7 - j) as u8;
    assert(0u8 & (1u8 << t) == 0u8) by (bit_vector);
}

/// Setting one clear bit leaves every other clear bit clear.
proof fn lemma_or_mask_keeps_zero(b: u8, s: u8, t: u8)
    requires
        s < 8,
        t < 8,
        s != t,
        b & (1u8 << t) == 0,
    ensures
        (b | (1u8 << s)) & (1u8 << t) == 0,
{
    assert((b | (1u8 << s)) & (1u8 << t) == 0) by (bit_vector)
        requires
            s < 8 && t < 8 && s != t && b & (1u8 << t) == 0,
    ;
}

/// Advances the generator by one flip. `bit_change` carries the flip index
/// (0 is the most significant bit) and the raw flip outcome; the targeted
/// bit of `acc.byte` must still be clear.
pub fn generate_bit(acc: GenByteResult, bit_change: (usize, bool)) -> (r: GenByteResult)
    requires
        bit_change.0 < 8,
        acc.byte & bit_mask(bit_change.0 as int) == 0,
    ensures
        r == spec_step(acc, bit_change.0 as int, bit_change.1),
{
    let val_bit: bool = bit_change.1 != acc.bit;
    let val: u8 = if val_bit {
        let mask: u8 = 1u8 << ((7 - bit_change.0) as u8);
        proof {
            let b = acc.byte;
            assert(b & mask == 0 ==> b + mask < 256 && (b | mask) == b + mask) by (bit_vector);
        }
        acc.byte + mask
    } else {
        acc.byte
    };
    GenByteResult { byte: val, bit: val_bit }
}

/// Folds the eight flips at `offset` into one output byte, starting from
/// carry `init`.
#[verifier::loop_isolation(false)]
pub fn byte_from_flips(init: bool, flips: &Vec<bool>, offset: usize) -> (r: GenByteResult)
    requires
        offset + 8 <= flips@.len(),
    ensures
        r == spec_byte(init, flips@.subrange(offset as int, offset as int + 8)),
{
    let ghost window: Seq<bool> = flips@.subrange(offset as int, offset as int + 8);
    // Binding the length as usize lets the prover see that offset + i fits.
    let flen: usize = flips.len();
    let mut acc = GenByteResult { byte: 0u8, bit: init };
    proof {
        assert forall|j: int| 0 <= j < 8 implies acc.byte & bit_mask(j) == 0u8 by {
            lemma_zero_and_mask(j);
        }
    }
    for i in 0..8usize
        invariant
            acc == spec_byte_upto(init, window, i as int),
            forall|j: int| i <= j < 8 ==> acc.byte & bit_mask(j) == 0,
    {
        proof {
            assert(acc.byte & bit_mask(i as int) == 0);
        }
        let prev = acc;
        acc = generate_bit(acc, (i, flips[offset + i]));
        proof {
            assert(window[i as int] == flips@[offset + i as int]);
            assert(acc == spec_step(prev, i as int, window[i as int]));
            assert forall|j: int| i + 1 <= j < 8 implies acc.byte & bit_mask(j) == 0 by {
                assert(prev.byte & bit_mask(j) == 0);
                if acc.byte != prev.byte {
                    lemma_or_mask_keeps_zero(prev.byte, (7 - i) as u8, (7 - j) as u8);
                }
            }
        }
    }
    acc
}

/// Draws eight biased flips with probability `numerator / denominator` from
/// `rng` and folds them into one output byte, starting from carry
/// `init_bit`. With probability zero the byte uniformly repeats the initial
/// carry; with probability one its bits strictly alternate from it; in
/// every case the outgoing carry equals the last emitted bit.
#[verifier::loop_isolation(false)]
pub fn generate_byte(
    numerator: u32,
    denominator: u32,
    rng: &mut XorShiftRng,
    init_bit: bool,
) -> (r: GenByteResult)
    requires
        denominator > 0,
        numerator <= denominator,
    ensures
        exists|flips: Seq<bool>| flips.len() == 8 && r == spec_byte(init_bit, flips),
        numerator == 0 ==> r == (GenByteResult {
            byte: if init_bit {
                255u8
            } else {
                0u8
            },
            bit: init_bit,
        }),
        numerator == denominator ==> r == (GenByteResult {
            byte: if init_bit {
                85u8
            } else {
                170u8
            },
            bit: init_bit,
        }),
{
    let ghost mut flips: Seq<bool> = Seq::empty();
    let mut acc = GenByteResult { byte: 0u8, bit: init_bit };
    proof {
        assert forall|j: int| 0 <= j < 8 implies acc.byte & bit_mask(j) == 0u8 by {
            lemma_zero_and_mask(j);
        }
    }
    for i in 0..8usize
        invariant
            flips.len() == i,
            acc == spec_byte_upto(init_bit, flips, i as int),
            forall|j: int| i <= j < 8 ==> acc.byte & bit_mask(j) == 0,
            numerator == 0 ==> forall|j: int| 0 <= j < i ==> !flips[j],
            numerator == denominator ==> forall|j: int| 0 <= j < i ==> flips[j],
    {
        let flip = crate::sampler::draw_flip(rng, numerator, denominator);
        let prev = acc;
        acc = generate_bit(acc, (i, flip));
        proof {
            let prev_flips = flips;
            flips = flips.push(flip);
            lemma_byte_upto_agree(init_bit, prev_flips, flips, i as int);
            assert(flips[i as int] == flip);
            assert(acc == spec_byte_upto(init_bit, flips, i as int + 1));
            assert forall|j: int| i + 1 <= j < 8 implies acc.byte & bit_mask(j) == 0 by {
                assert(prev.byte & bit_mask(j) == 0);
                if acc.byte != prev.byte {
                    lemma_or_mask_keeps_zero(prev.byte, (7 - i) as u8, (7 - j) as u8);
                }
            }
        }
    }
    proof {
        assert(flips.len() == 8 && acc == spec_byte(init_bit, flips));
        if numerator == 0 {
            lemma_byte_all_false(init_bit, flips);
        }
        if numerator == denominator {
            lemma_byte_all_true(init_bit, flips);
        }
    }
    acc
}

/// The `n` output bytes of a bit train: each byte consumes eight flips, and
/// the carry leaving one byte enters the next; the byte boundary is not a
/// reset point.
pub open spec fn spec_train_bytes(carry: bool, flips: Seq<bool>, n: int) -> Seq<u8>
    decreases n,
{
    if n <= 0 {
        Seq::empty()
    } else {
        seq![spec_byte(carry, flips).byte] + spec_train_bytes(
            spec_byte(carry, flips).bit,
            flips.skip(8),
            n - 1,
        )
    }
}

/// The carry left after a bit train of `n` bytes.
pub open spec fn spec_train_carry(carry: bool, flips: Seq<bool>, n: int) -> bool
    decreases n,
{
    if n <= 0 {
        carry
    } else {
        spec_train_carry(spec_byte(carry, flips).bit, flips.skip(8), n - 1)
    }
}

/// A bit train of `n` bytes has exactly `n` bytes.
pub proof fn lemma_train_len(carry: bool, flips: Seq<bool>, n: int)
    requires
        n >= 0,
    ensures
        spec_train_bytes(carry, flips, n).len() == n,
    decreases n,
{
    if n > 0 {
        lemma_train_len(spec_byte(carry, flips).bit, flips.skip(8), n - 1);
    }
}

/// Extending a bit train by one byte appends the byte built from the next
/// eight flips, starting from the carry the train left behind.
pub proof fn lemma_train_snoc(carry: bool, flips: Seq<bool>, n: int)
    requires
        n >= 0,
        flips.len() >= 8 * (n + 1),
    ensures
        spec_train_bytes(carry, flips, n + 1) == spec_train_bytes(carry, flips, n).push(
            spec_byte(spec_train_carry(carry, flips, n), flips.skip(8 * n)).byte,
        ),
        spec_train_carry(carry, flips, n + 1) == spec_byte(
            spec_train_carry(carry, flips, n),
            flips.skip(8 * n),
        ).bit,
    decreases n,
{
    if n == 0 {
        reveal_with_fuel(spec_train_bytes, 3);
        reveal_with_fuel(spec_train_carry, 3);
        assert(flips.skip(0) == flips);
        assert(spec_train_bytes(carry, flips, 1) =~= spec_train_bytes(carry, flips, 0).push(
            spec_byte(carry, flips).byte,
        ));
    } else {
        let c1 = spec_byte(carry, flips).bit;
        lemma_train_snoc(c1, flips.skip(8), n - 1);
        assert(flips.skip(8).skip(8 * (n - 1)) =~= flips.skip(8 * n));
        assert(spec_train_bytes(carry, flips, n + 1) =~= spec_train_bytes(carry, flips, n).push(
            spec_byte(spec_train_carry(carry, flips, n), flips.skip(8 * n)).byte,
        ));
    }
}

/// Builds the `length` bytes of a bit train from already-drawn raw flips,
/// threading the carry across byte boundaries.
#[verifier::loop_isolation(false)]
pub fn bit_train_bytes(init: bool, flips: &Vec<bool>, length: usize) -> (r: Vec<u8>)
    requires
        flips@.len() == 8 * length,
    ensures
        r@ == spec_train_bytes(init, flips@, length as int),
        r@.len() == length,
{
    // Binding the length as usize lets the prover see that 8 * i fits.
    let flen: usize = flips.len();
    let mut out: Vec<u8> = Vec::new();
    let mut carry = init;
    proof {
        lemma_train_len(init, flips@, length as int);
    }
    for i in 0..length
        invariant
            out@.len() == i,
            out@ == spec_train_bytes(init, flips@, i as int),
            carry == spec_train_carry(init, flips@, i as int),
    {
        let b = byte_from_flips(carry, flips, 8 * i);
        proof {
            lemma_train_snoc(init, flips@, i as int);
            lemma_byte_upto_agree(
                carry,
                flips@.subrange(8 * i as int, 8 * i as int + 8),
                flips@.skip(8 * i as int),
                8,
            );
        }
        out.push(b.byte);
        carry = b.bit;
    }
    out
}

/// With probability zero no raw flip is ever true, so the carry set by the
/// initial fair coin never changes: every byte of the train is all-one or
/// all-zero according to that initial carry.
pub proof fn lemma_train_all_false(init: bool, flips: Seq<bool>, n: int)
    requires
        n >= 0,
        flips.len() >= 8 * n,
        forall|i: int| 0 <= i < flips.len() ==> !flips[i],
    ensures
        spec_train_bytes(init, flips, n).len() == n,
        forall|j: int|
            0 <= j < n ==> spec_train_bytes(init, flips, n)[j] == (if init {
                255u8
            } else {
                0u8
            }),
        spec_train_carry(init, flips, n) == init,
    decreases n,
{
    lemma_train_len(init, flips, n);
    if n > 0 {
        lemma_byte_all_false(init, flips);
        assert(forall|i: int| 0 <= i < flips.skip(8).len() ==> !flips.skip(8)[i]);
        lemma_train_all_false(init, flips.skip(8), n - 1);
        assert forall|j: int|
            0 <= j < n implies spec_train_bytes(init, flips, n)[j] == (if init {
                255u8
            } else {
                0u8
            }) by {
            if j >= 1 {
                assert(spec_train_bytes(init, flips, n)[j] == spec_train_bytes(
                    init,
                    flips.skip(8),
                    n - 1,
                )[j - 1]);
            }
        }
    }
}

/// With probability one every raw flip is true, so the carry toggles at
/// every bit: each byte of the train is 0xAA for an initially false carry
/// and 0x55 for an initially true one, and the carry re-enters every byte
/// unchanged.
pub proof fn lemma_train_all_true(init: bool, flips: Seq<bool>, n: int)
    requires
        n >= 0,
        flips.len() >= 8 * n,
        forall|i: int| 0 <= i < flips.len() ==> flips[i],
    ensures
        spec_train_bytes(init, flips, n).len() == n,
        forall|j: int|
            0 <= j < n ==> spec_train_bytes(init, flips, n)[j] == (if init {
                85u8
            } else {
                170u8
            }),
        spec_train_carry(init, flips, n) == init,
    decreases n,
{
    lemma_train_len(init, flips, n);
    if n > 0 {
        lemma_byte_all_true(init, flips);
        assert(forall|i: int| 0 <= i < flips.skip(8).len() ==> flips.skip(8)[i]);
        lemma_train_all_true(init, flips.skip(8), n - 1);
        assert forall|j: int|
            0 <= j < n implies spec_train_bytes(init, flips, n)[j] == (if init {
                85u8
            } else {
                170u8
            }) by {
            if j >= 1 {
                assert(spec_train_bytes(init, flips, n)[j] == spec_train_bytes(
                    init,
                    flips.skip(8),
                    n - 1,
                )[j - 1]);
            }
        }
    }
}

/// Bit `k` of a byte sequence, counting bits from the most significant bit
/// of the first byte onward, as the bit train emits them.
pub open spec fn spec_bit_at(bytes: Seq<u8>, k: int) -> bool
    recommends
        0 <= k < 8 * bytes.len(),
{
    bytes[k / 8] & bit_mask(k % 8) != 0
}

/// Which bits the two alternating bytes hold: 0xAA has its even-position
/// bits set (counting from the most significant), 0x55 the odd ones.
proof fn lemma_alternating_byte_bits(s: u8)
    requires
        s < 8,
    ensures
        (170u8 & (1u8 << s) != 0) == (s % 2 == 1),
        (85u8 & (1u8 << s) != 0) == (s % 2 == 0),
{
    assert((170u8 & (1u8 << s) != 0) == (s % 2 == 1)) by (bit_vector)
        requires
            s < 8,
    ;
    assert((85u8 & (1u8 << s) != 0) == (s % 2 == 0)) by (bit_vector)
        requires
            s < 8,
    ;
}

/// With probability one the bits of the train strictly alternate, within
/// and across byte boundaries: bit `k` is the initial carry negated at even
/// `k` and the initial carry itself at odd `k`.
pub proof fn lemma_train_bit_pattern(init: bool, flips: Seq<bool>, n: int, k: int)
    requires
        n >= 0,
        flips.len() >= 8 * n,
        forall|i: int| 0 <= i < flips.len() ==> flips[i],
        0 <= k < 8 * n,
    ensures
        spec_bit_at(spec_train_bytes(init, flips, n), k) == (if k % 2 == 0 {
            !init
        } else {
            init
        }),
{
    let t = spec_train_bytes(init, flips, n);
    lemma_train_all_true(init, flips, n);
    let q = k / 8;
    let r = k % 8;
    lemma_fundamental_div_mod(k, 8);
    lemma_mod_division_less_than_divisor(k, 8);
    assert(0 <= r < 8 && k == 8 * q + r);
    assert(0 <= q < n) by (nonlinear_arith)
        requires
            0 <= k,
            k < 8 * n,
            k == 8 * q + r,
            0 <= r < 8,
    ;
    let c: u8 = if init {
        85u8
    } else {
        170u8
    };
    assert(t[q] == c);
    let s = (7 - r) as u8;
    lemma_alternating_byte_bits(s);
    assert(r % 2 == k % 2) by (nonlinear_arith)
        requires
            k == 8 * q + r,
            0 <= r < 8,
            r == k % 8,
    ;
    assert(s == 7 - r);
    assert((s % 2 == 1) == (r % 2 == 0)) by (nonlinear_arith)
        requires
            s == 7 - r,
            0 <= r < 8,
    ;
}

/// With probability one, consecutive bits of the train differ: strict
/// alternation within and across byte boundaries.
pub proof fn lemma_train_alternates(init: bool, flips: Seq<bool>, n: int, k: int)
    requires
        n >= 0,
        flips.len() >= 8 * n,
        forall|i: int| 0 <= i < flips.len() ==> flips[i],
        0 <= k,
        k + 1 < 8 * n,
    ensures
        spec_bit_at(spec_train_bytes(init, flips, n), k + 1) != spec_bit_at(
            spec_train_bytes(init, flips, n),
            k,
        ),
{
    lemma_train_bit_pattern(init, flips, n, k);
    lemma_train_bit_pattern(init, flips, n, k + 1);
    assert((k % 2 == 0) != ((k + 1) % 2 == 0)) by (nonlinear_arith)
        requires
            k >= 0,
    ;
}

} // verus!
