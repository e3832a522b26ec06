//! The two checksum engines protecting a frame: an 8-bit checksum over the
//! header prefix and a 16-bit checksum over header plus payload.  Both are
//! reflected table-free CRCs, computed bit by bit: checksum8 uses the
//! reflected polynomial `0x8c` with initial value `0xff`, checksum16 the
//! reflected polynomial `0x8408` with initial value `0xffff`.  These
//! constants are wire-compatibility constants of the peer protocol and must
//! not be changed.
//!
//! Besides the two executable engines, this module proves the error-detection
//! property the protocol relies on: changing any single byte of a checksummed
//! sequence changes its checksum.

use vstd::prelude::*;

verus! {

/// One bit round of the reflected 8-bit CRC.
pub open spec fn crc8_round(x: u8) -> u8 {
    if x & 1 == 1 {
        (x >> 1) ^ 0x8c
    } else {
        x >> 1
    }
}

/// `n` bit rounds of the reflected 8-bit CRC.
pub open spec fn crc8_rounds(x: u8, n: nat) -> u8
    decreases n,
{
    if n == 0 {
        x
    } else {
        crc8_round(crc8_rounds(x, (n - 1) as nat))
    }
}

/// Folds one byte into the 8-bit CRC state.
pub open spec fn crc8_step(state: u8, b: u8) -> u8 {
    crc8_rounds(state ^ b, 8)
}

/// Folds a byte sequence into the 8-bit CRC state, left to right.
pub open spec fn crc8_fold(state: u8, s: Seq<u8>) -> u8
    decreases s.len(),
{
    if s.len() == 0 {
        state
    } else {
        crc8_fold(crc8_step(state, s[0]), s.subrange(1, s.len() as int))
    }
}

/// The 8-bit checksum of a byte sequence.
pub open spec fn crc8_spec(s: Seq<u8>) -> u8 {
    crc8_fold(0xff, s)
}

/// One bit round of the reflected 16-bit CRC.
pub open spec fn crc16_round(x: u16) -> u16 {
    if x & 1 == 1 {
        (x >> 1) ^ 0x8408
    } else {
        x >> 1
    }
}

/// `n` bit rounds of the reflected 16-bit CRC.
pub open spec fn crc16_rounds(x: u16, n: nat) -> u16
    decreases n,
{
    if n == 0 {
        x
    } else {
        crc16_round(crc16_rounds(x, (n - 1) as nat))
    }
}

/// Folds one byte into the 16-bit CRC state.
pub open spec fn crc16_step(state: u16, b: u8) -> u16 {
    crc16_rounds(state ^ (b as u16), 8)
}

/// Folds a byte sequence into the 16-bit CRC state, left to right.
pub open spec fn crc16_fold(state: u16, s: Seq<u8>) -> u16
    decreases s.len(),
{
    if s.len() == 0 {
        state
    } else {
        crc16_fold(crc16_step(state, s[0]), s.subrange(1, s.len() as int))
    }
}

/// The 16-bit checksum of a byte sequence.
pub open spec fn crc16_spec(s: Seq<u8>) -> u16 {
    crc16_fold(0xffff, s)
}

/// Appending one byte to a sequence folds that byte into the running state.
pub proof fn lemma_crc8_fold_push(state: u8, s: Seq<u8>, b: u8)
    ensures
        crc8_fold(state, s.push(b)) == crc8_step(crc8_fold(state, s), b),
    decreases s.len(),
{
    if s.len() == 0 {
        assert(s.push(b)[0] == b);
        assert(s.push(b).subrange(1, 1) =~= Seq::<u8>::empty());
        assert(crc8_fold(state, s.push(b)) == crc8_fold(
            crc8_step(state, b),
            s.push(b).subrange(1, 1),
        ));
        assert(crc8_fold(crc8_step(state, b), Seq::<u8>::empty()) == crc8_step(state, b));
    } else {
        let tail = s.subrange(1, s.len() as int);
        assert(s.push(b)[0] == s[0]);
        assert(s.push(b).subrange(1, s.len() as int + 1) =~= tail.push(b));
        assert(crc8_fold(state, s.push(b)) == crc8_fold(
            crc8_step(state, s[0]),
            tail.push(b),
        ));
        assert(crc8_fold(state, s) == crc8_fold(crc8_step(state, s[0]), tail));
        lemma_crc8_fold_push(crc8_step(state, s[0]), tail, b);
    }
}

/// Appending one byte to a sequence folds that byte into the running state.
pub proof fn lemma_crc16_fold_push(state: u16, s: Seq<u8>, b: u8)
    ensures
        crc16_fold(state, s.push(b)) == crc16_step(crc16_fold(state, s), b),
    decreases s.len(),
{
    if s.len() == 0 {
        assert(s.push(b)[0] == b);
        assert(s.push(b).subrange(1, 1) =~= Seq::<u8>::empty());
        assert(crc16_fold(state, s.push(b)) == crc16_fold(
            crc16_step(state, b),
            s.push(b).subrange(1, 1),
        ));
        assert(crc16_fold(crc16_step(state, b), Seq::<u8>::empty()) == crc16_step(state, b));
    } else {
        let tail = s.subrange(1, s.len() as int);
        assert(s.push(b)[0] == s[0]);
        assert(s.push(b).subrange(1, s.len() as int + 1) =~= tail.push(b));
        assert(crc16_fold(state, s.push(b)) == crc16_fold(
            crc16_step(state, s[0]),
            tail.push(b),
        ));
        assert(crc16_fold(state, s) == crc16_fold(crc16_step(state, s[0]), tail));
        lemma_crc16_fold_push(crc16_step(state, s[0]), tail, b);
    }
}

/// Computes the 8-bit checksum of a byte slice.
pub fn checksum8(data: &[u8]) -> (r: u8)
    ensures
        r == crc8_spec(data@),
{
    let mut crc: u8 = 0xff;
    let mut i: usize = 0;
    while i < data.len()
        invariant
            i <= data.len(),
            crc == crc8_fold(0xff, data@.subrange(0, i as int)),
        decreases data.len() - i,
    {
        let b = data[i];
        let mut c: u8 = crc ^ b;
        let mut k: usize = 0;
        while k < 8
            invariant
                k <= 8,
                c == crc8_rounds((crc ^ b) as u8, k as nat),
            decreases 8 - k,
        {
            c = if c & 1 == 1 {
                (c >> 1) ^ 0x8c
            } else {
                c >> 1
            };
            k = k + 1;
        }
        proof {
            assert(c == crc8_step(crc, b));
            lemma_crc8_fold_push(0xff, data@.subrange(0, i as int), b);
            assert(data@.subrange(0, i + 1) =~= data@.subrange(0, i as int).push(b));
        }
        crc = c;
        i = i + 1;
    }
    proof {
        assert(data@.subrange(0, data@.len() as int) =~= data@);
    }
    crc
}

/// Computes the 16-bit checksum of a byte slice.
pub fn checksum16(data: &[u8]) -> (r: u16)
    ensures
        r == crc16_spec(data@),
{
    let mut crc: u16 = 0xffff;
    let mut i: usize = 0;
    while i < data.len()
        invariant
            i <= data.len(),
            crc == crc16_fold(0xffff, data@.subrange(0, i as int)),
        decreases data.len() - i,
    {
        let b = data[i];
        let mut c: u16 = crc ^ (b as u16);
        let mut k: usize = 0;
        while k < 8
            invariant
                k <= 8,
                c == crc16_rounds((crc ^ (b as u16)) as u16, k as nat),
            decreases 8 - k,
        {
            c = if c & 1 == 1 {
                (c >> 1) ^ 0x8408
            } else {
                c >> 1
            };
            k = k + 1;
        }
        proof {
            assert(c == crc16_step(crc, b));
            lemma_crc16_fold_push(0xffff, data@.subrange(0, i as int), b);
            assert(data@.subrange(0, i + 1) =~= data@.subrange(0, i as int).push(b));
        }
        crc = c;
        i = i + 1;
    }
    proof {
        assert(data@.subrange(0, data@.len() as int) =~= data@);
    }
    crc
}

/// One CRC bit round is injective, because the top bit of the polynomial
/// records the bit shifted out.
proof fn lemma_crc8_round_inj(a: u8, b: u8)
    requires
        crc8_round(a) == crc8_round(b),
    ensures
        a == b,
{
    assert((if a & 1 == 1 {
        (a >> 1) ^ 0x8c
    } else {
        a >> 1
    }) == (if b & 1 == 1 {
        (b >> 1) ^ 0x8c
    } else {
        b >> 1
    }) ==> a == b) by (bit_vector);
}

/// Iterated CRC bit rounds are injective.
proof fn lemma_crc8_rounds_inj(a: u8, b: u8, n: nat)
    requires
        crc8_rounds(a, n) == crc8_rounds(b, n),
    ensures
        a == b,
    decreases n,
{
    if n > 0 {
        lemma_crc8_round_inj(crc8_rounds(a, (n - 1) as nat), crc8_rounds(b, (n - 1) as nat));
        lemma_crc8_rounds_inj(a, b, (n - 1) as nat);
    }
}

/// Folding the same byte from two distinct states keeps the states distinct.
proof fn lemma_crc8_step_state_inj(a: u8, b: u8, x: u8)
    requires
        a != b,
    ensures
        crc8_step(a, x) != crc8_step(b, x),
{
    if crc8_step(a, x) == crc8_step(b, x) {
        lemma_crc8_rounds_inj(a ^ x, b ^ x, 8);
        assert(a ^ x == b ^ x ==> a == b) by (bit_vector);
    }
}

/// Folding two distinct bytes from the same state yields distinct states.
proof fn lemma_crc8_step_byte_inj(state: u8, x: u8, y: u8)
    requires
        x != y,
    ensures
        crc8_step(state, x) != crc8_step(state, y),
{
    if crc8_step(state, x) == crc8_step(state, y) {
        lemma_crc8_rounds_inj(state ^ x, state ^ y, 8);
        assert(state ^ x == state ^ y ==> x == y) by (bit_vector);
    }
}

/// Folding the same byte sequence from two distinct states ends in two
/// distinct checksums.
pub proof fn lemma_crc8_fold_state_inj(a: u8, b: u8, s: Seq<u8>)
    requires
        a != b,
    ensures
        crc8_fold(a, s) != crc8_fold(b, s),
    decreases s.len(),
{
    if s.len() > 0 {
        lemma_crc8_step_state_inj(a, b, s[0]);
        lemma_crc8_fold_state_inj(
            crc8_step(a, s[0]),
            crc8_step(b, s[0]),
            s.subrange(1, s.len() as int),
        );
    }
}

/// Folding a concatenation folds the first part, then the second.
pub proof fn lemma_crc8_fold_concat(state: u8, s: Seq<u8>, t: Seq<u8>)
    ensures
        crc8_fold(state, s + t) == crc8_fold(crc8_fold(state, s), t),
    decreases s.len(),
{
    if s.len() == 0 {
        assert(s + t =~= t);
    } else {
        assert((s + t)[0] == s[0]);
        assert((s + t).subrange(1, (s + t).len() as int) =~= s.subrange(1, s.len() as int) + t);
        lemma_crc8_fold_concat(crc8_step(state, s[0]), s.subrange(1, s.len() as int), t);
    }
}

/// Changing any single byte of a sequence changes its 8-bit checksum: a
/// corrupted byte — in particular any single flipped bit — never goes
/// unnoticed by checksum8.
pub proof fn lemma_crc8_byte_corruption(state: u8, s: Seq<u8>, i: int, b: u8)
    requires
        0 <= i < s.len(),
        b != s[i],
    ensures
        crc8_fold(state, s.update(i, b)) != crc8_fold(state, s),
{
    let t = s.update(i, b);
    let pre = s.subrange(0, i);
    let suf_s = s.subrange(i, s.len() as int);
    let suf_t = t.subrange(i, t.len() as int);
    assert(s =~= pre + suf_s);
    assert(t.subrange(0, i) =~= pre);
    assert(t =~= pre + suf_t);
    lemma_crc8_fold_concat(state, pre, suf_s);
    lemma_crc8_fold_concat(state, pre, suf_t);
    let st = crc8_fold(state, pre);
    assert(suf_s[0] == s[i] && suf_t[0] == b);
    lemma_crc8_step_byte_inj(st, s[i], b);
    assert(suf_s.subrange(1, suf_s.len() as int) =~= suf_t.subrange(1, suf_t.len() as int));
    lemma_crc8_fold_state_inj(
        crc8_step(st, s[i]),
        crc8_step(st, b),
        suf_s.subrange(1, suf_s.len() as int),
    );
}

/// One CRC bit round is injective, because the top bit of the polynomial
/// records the bit shifted out.
proof fn lemma_crc16_round_inj(a: u16, b: u16)
    requires
        crc16_round(a) == crc16_round(b),
    ensures
        a == b,
{
    assert((if a & 1 == 1 {
        (a >> 1) ^ 0x8408
    } else {
        a >> 1
    }) == (if b & 1 == 1 {
        (b >> 1) ^ 0x8408
    } else {
        b >> 1
    }) ==> a == b) by (bit_vector);
}

/// Iterated CRC bit rounds are injective.
proof fn lemma_crc16_rounds_inj(a: u16, b: u16, n: nat)
    requires
        crc16_rounds(a, n) == crc16_rounds(b, n),
    ensures
        a == b,
    decreases n,
{
    if n > 0 {
        lemma_crc16_round_inj(crc16_rounds(a, (n - 1) as nat), crc16_rounds(b, (n - 1) as nat));
        lemma_crc16_rounds_inj(a, b, (n - 1) as nat);
    }
}

/// Folding the same byte from two distinct states keeps the states distinct.
proof fn lemma_crc16_step_state_inj(a: u16, b: u16, x: u8)
    requires
        a != b,
    ensures
        crc16_step(a, x) != crc16_step(b, x),
{
    if crc16_step(a, x) == crc16_step(b, x) {
        lemma_crc16_rounds_inj(a ^ (x as u16), b ^ (x as u16), 8);
        assert(a ^ (x as u16) == b ^ (x as u16) ==> a == b) by (bit_vector);
    }
}

/// Folding two distinct bytes from the same state yields distinct states.
proof fn lemma_crc16_step_byte_inj(state: u16, x: u8, y: u8)
    requires
        x != y,
    ensures
        crc16_step(state, x) != crc16_step(state, y),
{
    if crc16_step(state, x) == crc16_step(state, y) {
        lemma_crc16_rounds_inj(state ^ (x as u16), state ^ (y as u16), 8);
        assert(state ^ (x as u16) == state ^ (y as u16) ==> x == y) by (bit_vector);
    }
}

/// Folding the same byte sequence from two distinct states ends in two
/// distinct checksums.
pub proof fn lemma_crc16_fold_state_inj(a: u16, b: u16, s: Seq<u8>)
    requires
        a != b,
    ensures
        crc16_fold(a, s) != crc16_fold(b, s),
    decreases s.len(),
{
    if s.len() > 0 {
        lemma_crc16_step_state_inj(a, b, s[0]);
        lemma_crc16_fold_state_inj(
            crc16_step(a, s[0]),
            crc16_step(b, s[0]),
            s.subrange(1, s.len() as int),
        );
    }
}

/// Folding a concatenation folds the first part, then the second.
pub proof fn lemma_crc16_fold_concat(state: u16, s: Seq<u8>, t: Seq<u8>)
    ensures
        crc16_fold(state, s + t) == crc16_fold(crc16_fold(state, s), t),
    decreases s.len(),
{
    if s.len() == 0 {
        assert(s + t =~= t);
    } else {
        assert((s + t)[0] == s[0]);
        assert((s + t).subrange(1, (s + t).len() as int) =~= s.subrange(1, s.len() as int) + t);
        lemma_crc16_fold_concat(crc16_step(state, s[0]), s.subrange(1, s.len() as int), t);
    }
}

/// Changing any single byte of a sequence changes its 16-bit checksum: a
/// corrupted byte — in particular any single flipped bit — never goes
/// unnoticed by checksum16.
pub proof fn lemma_crc16_byte_corruption(state: u16, s: Seq<u8>, i: int, b: u8)
    requires
        0 <= i < s.len(),
        b != s[i],
    ensures
        crc16_fold(state, s.update(i, b)) != crc16_fold(state, s),
{
    let t = s.update(i, b);
    let pre = s.subrange(0, i);
    let suf_s = s.subrange(i, s.len() as int);
    let suf_t = t.subrange(i, t.len() as int);
    assert(s =~= pre + suf_s);
    assert(t.subrange(0, i) =~= pre);
    assert(t =~= pre + suf_t);
    lemma_crc16_fold_concat(state, pre, suf_s);
    lemma_crc16_fold_concat(state, pre, suf_t);
    let st = crc16_fold(state, pre);
    assert(suf_s[0] == s[i] && suf_t[0] == b);
    lemma_crc16_step_byte_inj(st, s[i], b);
    assert(suf_s.subrange(1, suf_s.len() as int) =~= suf_t.subrange(1, suf_t.len() as int));
    lemma_crc16_fold_state_inj(
        crc16_step(st, s[i]),
        crc16_step(st, b),
        suf_s.subrange(1, suf_s.len() as int),
    );
}

} // verus!
