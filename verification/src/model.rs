//! Mathematical model of the Trivium stream cipher.
//!
//! The cipher state is modelled as three sequences of bits (each bit a `u8`
//! that is 0 or 1).  All executable code in this crate is proved to follow
//! this model exactly: construction loads key and IV bits into the
//! registers and runs the warm-up, and every later step of the generator
//! is one application of [`CipherModel::next`].

use vstd::prelude::*;

verus! {

/// How bit positions inside each byte are numbered when key and IV
/// material is read during register loading.
#[derive(Clone, Copy, Debug, PartialEq, Eq, Structural)]
pub enum BitOrder {
    /// Bit index 0 is the most significant bit of the first byte.
    Msb,
    /// Bit index 0 is the least significant bit of the first byte.
    Lsb,
}

/// How generated keystream bits are packed into output bytes.  Only
/// least-significant-bit-first packing is defined: the first generated
/// bit of a byte becomes that byte's lowest bit.
#[derive(Clone, Copy, Debug, PartialEq, Eq, Structural)]
pub enum PackOrder {
    /// The first generated bit becomes bit 0 of the byte.
    Lsb,
}

/// Bytes of key material after normalization (80 bits).
pub const KEY_BYTES: usize = 10;
/// Bytes of IV material after normalization (80 bits).
pub const IV_BYTES: usize = 10;
/// Key (or IV) bits loaded into the front of a register.
pub const LOADED_BITS: usize = 80;

/// Length of register A.
pub const REG_A_LEN: usize = 93;
/// Length of register B.
pub const REG_B_LEN: usize = 84;
/// Length of register C.
pub const REG_C_LEN: usize = 111;

/// Warm-up steps run at construction: four times the 288-bit state size.
pub const WARMUP_STEPS: usize = 1152;

/// Tap positions of the per-step update, 0-indexed.  Each register
/// contributes two output taps (`_TAP` and `_END`), an AND pair feeding
/// the next register's feedback (`_AND_1`, `_AND_2`), and one extra tap
/// (`_CROSS`) mixed into the feedback bit that the register receives.
pub const A_TAP: usize = 65;
pub const A_END: usize = 92;
pub const A_AND_1: usize = 90;
pub const A_AND_2: usize = 91;
pub const A_CROSS: usize = 68;
pub const B_TAP: usize = 68;
pub const B_END: usize = 83;
pub const B_AND_1: usize = 81;
pub const B_AND_2: usize = 82;
pub const B_CROSS: usize = 77;
pub const C_TAP: usize = 65;
pub const C_END: usize = 110;
pub const C_AND_1: usize = 108;
pub const C_AND_2: usize = 109;
pub const C_CROSS: usize = 86;

/// Index of the first of the three fixed 1 bits at the tail of register C.
pub const C_ONES_FROM: usize = 108;

/// A keystream bit is always 0 or 1.
pub open spec fn is_bit(x: u8) -> bool {
    x <= 1
}

pub open spec fn is_bit_seq(s: Seq<u8>) -> bool {
    forall|i: int| 0 <= i < s.len() ==> is_bit(#[trigger] s[i])
}

/// Exclusive or of two bits.
pub open spec fn bit_xor(x: u8, y: u8) -> u8 {
    if x == y {
        0
    } else {
        1
    }
}

/// Conjunction of two bits.
pub open spec fn bit_and(x: u8, y: u8) -> u8 {
    if x == 1 && y == 1 {
        1
    } else {
        0
    }
}

/// Bit `k` (0 = least significant) of byte `b`.
pub open spec fn byte_bit(b: u8, k: u8) -> u8 {
    (b >> k) & 1
}

/// `input` truncated or right-padded with zero bytes to length `n`.
pub open spec fn norm_bytes(input: Seq<u8>, n: nat) -> Seq<u8> {
    Seq::new(n, |i: int| if i < input.len() { input[i] } else { 0u8 })
}

/// Bit `bit_index` of a byte sequence under `order`; 0 for any position
/// past the end of the sequence.
pub open spec fn seq_bit(bytes: Seq<u8>, bit_index: nat, order: BitOrder) -> u8 {
    let byte_index = bit_index / 8;
    let k = (bit_index % 8) as u8;
    if byte_index >= bytes.len() {
        0
    } else {
        match order {
            BitOrder::Msb => byte_bit(bytes[byte_index as int], (7 - k) as u8),
            BitOrder::Lsb => byte_bit(bytes[byte_index as int], k),
        }
    }
}

/// A register shifted toward higher indices by one position: the value at
/// the last index is discarded and `new_bit` enters at position 0.
pub open spec fn shifted(r: Seq<u8>, new_bit: u8) -> Seq<u8> {
    Seq::new(r.len(), |i: int| if i == 0 { new_bit } else { r[i - 1] })
}

/// Eight bits packed into a byte least-significant-bit-first: `b0`
/// becomes bit 0 and `b7` becomes bit 7.
pub open spec fn pack8_lsb(b0: u8, b1: u8, b2: u8, b3: u8, b4: u8, b5: u8, b6: u8, b7: u8) -> u8 {
    (b0 + 2 * b1 + 4 * b2 + 8 * b3 + 16 * b4 + 32 * b5 + 64 * b6 + 128 * b7) as u8
}

/// The full 288-bit cipher state: three registers of bits.
pub struct CipherModel {
    pub a: Seq<u8>,
    pub b: Seq<u8>,
    pub c: Seq<u8>,
}

impl CipherModel {
    /// Register lengths are fixed and every cell holds exactly 0 or 1.
    pub open spec fn wf(self) -> bool {
        &&& self.a.len() == REG_A_LEN
        &&& self.b.len() == REG_B_LEN
        &&& self.c.len() == REG_C_LEN
        &&& is_bit_seq(self.a)
        &&& is_bit_seq(self.b)
        &&& is_bit_seq(self.c)
    }

    pub open spec fn tap_a(self) -> u8 {
        bit_xor(self.a[A_TAP as int], self.a[A_END as int])
    }

    pub open spec fn tap_b(self) -> u8 {
        bit_xor(self.b[B_TAP as int], self.b[B_END as int])
    }

    pub open spec fn tap_c(self) -> u8 {
        bit_xor(self.c[C_TAP as int], self.c[C_END as int])
    }

    /// The keystream bit produced by the next advance.
    pub open spec fn out_bit(self) -> u8 {
        bit_xor(bit_xor(self.tap_a(), self.tap_b()), self.tap_c())
    }

    /// Feedback bit entering register A (from register C's chain).
    pub open spec fn feed_a(self) -> u8 {
        bit_xor(
            bit_xor(self.tap_c(), bit_and(self.c[C_AND_1 as int], self.c[C_AND_2 as int])),
            self.a[A_CROSS as int],
        )
    }

    /// Feedback bit entering register B (from register A's chain).
    pub open spec fn feed_b(self) -> u8 {
        bit_xor(
            bit_xor(self.tap_a(), bit_and(self.a[A_AND_1 as int], self.a[A_AND_2 as int])),
            self.b[B_CROSS as int],
        )
    }

    /// Feedback bit entering register C (from register B's chain).
    pub open spec fn feed_c(self) -> u8 {
        bit_xor(
            bit_xor(self.tap_b(), bit_and(self.b[B_AND_1 as int], self.b[B_AND_2 as int])),
            self.c[C_CROSS as int],
        )
    }

    /// One advance: all taps are read from the current state, then every
    /// register shifts by one and receives its feedback bit at position 0.
    pub open spec fn next(self) -> CipherModel {
        CipherModel {
            a: shifted(self.a, self.feed_a()),
            b: shifted(self.b, self.feed_b()),
            c: shifted(self.c, self.feed_c()),
        }
    }

    /// The state after `n` advances.
    pub open spec fn advanced(self, n: nat) -> CipherModel
        decreases n,
    {
        if n == 0 {
            self
        } else {
            self.advanced((n - 1) as nat).next()
        }
    }

    /// The byte formed by the next eight keystream bits, packed
    /// least-significant-bit-first.
    pub open spec fn out_byte(self) -> u8 {
        pack8_lsb(
            self.out_bit(),
            self.advanced(1).out_bit(),
            self.advanced(2).out_bit(),
            self.advanced(3).out_bit(),
            self.advanced(4).out_bit(),
            self.advanced(5).out_bit(),
            self.advanced(6).out_bit(),
            self.advanced(7).out_bit(),
        )
    }
}

/// The state right after loading, before the warm-up: register A holds the
/// 80 key bits then zeros, register B the 80 IV bits then zeros, and
/// register C zeros with three 1 bits at its tail.
pub open spec fn init_state(key: Seq<u8>, iv: Seq<u8>, order: BitOrder) -> CipherModel {
    CipherModel {
        a: Seq::new(
            REG_A_LEN as nat,
            |i: int|
                if i < LOADED_BITS as int {
                    seq_bit(norm_bytes(key, KEY_BYTES as nat), i as nat, order)
                } else {
                    0u8
                },
        ),
        b: Seq::new(
            REG_B_LEN as nat,
            |i: int|
                if i < LOADED_BITS as int {
                    seq_bit(norm_bytes(iv, IV_BYTES as nat), i as nat, order)
                } else {
                    0u8
                },
        ),
        c: Seq::new(REG_C_LEN as nat, |i: int| if i < C_ONES_FROM as int { 0u8 } else { 1u8 }),
    }
}

/// The state of a freshly built cipher: loaded, then warmed up.
pub open spec fn warmed_state(key: Seq<u8>, iv: Seq<u8>, order: BitOrder) -> CipherModel {
    init_state(key, iv, order).advanced(WARMUP_STEPS as nat)
}

/// Keystream byte number `i` of the cipher built from `key`, `iv` and
/// `order`: a pure function of those three values alone.
pub open spec fn keystream_byte_at(key: Seq<u8>, iv: Seq<u8>, order: BitOrder, i: nat) -> u8 {
    warmed_state(key, iv, order).advanced(8 * i).out_byte()
}

/// `data` XORed against the keystream that state `s` generates.
pub open spec fn xor_from(s: CipherModel, data: Seq<u8>) -> Seq<u8> {
    Seq::new(data.len(), |i: int| data[i] ^ s.advanced((8 * i) as nat).out_byte())
}

/// `data` XORed against the keystream of the cipher built from `key`,
/// `iv` and `order`.  This is the whole encrypt/decrypt transform.
pub open spec fn xor_keystream(key: Seq<u8>, iv: Seq<u8>, order: BitOrder, data: Seq<u8>) -> Seq<
    u8,
> {
    xor_from(warmed_state(key, iv, order), data)
}

/// The machine operators `^` and `&` agree with the bit model on bits.
pub proof fn lemma_bit_ops(x: u8, y: u8)
    requires
        x <= 1,
        y <= 1,
    ensures
        (x ^ y) == bit_xor(x, y),
        (x & y) == bit_and(x, y),
{
    assert((x ^ y) == (if x == y {
        0u8
    } else {
        1u8
    })) by (bit_vector)
        requires
            x <= 1,
            y <= 1,
    ;
    assert((x & y) == (if x == 1 && y == 1 {
        1u8
    } else {
        0u8
    })) by (bit_vector)
        requires
            x <= 1,
            y <= 1,
    ;
}

/// Extracting a single bit of a byte yields 0 or 1.
pub proof fn lemma_byte_bit_is_bit(b: u8, k: u8)
    ensures
        is_bit(byte_bit(b, k)),
{
    assert(((b >> k) & 1) <= 1) by (bit_vector);
}

/// Any bit read out of a byte sequence is 0 or 1.
pub proof fn lemma_seq_bit_is_bit(bytes: Seq<u8>, bit_index: nat, order: BitOrder)
    ensures
        is_bit(seq_bit(bytes, bit_index, order)),
{
    let byte_index = bit_index / 8;
    let k = (bit_index % 8) as u8;
    if byte_index < bytes.len() {
        match order {
            BitOrder::Msb => lemma_byte_bit_is_bit(bytes[byte_index as int], (7 - k) as u8),
            BitOrder::Lsb => lemma_byte_bit_is_bit(bytes[byte_index as int], k),
        }
    }
}

/// XORing twice with the same byte restores the original byte.
pub proof fn lemma_xor_cancel(d: u8, k: u8)
    ensures
        ((d ^ k) ^ k) == d,
{
    assert(((d ^ k) ^ k) == d) by (bit_vector);
}

/// One advance preserves well-formedness, and the output is a bit.
pub proof fn lemma_next_wf(s: CipherModel)
    requires
        s.wf(),
    ensures
        s.next().wf(),
        is_bit(s.out_bit()),
{
    assert forall|i: int| 0 <= i < s.next().a.len() implies is_bit(#[trigger] s.next().a[i]) by {
        if i != 0 {
            assert(is_bit(s.a[i - 1]));
        }
    }
    assert forall|i: int| 0 <= i < s.next().b.len() implies is_bit(#[trigger] s.next().b[i]) by {
        if i != 0 {
            assert(is_bit(s.b[i - 1]));
        }
    }
    assert forall|i: int| 0 <= i < s.next().c.len() implies is_bit(#[trigger] s.next().c[i]) by {
        if i != 0 {
            assert(is_bit(s.c[i - 1]));
        }
    }
}

/// Advancing `m` steps and then `n` steps is advancing `m + n` steps.
pub proof fn lemma_advanced_add(s: CipherModel, m: nat, n: nat)
    ensures
        s.advanced(m).advanced(n) == s.advanced(m + n),
    decreases n,
{
    if n > 0 {
        lemma_advanced_add(s, m, (n - 1) as nat);
        assert(s.advanced(m + n) == s.advanced((m + n - 1) as nat).next());
    }
}

/// The freshly loaded state is well-formed.
pub proof fn lemma_init_wf(key: Seq<u8>, iv: Seq<u8>, order: BitOrder)
    ensures
        init_state(key, iv, order).wf(),
{
    let s = init_state(key, iv, order);
    assert forall|i: int| 0 <= i < s.a.len() implies is_bit(#[trigger] s.a[i]) by {
        if i < LOADED_BITS as int {
            lemma_seq_bit_is_bit(norm_bytes(key, KEY_BYTES as nat), i as nat, order);
        }
    }
    assert forall|i: int| 0 <= i < s.b.len() implies is_bit(#[trigger] s.b[i]) by {
        if i < LOADED_BITS as int {
            lemma_seq_bit_is_bit(norm_bytes(iv, IV_BYTES as nat), i as nat, order);
        }
    }
    assert forall|i: int| 0 <= i < s.c.len() implies is_bit(#[trigger] s.c[i]) by {}
}

} // verus!
