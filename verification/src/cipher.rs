//! Executable Trivium cipher, proved against the model in [`crate::model`].

use vstd::prelude::*;

use crate::bit_order::{error_chars, opt_view, parse_bit_order, spec_parse, trimmed};
use crate::model::{
    init_state, lemma_advanced_add, lemma_bit_ops, lemma_init_wf, lemma_next_wf,
    lemma_seq_bit_is_bit, norm_bytes, seq_bit, shifted, warmed_state, xor_from, xor_keystream,
    BitOrder, CipherModel, PackOrder, A_AND_1, A_AND_2, A_CROSS, A_END, A_TAP, B_AND_1, B_AND_2,
    B_CROSS, B_END, B_TAP, C_AND_1, C_AND_2, C_CROSS, C_END, C_ONES_FROM, C_TAP, IV_BYTES,
    KEY_BYTES, LOADED_BITS, REG_A_LEN, REG_B_LEN, REG_C_LEN, WARMUP_STEPS,
};

verus! {

/// `input` truncated or right-padded with zero bytes to `target_len` bytes.
fn normalize_to_fixed(input: &Vec<u8>, target_len: usize) -> (out: Vec<u8>)
    ensures
        out@ == norm_bytes(input@, target_len as nat),
{
    let mut out: Vec<u8> = Vec::new();
    let mut i: usize = 0;
    while i < target_len
        invariant
            i <= target_len,
            out@.len() == i,
            forall|j: int| 0 <= j < i ==> out@[j] == norm_bytes(input@, target_len as nat)[j],
        decreases target_len - i,
    {
        if i < input.len() {
            let v = input[i];
            out.push(v);
        } else {
            out.push(0);
        }
        i = i + 1;
    }
    assert(out@ =~= norm_bytes(input@, target_len as nat));
    out
}

/// Bit `bit_index` of `bytes` under `order`; 0 for any index past the end.
fn get_bit(bytes: &Vec<u8>, bit_index: usize, order: BitOrder) -> (r: u8)
    ensures
        r == seq_bit(bytes@, bit_index as nat, order),
        r <= 1,
{
    proof {
        lemma_seq_bit_is_bit(bytes@, bit_index as nat, order);
    }
    let byte_index = bit_index / 8;
    let k = (bit_index % 8) as u8;
    if byte_index >= bytes.len() {
        return 0;
    }
    let b = bytes[byte_index];
    match order {
        BitOrder::Msb => (b >> (7 - k)) & 1,
        BitOrder::Lsb => (b >> k) & 1,
    }
}

/// A Trivium keystream generator.  Building one runs the full warm-up;
/// [`Trivium::xor_bytes`] consumes it, so a partially advanced generator
/// cannot be reused across two logically distinct messages.
pub struct Trivium {
    s1: Vec<u8>,
    s2: Vec<u8>,
    s3: Vec<u8>,
    pack_order: PackOrder,
}

impl View for Trivium {
    type V = CipherModel;

    closed spec fn view(&self) -> CipherModel {
        CipherModel { a: self.s1@, b: self.s2@, c: self.s3@ }
    }
}

impl Trivium {
    /// The register contents are a well-formed cipher state.
    pub open spec fn wf(self) -> bool {
        self@.wf()
    }

    /// Shift `reg` one position toward higher indices, discarding the last
    /// value, and insert `new_bit` at position 0.
    fn shift_in(reg: &mut Vec<u8>, new_bit: u8)
        requires
            old(reg).len() >= 1,
            new_bit <= 1,
        ensures
            final(reg)@ == shifted(old(reg)@, new_bit),
    {
        let ghost orig = reg@;
        let mut i: usize = reg.len() - 1;
        while i >= 1
            invariant
                reg@.len() == orig.len(),
                i < reg@.len(),
                forall|j: int| i < j < reg@.len() ==> reg@[j] == orig[j - 1],
                forall|j: int| 0 <= j <= i ==> reg@[j] == orig[j],
            decreases i,
        {
            let v = reg[i - 1];
            reg.set(i, v);
            i = i - 1;
        }
        reg.set(0, new_bit);
        assert(reg@ =~= shifted(orig, new_bit));
    }

    /// One advance of the generator: returns the output bit and moves the
    /// whole state one step, exactly as [`CipherModel::next`] describes.
    fn next_bit(&mut self) -> (z: u8)
        requires
            old(self).wf(),
        ensures
            final(self).wf(),
            final(self)@ == old(self)@.next(),
            z == old(self)@.out_bit(),
            z <= 1,
    {
        let t1 = self.s1[A_TAP] ^ self.s1[A_END];
        let t2 = self.s2[B_TAP] ^ self.s2[B_END];
        let t3 = self.s3[C_TAP] ^ self.s3[C_END];
        let z = t1 ^ t2 ^ t3;

        let t1n = t1 ^ (self.s1[A_AND_1] & self.s1[A_AND_2]) ^ self.s2[B_CROSS];
        let t2n = t2 ^ (self.s2[B_AND_1] & self.s2[B_AND_2]) ^ self.s3[C_CROSS];
        let t3n = t3 ^ (self.s3[C_AND_1] & self.s3[C_AND_2]) ^ self.s1[A_CROSS];

        proof {
            let a = old(self)@.a;
            let b = old(self)@.b;
            let c = old(self)@.c;
            lemma_bit_ops(a[A_TAP as int], a[A_END as int]);
            lemma_bit_ops(b[B_TAP as int], b[B_END as int]);
            lemma_bit_ops(c[C_TAP as int], c[C_END as int]);
            lemma_bit_ops(t1, t2);
            lemma_bit_ops(t1 ^ t2, t3);
            lemma_bit_ops(a[A_AND_1 as int], a[A_AND_2 as int]);
            lemma_bit_ops(t1, a[A_AND_1 as int] & a[A_AND_2 as int]);
            lemma_bit_ops(t1 ^ (a[A_AND_1 as int] & a[A_AND_2 as int]), b[B_CROSS as int]);
            lemma_bit_ops(b[B_AND_1 as int], b[B_AND_2 as int]);
            lemma_bit_ops(t2, b[B_AND_1 as int] & b[B_AND_2 as int]);
            lemma_bit_ops(t2 ^ (b[B_AND_1 as int] & b[B_AND_2 as int]), c[C_CROSS as int]);
            lemma_bit_ops(c[C_AND_1 as int], c[C_AND_2 as int]);
            lemma_bit_ops(t3, c[C_AND_1 as int] & c[C_AND_2 as int]);
            lemma_bit_ops(t3 ^ (c[C_AND_1 as int] & c[C_AND_2 as int]), a[A_CROSS as int]);
            assert(z == old(self)@.out_bit());
            assert(t3n == old(self)@.feed_a());
            assert(t1n == old(self)@.feed_b());
            assert(t2n == old(self)@.feed_c());
        }

        Self::shift_in(&mut self.s1, t3n);
        Self::shift_in(&mut self.s2, t1n);
        Self::shift_in(&mut self.s3, t2n);

        proof {
            assert(self@ == old(self)@.next());
            lemma_next_wf(old(self)@);
        }
        z
    }

    /// Build a generator from key and IV material (truncated or
    /// zero-padded to 10 bytes each), load the registers under
    /// `load_order`, and run the 1152-step warm-up.
    pub fn new(
        key_raw: &Vec<u8>,
        iv_raw: &Vec<u8>,
        load_order: BitOrder,
        pack_order: PackOrder,
    ) -> (r: Trivium)
        ensures
            r.wf(),
            r@ == warmed_state(key_raw@, iv_raw@, load_order),
    {
        let key = normalize_to_fixed(key_raw, KEY_BYTES);
        let iv = normalize_to_fixed(iv_raw, IV_BYTES);
        let ghost init = init_state(key_raw@, iv_raw@, load_order);

        let mut s1: Vec<u8> = Vec::new();
        let mut i: usize = 0;
        while i < REG_A_LEN
            invariant
                i <= REG_A_LEN,
                s1@.len() == i,
                key@ == norm_bytes(key_raw@, KEY_BYTES as nat),
                init == init_state(key_raw@, iv_raw@, load_order),
                forall|j: int| 0 <= j < i ==> s1@[j] == init.a[j],
            decreases REG_A_LEN - i,
        {
            if i < LOADED_BITS {
                let v = get_bit(&key, i, load_order);
                s1.push(v);
            } else {
                s1.push(0);
            }
            i = i + 1;
        }

        let mut s2: Vec<u8> = Vec::new();
        let mut i: usize = 0;
        while i < REG_B_LEN
            invariant
                i <= REG_B_LEN,
                s2@.len() == i,
                iv@ == norm_bytes(iv_raw@, IV_BYTES as nat),
                init == init_state(key_raw@, iv_raw@, load_order),
                forall|j: int| 0 <= j < i ==> s2@[j] == init.b[j],
            decreases REG_B_LEN - i,
        {
            if i < LOADED_BITS {
                let v = get_bit(&iv, i, load_order);
                s2.push(v);
            } else {
                s2.push(0);
            }
            i = i + 1;
        }

        let mut s3: Vec<u8> = Vec::new();
        let mut i: usize = 0;
        while i < REG_C_LEN
            invariant
                i <= REG_C_LEN,
                s3@.len() == i,
                init == init_state(key_raw@, iv_raw@, load_order),
                forall|j: int| 0 <= j < i ==> s3@[j] == init.c[j],
            decreases REG_C_LEN - i,
        {
            if i < C_ONES_FROM {
                s3.push(0);
            } else {
                s3.push(1);
            }
            i = i + 1;
        }

        let mut st = Trivium { s1, s2, s3, pack_order };
        proof {
            assert(st@.a =~= init.a);
            assert(st@.b =~= init.b);
            assert(st@.c =~= init.c);
            assert(st@ == init);
            lemma_init_wf(key_raw@, iv_raw@, load_order);
        }

        let mut w: usize = 0;
        while w < WARMUP_STEPS
            invariant
                w <= WARMUP_STEPS,
                st.wf(),
                init == init_state(key_raw@, iv_raw@, load_order),
                st@ == init.advanced(w as nat),
            decreases WARMUP_STEPS - w,
        {
            let _ = st.next_bit();
            proof {
                assert(init.advanced((w + 1) as nat) == init.advanced(w as nat).next());
            }
            w = w + 1;
        }
        st
    }

    /// Produce one keystream byte: eight advances, packed
    /// least-significant-bit-first.
    #[verifier::rlimit(50)]
    fn keystream_byte(&mut self) -> (r: u8)
        requires
            old(self).wf(),
        ensures
            final(self).wf(),
            final(self)@ == old(self)@.advanced(8),
            r == old(self)@.out_byte(),
    {
        match self.pack_order {
            PackOrder::Lsb => {
                let z0 = self.next_bit();
                let z1 = self.next_bit();
                let z2 = self.next_bit();
                let z3 = self.next_bit();
                let z4 = self.next_bit();
                let z5 = self.next_bit();
                let z6 = self.next_bit();
                let z7 = self.next_bit();
                proof {
                    let s = old(self)@;
                    assert(s.advanced(0) == s);
                    assert(s.advanced(1) == s.advanced(0).next());
                    assert(s.advanced(2) == s.advanced(1).next());
                    assert(s.advanced(3) == s.advanced(2).next());
                    assert(s.advanced(4) == s.advanced(3).next());
                    assert(s.advanced(5) == s.advanced(4).next());
                    assert(s.advanced(6) == s.advanced(5).next());
                    assert(s.advanced(7) == s.advanced(6).next());
                    assert(s.advanced(8) == s.advanced(7).next());
                }
                z0 + 2 * z1 + 4 * z2 + 8 * z3 + 16 * z4 + 32 * z5 + 64 * z6 + 128 * z7
            },
        }
    }

    /// XOR `data` against the keystream, byte for byte.  Consumes the
    /// generator; the output has exactly the length of `data`.
    pub fn xor_bytes(self, data: &Vec<u8>) -> (out: Vec<u8>)
        requires
            self.wf(),
        ensures
            out@.len() == data@.len(),
            out@ == xor_from(self@, data@),
    {
        let ghost s0 = self@;
        let mut st = self;
        let mut out: Vec<u8> = Vec::new();
        let mut i: usize = 0;
        while i < data.len()
            invariant
                i <= data@.len(),
                st.wf(),
                st@ == s0.advanced((8 * i) as nat),
                out@.len() == i,
                forall|j: int|
                    0 <= j < i ==> out@[j] == (data@[j] ^ s0.advanced((8 * j) as nat).out_byte()),
            decreases data@.len() - i,
        {
            let v = data[i];
            let k = st.keystream_byte();
            out.push(v ^ k);
            proof {
                lemma_advanced_add(s0, (8 * i) as nat, 8);
            }
            i = i + 1;
        }
        assert(out@ =~= xor_from(s0, data@));
        out
    }
}

/// Trivium stream cipher XOR (encrypt and decrypt are the same call).
///
/// - `key` / `iv`: arbitrary-length bytes; truncated or zero-padded to 10
///   bytes (80 bits) each.
/// - `data`: input bytes; the output has exactly the same length.
/// - `bit_order`: optional; `"msb"` (the default) or `"lsb"`, also
///   accepted with a `-first`/`_first` suffix, in any ASCII case and with
///   surrounding whitespace.  Any other value is rejected before any data
///   is processed.
pub fn trivium_xor(key: Vec<u8>, iv: Vec<u8>, data: Vec<u8>, bit_order: Option<String>) -> (r:
    Result<Vec<u8>, String>)
    ensures
        match r {
            Ok(out) => spec_parse(opt_view(bit_order)) matches Some(order) && out@
                == xor_keystream(key@, iv@, order, data@) && out@.len() == data@.len(),
            Err(m) => spec_parse(opt_view(bit_order)) is None && (bit_order matches Some(s) && m@
                == error_chars(trimmed(s@))),
        },
{
    let order = match parse_bit_order(bit_order) {
        Ok(o) => o,
        Err(e) => {
            return Err(e);
        },
    };
    let trivium = Trivium::new(&key, &iv, order, PackOrder::Lsb);
    Ok(trivium.xor_bytes(&data))
}

} // verus!
