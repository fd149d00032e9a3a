//! Algebraic laws of the Trivium XOR transform, proved over the model.
//!
//! Every executable entry point is proved equal to [`xor_keystream`], so
//! these laws carry over to the executable code: what holds of the spec
//! holds of every run.

use vstd::prelude::*;

use crate::model::{
    init_state, lemma_xor_cancel, norm_bytes, warmed_state, xor_keystream, BitOrder, IV_BYTES,
    KEY_BYTES,
};

verus! {

/// Involution: applying the transform twice with the same key, IV and bit
/// order recovers the original data.  This holds for every bit order, so
/// in particular for most- and least-significant-bit-first loading.
pub proof fn lemma_xor_involution(key: Seq<u8>, iv: Seq<u8>, order: BitOrder, data: Seq<u8>)
    ensures
        xor_keystream(key, iv, order, xor_keystream(key, iv, order, data)) == data,
{
    let ct = xor_keystream(key, iv, order, data);
    let pt = xor_keystream(key, iv, order, ct);
    assert forall|i: int| 0 <= i < data.len() implies pt[i] == data[i] by {
        let k = warmed_state(key, iv, order).advanced((8 * i) as nat).out_byte();
        assert(ct[i] == (data[i] ^ k));
        assert(pt[i] == (ct[i] ^ k));
        lemma_xor_cancel(data[i], k);
    }
    assert(pt =~= data);
}

/// Length preservation: the transform never changes the length of the
/// data, including the empty case.
pub proof fn lemma_length_preserved(key: Seq<u8>, iv: Seq<u8>, order: BitOrder, data: Seq<u8>)
    ensures
        xor_keystream(key, iv, order, data).len() == data.len(),
{
}

/// The transform depends on the key and IV material only through its
/// normalized 10-byte form.
pub proof fn lemma_norm_determines(
    key1: Seq<u8>,
    iv1: Seq<u8>,
    key2: Seq<u8>,
    iv2: Seq<u8>,
    order: BitOrder,
    data: Seq<u8>,
)
    requires
        norm_bytes(key1, KEY_BYTES as nat) == norm_bytes(key2, KEY_BYTES as nat),
        norm_bytes(iv1, IV_BYTES as nat) == norm_bytes(iv2, IV_BYTES as nat),
    ensures
        xor_keystream(key1, iv1, order, data) == xor_keystream(key2, iv2, order, data),
{
    assert(init_state(key1, iv1, order).a =~= init_state(key2, iv2, order).a);
    assert(init_state(key1, iv1, order).b =~= init_state(key2, iv2, order).b);
    assert(init_state(key1, iv1, order).c =~= init_state(key2, iv2, order).c);
    assert(init_state(key1, iv1, order) == init_state(key2, iv2, order));
}

/// Padding equivalence: a key shorter than 10 bytes and an IV shorter
/// than 10 bytes behave exactly as their zero-padded 10-byte forms.
pub proof fn lemma_padding_equivalence(key: Seq<u8>, iv: Seq<u8>, order: BitOrder, data: Seq<u8>)
    requires
        key.len() <= KEY_BYTES,
        iv.len() <= IV_BYTES,
    ensures
        xor_keystream(key, iv, order, data) == xor_keystream(
            key + Seq::new((KEY_BYTES - key.len()) as nat, |i: int| 0u8),
            iv + Seq::new((IV_BYTES - iv.len()) as nat, |i: int| 0u8),
            order,
            data,
        ),
{
    let kp = key + Seq::new((KEY_BYTES - key.len()) as nat, |i: int| 0u8);
    let vp = iv + Seq::new((IV_BYTES - iv.len()) as nat, |i: int| 0u8);
    assert(norm_bytes(key, KEY_BYTES as nat) =~= norm_bytes(kp, KEY_BYTES as nat));
    assert(norm_bytes(iv, IV_BYTES as nat) =~= norm_bytes(vp, IV_BYTES as nat));
    lemma_norm_determines(key, iv, kp, vp, order, data);
}

/// Determinism: the keystream, and with it the whole transform, is a pure
/// function of key, IV and bit order; any two results computed from
/// identical inputs are byte-for-byte identical.
pub proof fn lemma_deterministic(
    key: Seq<u8>,
    iv: Seq<u8>,
    order: BitOrder,
    data: Seq<u8>,
    out1: Seq<u8>,
    out2: Seq<u8>,
)
    requires
        out1 == xor_keystream(key, iv, order, data),
        out2 == xor_keystream(key, iv, order, data),
    ensures
        out1 == out2,
{
}

} // verus!
