use vstd::prelude::*;
use block_modes::BlockMode;
use block_modes::cipher::generic_array::GenericArray;

verus! {

/// What decrypting the bytes `b` block by block with Blowfish (little-endian)
/// in ECB mode under the key `key` gives.
pub uninterp spec fn blowfish_le_ecb_decrypt(key: Seq<u8>, b: Seq<u8>) -> Seq<u8>;

/// A Blowfish key schedule (little-endian) in ECB mode. Only [`PackCipher`]
/// makes one, from the key that it keeps beside it.
#[verifier::external_body]
struct EcbState {
    inner: block_modes::Ecb<blowfish::BlowfishLE, block_modes::block_padding::ZeroPadding>,
}

/// Relies on block_modes' `Ecb::new_from_slices`, which fails only when
/// Blowfish's `new_from_slice` rejects a key shorter than 4 or longer than
/// 56 bytes (ECB ignores the IV).
#[verifier::external_body]
fn ecb_state_new(key: &[u8]) -> (r: Option<EcbState>)
    ensures
        r is Some <==> 4 <= key@.len() <= 56,
{
    block_modes::Ecb::new_from_slices(key, &[]).ok().map(|inner| EcbState { inner })
}

/// The archive cipher: Blowfish (little-endian) in ECB mode, with the key it
/// was made from.
pub struct PackCipher {
    key: Vec<u8>,
    state: EcbState,
}

impl PackCipher {
    /// The key the cipher was made from.
    pub closed spec fn key(&self) -> Seq<u8> {
        self.key@
    }

    /// A cipher for `key`; `None` unless the key is 4 to 56 bytes long.
    pub fn new(key: &[u8]) -> (r: Option<PackCipher>)
        ensures
            r is Some <==> 4 <= key@.len() <= 56,
            r matches Some(c) ==> c.key() == key@,
    {
        let state = match ecb_state_new(key) {
            Some(s) => s,
            None => {
                return None;
            },
        };
        let mut copy: Vec<u8> = Vec::new();
        let mut i: usize = 0;
        while i < key.len()
            invariant
                i <= key@.len(),
                copy@ == key@.take(i as int),
            decreases key@.len() - i,
        {
            copy.push(key[i]);
            i = i + 1;
            assert(copy@ =~= key@.take(i as int));
        }
        assert(key@.take(key@.len() as int) =~= key@);
        Some(PackCipher { key: copy, state })
    }

    /// Relies on block_modes' `BlockMode::decrypt_blocks` for ECB over
    /// Blowfish: each 8-byte block of `buf` is decrypted in place with the
    /// schedule that `new` built from `self.key`, so the result depends on the
    /// key and the bytes alone.
    #[verifier::external_body]
    #[allow(deprecated)]
    pub(crate) fn decrypt_in_place(&mut self, buf: &mut Vec<u8>)
        requires
            old(buf)@.len() % 8 == 0,
        ensures
            final(buf)@ == blowfish_le_ecb_decrypt(old(self).key(), old(buf)@),
            final(self).key() == old(self).key(),
            final(buf)@.len() == old(buf)@.len(),
    {
        for chunk in buf.chunks_exact_mut(8) {
            self.state.inner.decrypt_blocks(core::slice::from_mut(GenericArray::from_mut_slice(chunk)));
        }
    }
}

} // verus!
