use vstd::arithmetic::div_mod::{lemma_mod_self_0, lemma_small_mod};
use vstd::prelude::*;

verus! {

/// The XOR of `bytes` against `key`, without repeating the key: byte `i` is
/// combined with `key[i]` while the key has bytes left; the tail past the key
/// is kept.
pub open spec fn xor_spec(bytes: Seq<u8>, key: Seq<u8>) -> Seq<u8> {
    Seq::new(bytes.len(), |i: int| if i < key.len() { bytes[i] ^ key[i] } else { bytes[i] })
}

/// XORs each byte of `bytes` with the key byte at the same index.
///
/// The key is not cycled: where `bytes` is longer than `key`, the bytes past
/// the end of the key are left as they are.
pub fn xor(bytes: &mut [u8], key: &[u8])
    ensures
        final(bytes)@ == xor_spec(old(bytes)@, key@),
{
    let n = bytes.len();
    let mut i: usize = 0;
    while i < n && i < key.len()
        invariant
            n == old(bytes)@.len(),
            bytes@.len() == n,
            i <= n,
            i <= key@.len(),
            forall|j: int| 0 <= j < i ==> bytes@[j] == old(bytes)@[j] ^ key@[j],
            forall|j: int| i <= j < n ==> bytes@[j] == old(bytes)@[j],
        decreases n - i,
    {
        let b = bytes[i] ^ key[i];
        bytes[i] = b;
        i += 1;
    }
    assert(bytes@ =~= xor_spec(old(bytes)@, key@));
}

/// Applying the cipher twice with the same key restores the buffer. This holds
/// for every length, the part past the end of the key being left alone.
pub proof fn lemma_xor_involution(bytes: Seq<u8>, key: Seq<u8>)
    ensures
        xor_spec(xor_spec(bytes, key), key) == bytes,
{
    assert forall|i: int| 0 <= i < bytes.len() && i < key.len() implies
        (bytes[i] ^ key[i]) ^ key[i] == bytes[i] by {
        let b = bytes[i];
        let k = key[i];
        assert((b ^ k) ^ k == b) by (bit_vector);
    }
    assert(xor_spec(xor_spec(bytes, key), key) =~= bytes);
}

/// Bytes at indices past the end of the key come out of the cipher unchanged.
pub proof fn lemma_xor_tail_unchanged(bytes: Seq<u8>, key: Seq<u8>, i: int)
    requires
        key.len() <= i < bytes.len(),
    ensures
        xor_spec(bytes, key)[i] == bytes[i],
{
}

/// A key read as an endless sequence: each `next` first steps to the
/// following position, wrapping to the front after the last one, and hands
/// out the byte there, so a fresh key starts with its second byte.
pub struct Key {
    position: usize,
    buffer: Vec<u8>,
}

impl Key {
    pub closed spec fn spec_position(&self) -> nat {
        self.position as nat
    }

    pub closed spec fn spec_buffer(&self) -> Seq<u8> {
        self.buffer@
    }

    /// The position is always inside the buffer, or zero for an empty one.
    pub closed spec fn wf(&self) -> bool {
        self.position == 0 || self.position < self.buffer@.len()
    }

    pub fn new(buffer: Vec<u8>) -> (r: Key)
        ensures
            r.wf(),
            r.spec_buffer() == buffer@,
            r.spec_position() == 0,
    {
        Key { position: 0, buffer }
    }

    /// Moves to the next position, back to the front after the last one, and
    /// returns the byte there; `None` when the buffer is empty.
    pub fn next(&mut self) -> (r: Option<u8>)
        requires
            old(self).wf(),
        ensures
            final(self).wf(),
            final(self).spec_buffer() == old(self).spec_buffer(),
            old(self).spec_buffer().len() == 0 ==> r is None && final(self).spec_position() == 0,
            old(self).spec_buffer().len() > 0 ==> {
                &&& final(self).spec_position() == (old(self).spec_position() + 1) % old(
                    self,
                ).spec_buffer().len()
                &&& final(self).spec_position() == if old(self).spec_position() + 1 < old(
                    self,
                ).spec_buffer().len() {
                    old(self).spec_position() + 1
                } else {
                    0
                }
                &&& r == Some(old(self).spec_buffer()[final(self).spec_position() as int])
            },
    {
        let len = self.buffer.len();
        if len == 0 {
            return None;
        }
        if self.position + 1 < len {
            proof {
                lemma_small_mod((self.position + 1) as nat, len as nat);
            }
            self.position = self.position + 1;
        } else {
            proof {
                lemma_mod_self_0(len as int);
            }
            self.position = 0;
        }
        Some(self.buffer[self.position])
    }
}

} // verus!
