//! AES-128 in CBC mode, as the `aes` and `cbc` crates decrypt it.
use aes::cipher::block_padding::NoPadding;
use aes::cipher::{BlockModeDecrypt, KeyIvInit};
use vstd::prelude::*;

verus! {

/// The plain text of some blocks under a key and an initialization vector.
pub uninterp spec fn aes_cbc(key: Seq<u8>, iv: Seq<u8>, data: Seq<u8>) -> Seq<u8>;

/// A block that decryption is chained to: the last one of `done`, or the
/// initialization vector where nothing has been decrypted.
pub open spec fn chained(iv: Seq<u8>, done: Seq<u8>) -> Seq<u8> {
    if done.len() == 0 {
        iv
    } else {
        done.skip(done.len() - 16)
    }
}

/// What decrypting some blocks first has given.
pub open spec fn first_part(key: Seq<u8>, iv: Seq<u8>, done: Seq<u8>) -> Seq<u8> {
    if done.len() == 0 {
        Seq::empty()
    } else {
        aes_cbc(key, iv, done)
    }
}

/// `cbc::Decryptor::decrypt_padded` with `NoPadding`: as many bytes as there
/// were. In CBC a block is chained to the cipher text of the block before it
/// and to nothing else: where the initialization vector is the block that some
/// other blocks end with, the result continues theirs.
#[verifier::external_body]
pub(crate) fn decrypt_blocks(key: &[u8; 16], iv: &[u8; 16], data: &[u8]) -> (r: Vec<u8>)
    requires
        data@.len() > 0,
        data@.len() % 16 == 0,
    ensures
        r@ == aes_cbc(key@, iv@, data@),
        r@.len() == data@.len(),
        forall|start: Seq<u8>, done: Seq<u8>|
            start.len() == 16 && done.len() % 16 == 0 && chained(start, done) == iv@
                ==> #[trigger] aes_cbc(key@, start, done + data@) == first_part(key@, start, done)
                + r@,
{
    let mut buffer = data.to_vec();
    let cipher = cbc::Decryptor::<aes::Aes128>::new(key.into(), iv.into());
    match cipher.decrypt_padded::<NoPadding>(&mut buffer) {
        Ok(plain) => plain.to_vec(),
        Err(_) => Vec::new(),
    }
}

} // verus!
