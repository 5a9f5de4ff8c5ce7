//! Keys, ciphertexts, and the encryption and decryption of whole images.
use crate::crypt::scheme::{
    computable, decrypt, decryptable, decryption, encrypt, paired, sound, ClientKeyType,
    ServerKeyType, CLEAN_LOAD,
};
use crate::image::{EncryptedImage, Image, PlaintextImage};
use vstd::prelude::*;

pub mod key;
pub mod operations;
pub mod scheme;

verus! {

/// Radix blocks per ciphertext: with two message bits each they give a
/// sixteen-bit plaintext window, room for an 8-bit sample times an 8-bit weight.
pub const NUM_BLOCKS: usize = 8;

/// Every sample of `image` has the layout that `key` computes on.
pub open spec fn computable_image(key: ServerKeyType, image: EncryptedImage) -> bool {
    forall|i: int| 0 <= i < image.data@.len() ==> computable(key, #[trigger] image.data@[i])
}

/// Every sample of `image` has the layout that `key` decrypts.
pub open spec fn decryptable_image(key: ClientKeyType, image: EncryptedImage) -> bool {
    forall|i: int| 0 <= i < image.data@.len() ==> decryptable(key, #[trigger] image.data@[i])
}

/// Every sample of `image` decrypts faithfully under `key` and has empty carries.
pub open spec fn sound_image(key: ClientKeyType, image: EncryptedImage) -> bool {
    forall|i: int|
        0 <= i < image.data@.len() ==> sound(key, #[trigger] image.data@[i], CLEAN_LOAD as nat)
}

/// What the samples of `image` decrypt to under `key`, in order.
pub open spec fn plaintexts(key: ClientKeyType, image: EncryptedImage) -> Seq<int> {
    Seq::new(image.data@.len(), |i: int| decryption(key, image.data@[i]) as int)
}

/// `encrypted` is `plain` sample by sample under `key`: same size and colour
/// type, as complete as `plain`, and for every evaluation key paired with `key` every sample can be
/// computed on, is sound, and decrypts to the plain sample in its place.
pub open spec fn is_encryption(key: ClientKeyType, plain: PlaintextImage, encrypted: EncryptedImage) -> bool {
    &&& encrypted.size == plain.size
    &&& encrypted.color_type == plain.color_type
    &&& encrypted.data@.len() == plain.data@.len()
    &&& plain.wf() ==> encrypted.wf()
    &&& forall|server: ServerKeyType| #[trigger]
        paired(key, server) ==> {
            &&& computable_image(server, encrypted)
            &&& sound_image(key, encrypted)
            &&& plaintexts(key, encrypted) == plain.data@.map_values(|sample: u8| sample as int)
        }
}

/// `plain` is `encrypted` decrypted sample by sample under `key`: same size and
/// colour type, as complete as `encrypted`, every sample the low eight bits of what the sample in its
/// place decrypts to.
pub open spec fn is_decryption(key: ClientKeyType, encrypted: EncryptedImage, plain: PlaintextImage) -> bool {
    &&& plain.size == encrypted.size
    &&& plain.color_type == encrypted.color_type
    &&& encrypted.wf() ==> plain.wf()
    &&& plain.data@ == plaintexts(key, encrypted).map_values(|value: int| (value % 256) as u8)
}

/// Encrypt every sample of `image` on its own.
pub fn encrypt_image(image: &PlaintextImage, key: &ClientKeyType) -> (encrypted: EncryptedImage)
    ensures
        is_encryption(*key, *image, encrypted),
{
    let mut data = Vec::new();
    let mut i: usize = 0;
    while i < image.data.len()
        invariant
            i <= image.data@.len(),
            data@.len() == i,
            forall|server: ServerKeyType, j: int|
                #![trigger paired(*key, server), data@[j]]
                paired(*key, server) && 0 <= j < i ==> {
                    &&& computable(server, data@[j])
                    &&& sound(*key, data@[j], CLEAN_LOAD as nat)
                    &&& decryption(*key, data@[j]) == image.data@[j]
                },
        decreases image.data@.len() - i,
    {
        let sample = encrypt(key, image.data[i] as u64);
        data.push(sample);
        i += 1;
    }
    let encrypted = Image { data, size: image.size, color_type: image.color_type };
    assert forall|server: ServerKeyType| #[trigger] paired(*key, server) implies {
        &&& computable_image(server, encrypted)
        &&& sound_image(*key, encrypted)
        &&& plaintexts(*key, encrypted) == image.data@.map_values(|sample: u8| sample as int)
    } by {
        assert forall|j: int| 0 <= j < encrypted.data@.len() implies computable(
            server,
            #[trigger] encrypted.data@[j],
        ) && sound(*key, encrypted.data@[j], CLEAN_LOAD as nat) && decryption(
            *key,
            encrypted.data@[j],
        ) == image.data@[j] by {
            assert(paired(*key, server));
        }
        assert(plaintexts(*key, encrypted) =~= image.data@.map_values(|sample: u8| sample as int));
    }
    encrypted
}

/// Decrypt every sample of `image` and keep its low eight bits.
pub fn decrypt_image(image: &EncryptedImage, key: &ClientKeyType) -> (plain: PlaintextImage)
    requires
        decryptable_image(*key, *image),
    ensures
        is_decryption(*key, *image, plain),
{
    let mut data: Vec<u8> = Vec::new();
    let mut i: usize = 0;
    while i < image.data.len()
        invariant
            i <= image.data@.len(),
            data@.len() == i,
            decryptable_image(*key, *image),
            forall|j: int|
                0 <= j < i ==> #[trigger] data@[j] == (decryption(*key, image.data@[j]) % 256) as u8,
        decreases image.data@.len() - i,
    {
        let value = decrypt(key, &image.data[i]);
        data.push((value % 256) as u8);
        i += 1;
    }
    let plain = Image { data, size: image.size, color_type: image.color_type };
    assert(plain.data@ =~= plaintexts(*key, *image).map_values(|value: int| (value % 256) as u8));
    plain
}

/// What an evaluation key computes on, the client key paired with it decrypts.
pub proof fn lemma_computable_is_decryptable(
    client: ClientKeyType,
    server: ServerKeyType,
    image: EncryptedImage,
)
    requires
        paired(client, server),
        computable_image(server, image),
    ensures
        decryptable_image(client, image),
{
    assert forall|i: int| 0 <= i < image.data@.len() implies decryptable(
        client,
        #[trigger] image.data@[i],
    ) by {
        assert(paired(client, server) && computable(server, image.data@[i]));
    }
}

/// Round trip: under a matched key pair, an image that is encrypted and then
/// decrypted comes back as it was, sample for sample.
pub proof fn lemma_round_trip(
    client: ClientKeyType,
    server: ServerKeyType,
    plain: PlaintextImage,
    encrypted: EncryptedImage,
    decrypted: PlaintextImage,
)
    requires
        paired(client, server),
        is_encryption(client, plain, encrypted),
        is_decryption(client, encrypted, decrypted),
    ensures
        decryptable_image(client, encrypted),
        decrypted.size == plain.size,
        decrypted.color_type == plain.color_type,
        decrypted.data@ == plain.data@,
{
    lemma_computable_is_decryptable(client, server, encrypted);
    let values = plaintexts(client, encrypted);
    assert(values == plain.data@.map_values(|sample: u8| sample as int));
    assert forall|i: int| 0 <= i < plain.data@.len() implies decrypted.data@[i] == plain.data@[i] by {
        assert(values[i] == plain.data@[i] as int);
    }
    assert(decrypted.data@ =~= plain.data@);
}

} // verus!
