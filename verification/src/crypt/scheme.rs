//! The homomorphic scheme as the library sees it.
//!
//! Keys and ciphertexts are opaque. What is known of them is what the scheme
//! promises: a ciphertext decrypts to the integer that was encrypted, and the
//! evaluation key computes on that integer, modulo two to the sixteen, without
//! learning it. None of this is proved here: every function of this module
//! states in its contract what is taken on trust, and every such statement is
//! meant up to the decryption failure probability of the parameter set.
use vstd::arithmetic::power2::pow2;
use vstd::prelude::*;

verus! {

/// `tfhe::integer::ServerKey`, carried through as it is.
#[verifier::external_type_specification]
#[verifier::external_body]
pub struct ExServerKey(tfhe::integer::ServerKey);

/// `tfhe::integer::RadixClientKey`, carried through as it is.
#[verifier::external_type_specification]
#[verifier::external_body]
pub struct ExRadixClientKey(tfhe::integer::RadixClientKey);

/// The evaluation half of a key pair: computes on ciphertexts, cannot decrypt.
pub type ServerKeyType = tfhe::integer::ServerKey;

/// The secret half of a key pair: encrypts and decrypts.
pub type ClientKeyType = tfhe::integer::RadixClientKey;

/// One encrypted sample: a radix ciphertext of the scheme, `tfhe`'s
/// `RadixCiphertextBig`. Nothing of its inside is visible to the proofs.
#[verifier::external_body]
pub struct EncryptedImageData {
    pub radix: tfhe::integer::RadixCiphertextBig,
}

/// Plaintexts live modulo this number: two to the sixteen.
pub const PLAIN_MODULUS: u64 = 65536;

/// The highest block load that the evaluation key takes: its `max_degree`,
/// which leaves a block room for the carry of the block below.
pub const MAX_LOAD: u64 = 11;

/// The block load of a ciphertext whose carries are empty.
pub const CLEAN_LOAD: u64 = 3;

/// What `RadixClientKey::decrypt` returns for `sample` under `key`.
pub uninterp spec fn decryption(key: ClientKeyType, sample: EncryptedImageData) -> u64;

/// `client` and `server` are the two halves of one key pair, as `gen_keys_radix`
/// makes them for the parameter set `PARAM_MESSAGE_2_CARRY_2` and eight blocks.
pub uninterp spec fn paired(client: ClientKeyType, server: ServerKeyType) -> bool;

/// `sample` has the layout that `server` computes on: eight blocks, each of the
/// size and with the moduli of the key's parameter set. `tfhe` panics on other
/// layouts, so every call into it asks for this.
pub uninterp spec fn computable(server: ServerKeyType, sample: EncryptedImageData) -> bool;

/// `sample` is a ciphertext under `client` that decrypts faithfully: the noise
/// of every block is within what the parameter set decodes, and no block holds
/// or is recorded to hold (its `degree`) more than `load`.
pub uninterp spec fn sound(client: ClientKeyType, sample: EncryptedImageData, load: nat) -> bool;

/// `sample` has the layout that `client` decrypts: that of an evaluation key
/// paired with it.
pub open spec fn decryptable(client: ClientKeyType, sample: EncryptedImageData) -> bool {
    exists|server: ServerKeyType| #[trigger] paired(client, server) && computable(server, sample)
}

impl Clone for EncryptedImageData {
    /// `Clone::clone` of the ciphertext: a copy, block for block.
    #[verifier::external_body]
    fn clone(&self) -> (copy: Self)
        ensures
            copy == *self,
    {
        EncryptedImageData { radix: self.radix.clone() }
    }
}

/// `gen_keys_radix` for `PARAM_MESSAGE_2_CARRY_2`: a fresh client key that
/// splits integers into `num_blocks` blocks, and the evaluation key made from it.
/// The keys are random; what holds of every outcome is that they belong together.
#[verifier::external_body]
pub(crate) fn gen_keys_radix(num_blocks: usize) -> (keys: (ClientKeyType, ServerKeyType))
    ensures
        num_blocks == 8 ==> paired(keys.0, keys.1),
{
    tfhe::integer::gen_keys_radix(&tfhe::shortint::parameters::PARAM_MESSAGE_2_CARRY_2, num_blocks)
}

/// `RadixClientKey::encrypt`: a fresh ciphertext of the low sixteen bits of
/// `value`, two bits to a block, carries empty. The ciphertext is random; what
/// holds of every outcome is what it decrypts to.
#[verifier::external_body]
pub(crate) fn encrypt(key: &ClientKeyType, value: u64) -> (sample: EncryptedImageData)
    ensures
        forall|server: ServerKeyType| #[trigger]
            paired(*key, server) ==> {
                &&& computable(server, sample)
                &&& sound(*key, sample, CLEAN_LOAD as nat)
                &&& decryption(*key, sample) == value % PLAIN_MODULUS
            },
{
    EncryptedImageData { radix: key.encrypt(value) }
}

/// `RadixClientKey::decrypt`: the blocks' values, carries included, summed by
/// their weight and cut to sixteen bits.
#[verifier::external_body]
pub(crate) fn decrypt(key: &ClientKeyType, sample: &EncryptedImageData) -> (value: u64)
    requires
        decryptable(*key, *sample),
    ensures
        value == decryption(*key, *sample),
        value < PLAIN_MODULUS,
{
    key.decrypt(&sample.radix)
}

/// `ServerKey::unchecked_add`: the block-wise sum, no carry moved. It is the
/// sum of the plaintexts as long as the loads together stay within what the
/// key takes.
#[verifier::external_body]
pub(crate) fn unchecked_add(
    key: &ServerKeyType,
    left: &EncryptedImageData,
    right: &EncryptedImageData,
) -> (sum: EncryptedImageData)
    requires
        computable(*key, *left),
        computable(*key, *right),
    ensures
        computable(*key, sum),
        forall|client: ClientKeyType, left_load: nat, right_load: nat|
            paired(client, *key) && #[trigger] sound(client, *left, left_load) && #[trigger] sound(
                client,
                *right,
                right_load,
            ) && left_load + right_load <= MAX_LOAD ==> {
                &&& sound(client, sum, left_load + right_load)
                &&& decryption(client, sum) == (decryption(client, *left) + decryption(
                    client,
                    *right,
                )) % (PLAIN_MODULUS as int)
            },
{
    EncryptedImageData { radix: key.unchecked_add(&left.radix, &right.radix) }
}

/// `ServerKey::add_parallelized`: the sum of the plaintexts, carries cleared
/// before where there are any and after.
#[verifier::external_body]
pub(crate) fn add_parallelized(
    key: &ServerKeyType,
    left: &EncryptedImageData,
    right: &EncryptedImageData,
) -> (sum: EncryptedImageData)
    requires
        computable(*key, *left),
        computable(*key, *right),
    ensures
        computable(*key, sum),
        forall|client: ClientKeyType, left_load: nat, right_load: nat|
            paired(client, *key) && #[trigger] sound(client, *left, left_load) && #[trigger] sound(
                client,
                *right,
                right_load,
            ) && left_load <= MAX_LOAD && right_load <= MAX_LOAD ==> {
                &&& sound(client, sum, CLEAN_LOAD as nat)
                &&& decryption(client, sum) == (decryption(client, *left) + decryption(
                    client,
                    *right,
                )) % (PLAIN_MODULUS as int)
            },
{
    EncryptedImageData { radix: key.add_parallelized(&left.radix, &right.radix) }
}

/// `ServerKey::neg_parallelized`: the opposite of the plaintext, carries cleared.
#[verifier::external_body]
pub(crate) fn neg_parallelized(key: &ServerKeyType, sample: &EncryptedImageData) -> (opposite:
    EncryptedImageData)
    requires
        computable(*key, *sample),
    ensures
        computable(*key, opposite),
        forall|client: ClientKeyType, load: nat|
            paired(client, *key) && #[trigger] sound(client, *sample, load) && load <= MAX_LOAD ==> {
                &&& sound(client, opposite, CLEAN_LOAD as nat)
                &&& decryption(client, opposite) == (-(decryption(client, *sample) as int)) % (
                PLAIN_MODULUS as int)
            },
{
    EncryptedImageData { radix: key.neg_parallelized(&sample.radix) }
}

/// `ServerKey::scalar_sub_parallelized`: the plaintext less `scalar`, carries
/// cleared.
#[verifier::external_body]
pub(crate) fn scalar_sub_parallelized(
    key: &ServerKeyType,
    sample: &EncryptedImageData,
    scalar: u64,
) -> (difference: EncryptedImageData)
    requires
        computable(*key, *sample),
    ensures
        computable(*key, difference),
        forall|client: ClientKeyType, load: nat|
            paired(client, *key) && #[trigger] sound(client, *sample, load) && load <= MAX_LOAD ==> {
                &&& sound(client, difference, CLEAN_LOAD as nat)
                &&& decryption(client, difference) == (decryption(client, *sample) - scalar) % (
                PLAIN_MODULUS as int)
            },
{
    EncryptedImageData { radix: key.scalar_sub_parallelized(&sample.radix, scalar) }
}

/// `ServerKey::scalar_mul_parallelized`: the plaintext times `scalar`, carries
/// cleared.
#[verifier::external_body]
pub(crate) fn scalar_mul_parallelized(
    key: &ServerKeyType,
    sample: &EncryptedImageData,
    scalar: u64,
) -> (product: EncryptedImageData)
    requires
        computable(*key, *sample),
    ensures
        computable(*key, product),
        forall|client: ClientKeyType, load: nat|
            paired(client, *key) && #[trigger] sound(client, *sample, load) && load <= MAX_LOAD ==> {
                &&& sound(client, product, CLEAN_LOAD as nat)
                &&& decryption(client, product) == (decryption(client, *sample) * scalar) % (
                PLAIN_MODULUS as int)
            },
{
    EncryptedImageData { radix: key.scalar_mul_parallelized(&sample.radix, scalar) }
}

/// `ServerKey::unchecked_small_scalar_mul_parallelized`: every block times
/// `scalar`, which has to fit a block's two message bits; no carry moved. It is
/// the product of the plaintext as long as the load times `scalar` stays within
/// what the key takes.
#[verifier::external_body]
pub(crate) fn unchecked_small_scalar_mul_parallelized(
    key: &ServerKeyType,
    sample: &EncryptedImageData,
    scalar: u64,
) -> (product: EncryptedImageData)
    requires
        computable(*key, *sample),
        scalar < 4,
    ensures
        computable(*key, product),
        forall|client: ClientKeyType, load: nat|
            paired(client, *key) && #[trigger] sound(client, *sample, load) && load * scalar
                <= MAX_LOAD ==> {
                &&& sound(client, product, load * (scalar as nat))
                &&& decryption(client, product) == (decryption(client, *sample) * scalar) % (
                PLAIN_MODULUS as int)
            },
{
    EncryptedImageData { radix: key.unchecked_small_scalar_mul_parallelized(&sample.radix, scalar) }
}

/// `ServerKey::unchecked_scalar_right_shift_parallelized` by a whole number of
/// blocks: carries cleared, then the low blocks dropped and zero blocks put on
/// top.
#[verifier::external_body]
pub(crate) fn unchecked_scalar_right_shift_parallelized(
    key: &ServerKeyType,
    sample: &EncryptedImageData,
    shift: usize,
) -> (shifted: EncryptedImageData)
    requires
        computable(*key, *sample),
        shift % 2 == 0,
        shift <= 16,
    ensures
        computable(*key, shifted),
        forall|client: ClientKeyType, load: nat|
            paired(client, *key) && #[trigger] sound(client, *sample, load) && load <= MAX_LOAD ==> {
                &&& sound(client, shifted, CLEAN_LOAD as nat)
                &&& decryption(client, shifted) == decryption(client, *sample) / (pow2(
                    shift as nat,
                ) as u64)
            },
{
    EncryptedImageData {
        radix: key.unchecked_scalar_right_shift_parallelized(&sample.radix, shift),
    }
}

/// `rayon::join`: both tasks are run, at the same time where a thread is free,
/// and their results handed back once both are done.
#[verifier::external_body]
pub(crate) fn join<A, B, RA, RB>(first: A, second: B) -> (results: (RA, RB)) where
    A: FnOnce() -> RA + Send,
    B: FnOnce() -> RB + Send,
    RA: Send,
    RB: Send,

    requires
        first.requires(()),
        second.requires(()),
    ensures
        first.ensures((), results.0),
        second.ensures((), results.1),
{
    rayon::join(first, second)
}

} // verus!
