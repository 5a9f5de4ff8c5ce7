//! The client's side: the secret key and what is done with it.
use crate::crypt::scheme::ClientKeyType;
use crate::crypt::{decrypt_image, decryptable_image, encrypt_image, is_decryption, is_encryption};
use crate::image::{EncryptedImage, PlaintextImage};
use vstd::prelude::*;

verus! {

/// A client of the server at `address`, holding the secret key.
pub struct Client {
    address: String,
    key: ClientKeyType,
}

impl Client {
    /// The secret key of the client.
    pub closed spec fn key(&self) -> ClientKeyType {
        self.key
    }

    /// Where the server is reached.
    pub closed spec fn server_address(&self) -> Seq<char> {
        self.address@
    }

    /// A client of the server at `address` that encrypts and decrypts with `key`.
    pub fn new(address: &str, key: ClientKeyType) -> (client: Self)
        ensures
            client.key() == key,
            client.server_address() == address@,
    {
        Self { address: address.to_owned(), key }
    }

    /// Where the server is reached.
    pub fn address(&self) -> (address: &str)
        ensures
            address@ == self.server_address(),
    {
        self.address.as_str()
    }

    /// Encrypt every sample of `image` under the client's key.
    pub fn encrypt_image(&self, image: &PlaintextImage) -> (encrypted: EncryptedImage)
        ensures
            is_encryption(self.key(), *image, encrypted),
    {
        encrypt_image(image, &self.key)
    }

    /// Decrypt every sample of `image` under the client's key.
    pub fn decrypt_image(&self, image: &EncryptedImage) -> (plain: PlaintextImage)
        requires
            decryptable_image(self.key(), *image),
        ensures
            is_decryption(self.key(), *image, plain),
    {
        decrypt_image(image, &self.key)
    }
}

} // verus!
