//! Where keys come from: from their files where both are there, else from the
//! generator.
use crate::crypt::scheme::{gen_keys_radix, paired, ClientKeyType, ServerKeyType};
use crate::crypt::NUM_BLOCKS;
use vstd::prelude::*;
use vstd::string::StringExecFns;

verus! {

/// Where the client key is kept, without the ending of key files.
pub const CLIENT_KEY_PATH: &'static str = "data/keys/client";

/// Where the server key is kept, without the ending of key files.
pub const SERVER_KEY_PATH: &'static str = "data/keys/server";

/// The ending of key files.
pub const KEY_ENDING: &'static str = ".key";

/// Where the keys of a session come from.
#[derive(Clone, Copy, Debug, PartialEq, Eq, Structural)]
pub enum KeySource {
    /// Both key files are there: the keys are read from them.
    Stored,
    /// A key file is missing: a fresh pair is generated and written to both.
    Fresh,
}

/// A fresh client key and the evaluation key that belongs to it.
pub fn generate_keys() -> (keys: (ClientKeyType, ServerKeyType))
    ensures
        paired(keys.0, keys.1),
{
    gen_keys_radix(NUM_BLOCKS)
}

/// The file that holds the key kept at `path`: the path with the ending of
/// key files.
pub fn key_file(path: &str) -> (file: String)
    ensures
        file@ == path@ + KEY_ENDING@,
{
    String::from_str(path).concat(KEY_ENDING)
}

/// Where the keys come from, given which of the two key files exist: from the
/// files only where both are there.
pub fn key_source(client_stored: bool, server_stored: bool) -> (source: KeySource)
    ensures
        source == KeySource::Stored <==> client_stored && server_stored,
        source == KeySource::Fresh <==> !(client_stored && server_stored),
{
    if client_stored && server_stored {
        KeySource::Stored
    } else {
        KeySource::Fresh
    }
}

} // verus!
