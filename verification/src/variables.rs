//! Secure variables and the encryption keyring.
//!
//! Variables are namespaced key/value secrets sealed at rest by the keyring.
use crate::error::{Error, Result};
use crate::strmap::StrMap;
use vstd::prelude::*;

verus! {

/// The byte the stub keyring seals with: the first byte of its stub key
/// `"nomad-rs-stub-key-00000000000000000000"`.
pub const STUB_KEY_BYTE: u8 = 0x6e;

/// A namespaced secure variable.
#[derive(Debug, Clone)]
pub struct Variable {
    /// Namespace the variable lives in.
    pub namespace: String,
    /// Path within the namespace, e.g. `"nomad/jobs/redis"`.
    pub path: String,
    /// Key/value items stored at the path.
    pub items: StrMap<String>,
}

/// Why a variable is invalid, if it is.
pub open spec fn variable_problem(v: Variable) -> Option<Seq<char>> {
    if v.namespace@.len() == 0 {
        Some("variable namespace cannot be empty"@)
    } else if v.path@.len() == 0 {
        Some("variable path cannot be empty"@)
    } else if v.items.pairs().len() == 0 {
        Some("variable must have at least one item"@)
    } else {
        None
    }
}

impl Variable {
    /// Validate the variable.
    ///
    /// # Errors
    ///
    /// Returns [`Error::Config`] if `namespace` or `path` is empty or there
    /// are no items.
    pub fn validate(&self) -> (r: Result<()>)
        ensures
            match variable_problem(*self) {
                None => r is Ok,
                Some(msg) => r matches Err(e) && e.is_config(msg),
            },
    {
        if self.namespace.as_str().is_empty() {
            return Err(Error::Config("variable namespace cannot be empty".to_string()));
        }
        if self.path.as_str().is_empty() {
            return Err(Error::Config("variable path cannot be empty".to_string()));
        }
        if self.items.is_empty() {
            return Err(Error::Config("variable must have at least one item".to_string()));
        }
        Ok(())
    }
}

/// Every byte of `data` XORed with the key byte.
pub open spec fn sealed(data: Seq<u8>) -> Seq<u8> {
    data.map_values(|b: u8| b ^ STUB_KEY_BYTE)
}

/// The cluster encryption keyring used to seal and unseal variables at rest.
#[derive(Debug, Default)]
pub struct Keyring;

/// XOR every byte with the key byte.
fn xor_all(data: &[u8]) -> (r: Vec<u8>)
    ensures
        r@ == sealed(data@),
{
    let mut out: Vec<u8> = Vec::new();
    let mut i: usize = 0;
    while i < data.len()
        invariant
            i <= data@.len(),
            out@ == sealed(data@.take(i as int)),
        decreases data@.len() - i,
    {
        out.push(data[i] ^ STUB_KEY_BYTE);
        assert(sealed(data@.take(i + 1)) =~= sealed(data@.take(i as int)).push(data@[i as int] ^ STUB_KEY_BYTE));
        i = i + 1;
    }
    assert(data@.take(i as int) =~= data@);
    out
}

impl Keyring {
    /// Encrypt `plaintext` with the active key.
    ///
    /// # Errors
    ///
    /// Never, with the stub key, which is always available.
    pub fn encrypt(&self, plaintext: &[u8]) -> (r: Result<Vec<u8>>)
        ensures
            r matches Ok(c) && c@ == sealed(plaintext@),
    {
        Ok(xor_all(plaintext))
    }

    /// Decrypt `ciphertext` with the active key.
    ///
    /// # Errors
    ///
    /// Never, with the stub key, which is always available.
    pub fn decrypt(&self, ciphertext: &[u8]) -> (r: Result<Vec<u8>>)
        ensures
            r matches Ok(p) && p@ == sealed(ciphertext@),
    {
        Ok(xor_all(ciphertext))
    }
}

/// Decrypting what was encrypted gives the plaintext back: sealing twice is
/// the identity.
pub proof fn law_decrypt_encrypt(data: Seq<u8>)
    ensures
        sealed(sealed(data)) == data,
{
    assert forall|i: int| 0 <= i < data.len() implies sealed(sealed(data))[i] == data[i] by {
        let b = data[i];
        assert((b ^ 0x6eu8) ^ 0x6eu8 == b) by (bit_vector);
    }
    assert(sealed(sealed(data)) =~= data);
}

} // verus!
