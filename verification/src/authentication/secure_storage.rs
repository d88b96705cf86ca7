//! Secure credential storage helpers. Platform keychains are not wired in yet:
//! every operation reports that it is not available.
use vstd::prelude::*;
use crate::authentication::Credentials;

verus! {

/// Encrypts credentials before storage
pub fn encrypt_credentials(_credentials: &Credentials) -> (r: Result<Vec<u8>, String>)
    ensures
        r matches Err(e) && e@ == "Encryption not implemented yet"@,
{
    Err("Encryption not implemented yet".to_string())
}

/// Decrypts credentials from storage
pub fn decrypt_credentials(_data: &[u8]) -> (r: Result<Credentials, String>)
    ensures
        r matches Err(e) && e@ == "Decryption not implemented yet"@,
{
    Err("Decryption not implemented yet".to_string())
}

/// Stores credentials securely using platform APIs
pub fn store_secure(_source_name: &str, _credentials: &Credentials) -> (r: Result<(), String>)
    ensures
        r matches Err(e) && e@ == "Secure storage not implemented yet"@,
{
    Err("Secure storage not implemented yet".to_string())
}

/// Retrieves credentials securely from platform APIs
pub fn retrieve_secure(_source_name: &str) -> (r: Result<Credentials, String>)
    ensures
        r matches Err(e) && e@ == "Secure storage not implemented yet"@,
{
    Err("Secure storage not implemented yet".to_string())
}

} // verus!
