//! The two operations the command line offers, returning the line it prints.
use crate::codec::{opened_envelope, sealed_envelope, CipherError, NONCE_LEN};
use crate::store::{self, looked_up, Store};
use vstd::prelude::*;
use vstd::string::*;

verus! {

/// The line printed for a value that was found.
pub open spec fn found_line(key: Seq<char>, value: Seq<char>) -> Seq<char> {
    key + ": "@ + value
}

/// Looks `key` up and returns the line to print: `"<key>: <value>"`, or
/// "environment variable not found" for an absent key, which is no error.
pub fn get_env_variable(store: &Store, key: &str, encryption_key: &str) -> (r: Result<
    String,
    CipherError,
>)
    requires
        store.wf(),
    ensures
        match looked_up(store@, key@, encryption_key.spec_bytes()) {
            None => r matches Ok(line) && line@ == "environment variable not found"@,
            Some(Ok(value)) => r matches Ok(line) && line@ == found_line(key@, value),
            Some(Err(e)) => r == Err::<String, CipherError>(e),
        },
{
    proof {
        reveal_strlit(": ");
        reveal_strlit("environment variable not found");
    }
    match store::get_env_variable(store, key, encryption_key) {
        Ok(None) => Ok(String::from_str("environment variable not found")),
        Ok(Some(value)) => {
            let mut line = key.to_owned();
            line.append(": ");
            line.append(value.as_str());
            Ok(line)
        },
        Err(e) => Err(e),
    }
}

/// Seals and stores `value` under `key`, and returns the confirmation line
/// "environment variable set successfully".
pub fn set_env_variable(store: &mut Store, key: &str, value: &str, encryption_key: &str) -> (r:
    Result<String, CipherError>)
    requires
        old(store).wf(),
    ensures
        final(store).wf(),
        r matches Ok(line) ==> line@ == "environment variable set successfully"@,
        exists|nonce: Seq<u8>|
            nonce.len() == NONCE_LEN && match #[trigger] sealed_envelope(
                value@,
                encryption_key.spec_bytes(),
                nonce,
            ) {
                Ok(e) => r is Ok && final(store)@ == old(store)@.insert(key@, e),
                Err(err) => r == Err::<String, CipherError>(err) && final(store)@ == old(store)@,
            },
        r is Ok ==> opened_envelope(final(store)@[key@], encryption_key.spec_bytes()) == Ok::<
            Seq<char>,
            CipherError,
        >(value@),
{
    proof {
        reveal_strlit("environment variable set successfully");
    }
    match store::set_env_variable(store, key, value, encryption_key) {
        Ok(()) => Ok(String::from_str("environment variable set successfully")),
        Err(e) => Err(e),
    }
}

} // verus!
