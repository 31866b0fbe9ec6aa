//! A local secret store: named string values kept in one file, each value
//! sealed with AES-256-GCM under a configured key.
use vstd::prelude::*;

pub mod codec;
pub mod config;
pub mod facade;
pub mod search;
pub mod store;
pub mod text;

pub use codec::{decrypt, encrypt, encrypt_with_nonce, CipherError};
pub use config::Config;
pub use search::find_matches;
pub use store::{get_env_variable, load_env_variables, save_env_variables, set_env_variable, Store};

verus! {

/// The answer the command line prints for its self-check.
pub fn answer() -> (r: i32)
    ensures
        r == 42,
{
    42
}

} // verus!
