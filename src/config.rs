//! The configured secret.
use vstd::prelude::*;
use vstd::string::*;

verus! {

/// Settings read at startup.
pub struct Config {
    /// The secret the store's values are sealed under.
    pub encryption_key: String,
}

impl Config {
    /// A configuration holding `key`, or the built-in default key when no
    /// key was supplied.
    pub fn with_key_or_default(key: Option<String>) -> (r: Config)
        ensures
            r.encryption_key@ == match key {
                Some(k) => k@,
                None => "default_encryption_key"@,
            },
    {
        proof {
            reveal_strlit("default_encryption_key");
        }
        match key {
            Some(k) => Config { encryption_key: k },
            None => Config { encryption_key: String::from_str("default_encryption_key") },
        }
    }
}

} // verus!
