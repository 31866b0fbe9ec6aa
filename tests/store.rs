use clienv::facade;
use clienv::store::parse_store;
use clienv::{
    decrypt, get_env_variable, load_env_variables, save_env_variables, set_env_variable,
    CipherError, Config, Store,
};

const KEY: &str = "0123456789abcdef0123456789abcdef";

#[test]
fn test_set_get_env_variable() {
    // This key is 34 bytes long: setting with it is refused and stores nothing.
    let key = "test_encryption_key_32_bytes_long!";
    let var_name = "TEST_VAR";
    let var_value = "test_value";
    let mut store = Store::new();

    assert!(store.envelope(var_name).is_none());
    assert_eq!(set_env_variable(&mut store, var_name, var_value, key), Err(CipherError::KeyLength));
    assert!(store.envelope(var_name).is_none());
    assert_eq!(get_env_variable(&store, var_name, key), Ok(None));
}

#[test]
fn set_get_with_a_valid_key() {
    let var_name = "TEST_VAR";
    let var_value = "test_value";
    let mut store = Store::new();

    assert!(store.envelope(var_name).is_none());
    set_env_variable(&mut store, var_name, var_value, KEY).unwrap();
    let encrypted_value = store.envelope(var_name).unwrap();
    assert_ne!(encrypted_value, var_value);
    assert_eq!(decrypt(&encrypted_value, KEY).unwrap(), var_value);

    let retrieved = get_env_variable(&store, var_name, KEY);
    assert_eq!(retrieved, Ok(Some(var_value.to_string())));
}

#[test]
fn test_load_save_env_variables() {
    let mut store = Store::new();
    store.insert("TEST_KEY", "TEST_VALUE".to_string());

    let text = save_env_variables(&store);
    let loaded = load_env_variables(Some(&text));

    assert_eq!(loaded.len(), 1);
    assert_eq!(loaded.envelope("TEST_KEY"), Some("TEST_VALUE".to_string()));
    assert_eq!(loaded.envelope("OTHER"), None);
}

#[test]
fn saved_text_is_a_json_object() {
    let mut store = Store::new();
    store.insert("B", "2".to_string());
    store.insert("A", "1".to_string());
    let text = save_env_variables(&store);
    assert_eq!(text, "{\n  \"A\": \"1\",\n  \"B\": \"2\"\n}");
    assert_eq!(save_env_variables(&Store::new()), "{}");
}

#[test]
fn isolation_of_keys() {
    let mut store = Store::new();
    set_env_variable(&mut store, "A", "1", KEY).unwrap();
    set_env_variable(&mut store, "B", "2", KEY).unwrap();
    assert_eq!(get_env_variable(&store, "A", KEY), Ok(Some("1".to_string())));
    assert_eq!(get_env_variable(&store, "B", KEY), Ok(Some("2".to_string())));
}

#[test]
fn overwrite_keeps_last_value() {
    let mut store = Store::new();
    set_env_variable(&mut store, "K", "first", KEY).unwrap();
    set_env_variable(&mut store, "K", "second", KEY).unwrap();
    assert_eq!(get_env_variable(&store, "K", KEY), Ok(Some("second".to_string())));
}

#[test]
fn missing_key_is_not_an_error() {
    let store = Store::new();
    assert_eq!(get_env_variable(&store, "NOPE", KEY), Ok(None));
}

#[test]
fn persistence_survives_reload() {
    let mut store = Store::new();
    set_env_variable(&mut store, "K", "V", KEY).unwrap();
    let text = save_env_variables(&store);
    let reloaded = load_env_variables(Some(&text));
    assert_eq!(get_env_variable(&reloaded, "K", KEY), Ok(Some("V".to_string())));
}

#[test]
fn load_policy_for_missing_and_corrupt_files() {
    let empty = load_env_variables(None);
    assert_eq!(save_env_variables(&empty), "{}");
    let corrupt = load_env_variables(Some("this is not json"));
    assert_eq!(corrupt.envelope("K"), None);
    assert!(parse_store("[1, 2]").is_none());
    assert!(parse_store("{\"K\": \"V\"}").is_some());
}

#[test]
fn corrupted_stored_value_is_reported() {
    let mut store = Store::new();
    store.insert("K", "garbage".to_string());
    assert_eq!(get_env_variable(&store, "K", KEY), Err(CipherError::MalformedEnvelope));
    set_env_variable(&mut store, "K", "v", KEY).unwrap();
    let other = "fedcba9876543210fedcba9876543210";
    assert_eq!(get_env_variable(&store, "K", other), Err(CipherError::Authentication));
}

#[test]
fn facade_set_then_get_scenario() {
    let secret = "abcdefghijklmnopqrstuvwxyz012345";
    let mut store = Store::new();
    let set_line = facade::set_env_variable(&mut store, "DB_PASS", "s3cr3t", secret).unwrap();
    assert_eq!(set_line, "environment variable set successfully");
    let get_line = facade::get_env_variable(&store, "DB_PASS", secret).unwrap();
    assert!(get_line.contains("DB_PASS: s3cr3t"));
    assert_eq!(get_line, "DB_PASS: s3cr3t");
}

#[test]
fn facade_get_unset_scenario() {
    let store = Store::new();
    let line = facade::get_env_variable(&store, "UNSET_VAR", KEY).unwrap();
    assert_eq!(line, "environment variable not found");
}

#[test]
fn facade_reports_key_length() {
    let mut store = Store::new();
    assert_eq!(facade::set_env_variable(&mut store, "K", "V", "short"), Err(CipherError::KeyLength));
}

#[test]
fn config_default_key() {
    assert_eq!(Config::with_key_or_default(None).encryption_key, "default_encryption_key");
    assert_eq!(
        Config::with_key_or_default(Some("test_key_123".to_string())).encryption_key,
        "test_key_123"
    );
}
