//! The environment of a command that is run in a box.

use terra::error::Error;
use terra::exec_env::{is_host_identity_var, resolve_exec_env_from};
use terra::ordered::TextMap;

fn map(pairs: &[(&str, &str)]) -> TextMap<String> {
    let mut map = TextMap::new();
    for (key, value) in pairs {
        map.insert(key.to_string(), value.to_string());
    }
    map
}

fn resolve(entries: &[&str], host: &[(&str, &str)]) -> Result<TextMap<String>, Error> {
    let entries: Vec<String> = entries.iter().map(|e| e.to_string()).collect();
    resolve_exec_env_from(false, &entries, &map(host), &Vec::new())
}

#[test]
fn invalid_env_entries_are_refused() {
    assert!(resolve(&["FOO=BAR"], &[]).is_ok());
    assert!(resolve(&["FOO=BAR=BAZ"], &[]).is_ok());
    assert!(resolve(&[""], &[]).is_err());
    assert!(resolve(&["=BAR"], &[]).is_err());
    assert!(resolve(&["NO_EQUALS"], &[]).is_err());
    assert!(resolve(&["FO\0O=BAR"], &[]).is_err());
    assert!(resolve(&["FOO=BA\0R"], &[]).is_err());
    assert!(resolve(&["FO\0O"], &[]).is_err());
    assert_eq!(
        resolve(&["=BAR"], &[]).unwrap_err().message(),
        "invalid env `=BAR`: empty variable name"
    );
    assert_eq!(
        resolve(&["FOO=BA\0R"], &[]).unwrap_err().message(),
        "invalid env `FOO=BA\0R`: contains forbidden characters"
    );
}

#[test]
fn bare_keys_inherit_from_host_environment() {
    let host = [("SET", "val"), ("WITH_NUL", "bad\0val")];
    let env = resolve(&["SET"], &host).unwrap();
    assert_eq!(env.get("SET").map(String::as_str), Some("val"));

    let err = resolve(&["UNSET"], &host).unwrap_err().message();
    assert!(err.contains("is not set on the host"), "{err}");

    assert!(resolve(&["WITH_NUL"], &host).is_err());
}

#[test]
fn blanket_inherit_env_skips_host_identity_vars() {
    let host: Vec<(String, String)> = [
        ("HOME", "/home/hostuser"),
        ("PATH", "/usr/bin:/bin"),
        ("USER", "hostuser"),
        ("LOGNAME", "hostuser"),
        ("SHELL", "/bin/zsh"),
        ("PWD", "/host/project"),
        ("OLDPWD", "/host"),
        ("_", "/usr/bin/terra"),
        ("DISPLAY", ":0"),
        ("WAYLAND_DISPLAY", "wayland-0"),
        ("SSH_AUTH_SOCK", "/tmp/ssh.sock"),
        ("TERRA_INTERNAL", "1"),
        ("APP_SECRET", "supersecret"),
        ("TERM", "xterm-256color"),
    ]
    .into_iter()
    .map(|(k, v)| (k.to_string(), v.to_string()))
    .collect();

    let env = resolve_exec_env_from(true, &Vec::new(), &TextMap::new(), &host).unwrap();

    assert_eq!(env.get("APP_SECRET").map(String::as_str), Some("supersecret"));
    assert_eq!(env.get("TERM").map(String::as_str), Some("xterm-256color"));
    for filtered in [
        "HOME",
        "PATH",
        "USER",
        "LOGNAME",
        "SHELL",
        "PWD",
        "OLDPWD",
        "_",
        "DISPLAY",
        "WAYLAND_DISPLAY",
        "SSH_AUTH_SOCK",
        "TERRA_INTERNAL",
    ] {
        assert!(!env.contains_key(filtered), "{filtered} should have been filtered");
        assert!(is_host_identity_var(filtered));
    }
}

#[test]
fn explicit_entries_override_blanket_inherit_and_allow_filtered_vars() {
    let host = vec![
        ("APP_VAR".to_string(), "original".to_string()),
        ("HOME".to_string(), "/home/hostuser".to_string()),
    ];
    let entries = vec![
        "APP_VAR=overridden".to_string(),
        "HOME".to_string(),
        "CUSTOM=value".to_string(),
    ];
    let lookup = map(&[("APP_VAR", "original"), ("HOME", "/home/hostuser")]);
    let env = resolve_exec_env_from(true, &entries, &lookup, &host).unwrap();

    assert_eq!(env.get("APP_VAR").map(String::as_str), Some("overridden"));
    assert_eq!(env.get("HOME").map(String::as_str), Some("/home/hostuser"));
    assert_eq!(env.get("CUSTOM").map(String::as_str), Some("value"));
    assert_eq!(env.len(), 3);
}

#[test]
fn variables_that_cannot_be_exported_are_not_inherited() {
    let host = vec![
        ("".to_string(), "x".to_string()),
        ("A=B".to_string(), "x".to_string()),
        ("NUL\0".to_string(), "x".to_string()),
        ("VALUE".to_string(), "a\0b".to_string()),
        ("FINE".to_string(), "1".to_string()),
        ("FINE".to_string(), "2".to_string()),
    ];
    let env = resolve_exec_env_from(true, &Vec::new(), &TextMap::new(), &host).unwrap();
    assert_eq!(env.len(), 1);
    assert_eq!(env.get("FINE").map(String::as_str), Some("2"));
}
