use std::collections::HashMap;
use std::path::PathBuf;

use knowledge_mcp::config::{
    expand_tilde, expand_tilde_with_home, parse_keywords, parse_unsigned_text, Config, EnvReader,
    DEFAULT_CACHE_SIZE, DEFAULT_EMBEDDING_MAX_CHARS, DEFAULT_WATCHER_DEBOUNCE_MS,
};

/// Mock environment reader for testing.
struct MockEnvReader {
    vars: HashMap<String, String>,
    current_dir: Option<String>,
}

impl MockEnvReader {
    fn new() -> Self {
        Self { vars: HashMap::new(), current_dir: Some("/mock/cwd".to_string()) }
    }

    fn with_var(mut self, key: &str, value: &str) -> Self {
        self.vars.insert(key.to_string(), value.to_string());
        self
    }
}

impl EnvReader for MockEnvReader {
    fn get_var(&self, key: &str) -> Option<String> {
        self.vars.get(key).cloned()
    }

    fn current_dir(&self) -> Option<String> {
        self.current_dir.clone()
    }
}

#[test]
fn test_config_with_path() {
    let config = Config::with_path("/tmp/vault");
    assert_eq!(config.vault_path, "/tmp/vault");
    assert!(!config.sensitive_keywords.is_empty());
}

#[test]
fn test_config_from_env_with_vault_path() {
    let reader = MockEnvReader::new().with_var("KNOWLEDGE_VAULT_PATH", "/test/vault");
    let config = Config::from_env_reader(&reader);
    assert_eq!(config.vault_path, "/test/vault");
}

#[test]
fn test_config_from_env_without_vault_path() {
    let reader = MockEnvReader::new();
    let config = Config::from_env_reader(&reader);
    // Should fall back to current_dir
    assert_eq!(config.vault_path, "/mock/cwd");
}

#[test]
fn test_config_default_sensitive_keywords() {
    let config = Config::with_path("/tmp/vault");
    assert!(config.sensitive_keywords.contains(&"salary".to_string()));
}

#[test]
fn test_config_custom_sensitive_keywords() {
    let reader = MockEnvReader::new().with_var("KNOWLEDGE_SENSITIVE_KEYWORDS", "foo, bar, baz");
    let config = Config::from_env_reader(&reader);
    assert_eq!(config.sensitive_keywords, vec!["foo", "bar", "baz"]);
}

#[test]
fn test_config_empty_sensitive_keywords_filtered() {
    let reader = MockEnvReader::new().with_var("KNOWLEDGE_SENSITIVE_KEYWORDS", "foo, , bar");
    let config = Config::from_env_reader(&reader);
    assert_eq!(config.sensitive_keywords, vec!["foo", "bar"]);
}

#[test]
fn test_config_default_cache_settings() {
    let config = Config::with_path("/tmp/vault");
    assert_eq!(config.cache_size, DEFAULT_CACHE_SIZE);
    assert!(config.enable_watcher);
    assert_eq!(config.watcher_debounce_ms, DEFAULT_WATCHER_DEBOUNCE_MS);
    assert!(config.enable_embeddings);
    assert_eq!(config.embedding_max_chars, DEFAULT_EMBEDDING_MAX_CHARS);
}

#[test]
fn test_config_custom_cache_size() {
    let reader = MockEnvReader::new().with_var("KNOWLEDGE_CACHE_SIZE", "1000");
    let config = Config::from_env_reader(&reader);
    assert_eq!(config.cache_size, 1000);
}

#[test]
fn test_config_disable_watcher() {
    let reader = MockEnvReader::new().with_var("KNOWLEDGE_ENABLE_WATCHER", "false");
    let config = Config::from_env_reader(&reader);
    assert!(!config.enable_watcher);

    let reader2 = MockEnvReader::new().with_var("KNOWLEDGE_ENABLE_WATCHER", "0");
    let config2 = Config::from_env_reader(&reader2);
    assert!(!config2.enable_watcher);
}

#[test]
fn test_config_disable_embeddings() {
    let reader = MockEnvReader::new().with_var("KNOWLEDGE_ENABLE_EMBEDDINGS", "false");
    let config = Config::from_env_reader(&reader);
    assert!(!config.enable_embeddings);
}

#[test]
fn test_config_custom_cache_dir() {
    let reader = MockEnvReader::new().with_var("KNOWLEDGE_CACHE_DIR", "/custom/cache");
    let config = Config::from_env_reader(&reader);
    assert_eq!(config.cache_dir, "/custom/cache");
}

#[test]
fn test_expand_tilde_with_path() {
    let expanded = expand_tilde("~/Documents/notes");
    let home = dirs::home_dir().unwrap();
    assert_eq!(PathBuf::from(expanded), home.join("Documents/notes"));
}

#[test]
fn test_expand_tilde_only() {
    let expanded = expand_tilde("~");
    let home = dirs::home_dir().unwrap();
    assert_eq!(PathBuf::from(expanded), home);
}

#[test]
fn test_expand_tilde_absolute_path() {
    let expanded = expand_tilde("/absolute/path");
    assert_eq!(expanded, "/absolute/path");
}

#[test]
fn test_expand_tilde_relative_path() {
    let expanded = expand_tilde("relative/path");
    assert_eq!(expanded, "relative/path");
}

#[test]
fn test_config_vault_path_tilde_expansion() {
    let reader = MockEnvReader::new().with_var("KNOWLEDGE_VAULT_PATH", "~/Documents/notes");
    let config = Config::from_env_reader(&reader);
    let home = dirs::home_dir().unwrap();
    assert_eq!(PathBuf::from(config.vault_path), home.join("Documents/notes"));
}

#[test]
fn test_config_cache_dir_tilde_expansion() {
    let reader = MockEnvReader::new().with_var("KNOWLEDGE_CACHE_DIR", "~/.cache/knowledge");
    let config = Config::from_env_reader(&reader);
    let home = dirs::home_dir().unwrap();
    assert_eq!(PathBuf::from(config.cache_dir), home.join(".cache/knowledge"));
}

#[test]
fn config_expand_tilde_with_given_home() {
    let home = Some("/home/me".to_string());
    assert_eq!(expand_tilde_with_home("~/a/b", &home), "/home/me/a/b");
    assert_eq!(expand_tilde_with_home("~", &home), "/home/me");
    assert_eq!(expand_tilde_with_home("~other", &home), "~other");
    assert_eq!(expand_tilde_with_home("~/a", &None), "~/a");
}

#[test]
fn config_numbers_parse_like_std() {
    assert_eq!(parse_unsigned_text("1000", u64::MAX), Some(1000));
    assert_eq!(parse_unsigned_text("+7", u64::MAX), Some(7));
    assert_eq!(parse_unsigned_text("", u64::MAX), None);
    assert_eq!(parse_unsigned_text("+", u64::MAX), None);
    assert_eq!(parse_unsigned_text("-1", u64::MAX), None);
    assert_eq!(parse_unsigned_text(" 1", u64::MAX), None);
    assert_eq!(parse_unsigned_text("18446744073709551615", u64::MAX), Some(u64::MAX));
    assert_eq!(parse_unsigned_text("18446744073709551616", u64::MAX), None);
    assert_eq!(parse_unsigned_text("256", 255), None);
    for s in ["0", "42", "+9", "x", "", "99999999999999999999"] {
        assert_eq!(parse_unsigned_text(s, u64::MAX), s.parse::<u64>().ok());
    }
}

#[test]
fn config_invalid_numbers_fall_back_to_defaults() {
    let reader = MockEnvReader::new()
        .with_var("KNOWLEDGE_CACHE_SIZE", "lots")
        .with_var("KNOWLEDGE_WATCHER_DEBOUNCE_MS", "250")
        .with_var("KNOWLEDGE_EMBEDDING_MAX_CHARS", "-3");
    let config = Config::from_env_reader(&reader);
    assert_eq!(config.cache_size, DEFAULT_CACHE_SIZE);
    assert_eq!(config.watcher_debounce_ms, 250);
    assert_eq!(config.embedding_max_chars, DEFAULT_EMBEDDING_MAX_CHARS);
}

#[test]
fn config_switches() {
    for (value, on) in [("FALSE", false), ("0", false), ("no", true), ("", true), ("true", true)] {
        let reader = MockEnvReader::new().with_var("KNOWLEDGE_ENABLE_EMBEDDINGS", value);
        assert_eq!(Config::from_env_reader(&reader).enable_embeddings, on, "value {:?}", value);
    }
}

#[test]
fn config_keywords_are_trimmed_and_lowercased() {
    assert_eq!(parse_keywords(" Salary ,SSN,,"), vec!["salary", "ssn"]);
    assert!(parse_keywords("").is_empty());
}

#[test]
fn config_without_current_dir_uses_dot() {
    let mut reader = MockEnvReader::new();
    reader.current_dir = None;
    assert_eq!(Config::from_env_reader(&reader).vault_path, ".");
}

#[test]
fn config_with_path_matches_env_with_only_the_vault_path() {
    let reader = MockEnvReader::new().with_var("KNOWLEDGE_VAULT_PATH", "/tmp/vault");
    let a = Config::from_env_reader(&reader);
    let b = Config::with_path("/tmp/vault");
    assert_eq!(a.vault_path, b.vault_path);
    assert_eq!(a.sensitive_keywords, b.sensitive_keywords);
    assert_eq!(a.cache_size, b.cache_size);
    assert_eq!(a.enable_watcher, b.enable_watcher);
    assert_eq!(a.watcher_debounce_ms, b.watcher_debounce_ms);
    assert_eq!(a.enable_embeddings, b.enable_embeddings);
    assert_eq!(a.embedding_max_chars, b.embedding_max_chars);
    assert_eq!(a.cache_dir, b.cache_dir);
}
