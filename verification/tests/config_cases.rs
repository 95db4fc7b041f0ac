use jjit::cli::{apply_cli_overrides, Cli, Commands};
use jjit::commands::config::{config_for_set, list_line, ListLine};
use jjit::config::{locale_language, Config, ConfigError};

fn with(pairs: &[(&str, &str)]) -> Config {
    let v: Vec<(String, String)> = pairs
        .iter()
        .map(|(k, v)| (k.to_string(), v.to_string()))
        .collect();
    Config::from_pairs(&v)
}

fn s(x: &str) -> Option<String> {
    Some(x.to_string())
}

#[test]
fn default_settings_match_the_documented_table() {
    let c = Config::default();
    assert_eq!(c.get("model"), s("deepseek-v4-flash"));
    assert_eq!(c.get("base_url"), s("https://api.deepseek.com"));
    assert_eq!(c.get("verbose"), s("false"));
    assert_eq!(c.get("show_thinking"), s("true"));
    assert_eq!(c.get("debug"), s("false"));
    assert_eq!(c.get("language"), s("auto"));
    assert_eq!(c.get("api_key"), None);
}

#[test]
fn set_then_get_gives_the_value_and_keeps_others() {
    let mut c = Config::default();
    c.set("model", "other-model");
    c.set("api_key", "sk-1");
    assert_eq!(c.get("model"), s("other-model"));
    assert_eq!(c.get("api_key"), s("sk-1"));
    assert_eq!(c.get("base_url"), s("https://api.deepseek.com"));
    c.set("model", "third");
    assert_eq!(c.get("model"), s("third"));
}

#[test]
fn from_pairs_later_pair_wins() {
    let c = with(&[("a", "1"), ("b", "2"), ("a", "3")]);
    assert_eq!(c.get("a"), s("3"));
    assert_eq!(c.get("b"), s("2"));
    assert_eq!(c.get("c"), None);
}

#[test]
fn load_follows_the_precedence_order() {
    let global = with(&[("model", "global-model"), ("api_key", "g-key"), ("debug", "true")]);
    let local = with(&[("model", "local-model"), ("api_key", "l-key")]);
    let c = Config::load(Some(&global), Some(&local), None);
    assert_eq!(c.get("model"), s("local-model"));
    assert_eq!(c.get("api_key"), s("l-key"));
    assert_eq!(c.get("debug"), s("true"));
    assert_eq!(c.get("base_url"), s("https://api.deepseek.com"));

    let c = Config::load(Some(&global), Some(&local), Some("env-key"));
    assert_eq!(c.get("api_key"), s("env-key"));

    let c = Config::load(None, None, None);
    assert_eq!(c.get("model"), s("deepseek-v4-flash"));
    assert_eq!(c.get("api_key"), None);
}

#[test]
fn missing_api_key_is_an_error() {
    let c = Config::load(None, None, None);
    assert_eq!(c.ensure_api_key(), Err(ConfigError::MissingApiKey));
    let e = c.ensure_api_key().unwrap_err();
    assert_eq!(
        e.message(),
        "DeepSeek API key not configured. Run: jjit config set api_key <your-key>"
    );
    assert!(e.message().contains("jjit config set api_key"));
    let c = Config::load(None, None, Some("sk-env"));
    assert_eq!(c.ensure_api_key(), Ok("sk-env".to_string()));
}

#[test]
fn locale_language_takes_the_language_code() {
    assert_eq!(locale_language("zh_CN.UTF-8"), "zh");
    assert_eq!(locale_language("en_US.UTF-8"), "en");
    assert_eq!(locale_language("ja_JP"), "ja");
    assert_eq!(locale_language("C.UTF-8"), "C");
    assert_eq!(locale_language("fr"), "fr");
    assert_eq!(locale_language(""), "");
}

#[test]
fn resolve_language_auto_reads_lang_and_falls_back_to_zh() {
    let c = Config::default();
    assert_eq!(c.resolve_language(Some("zh_CN.UTF-8")), "zh");
    assert_eq!(c.resolve_language(Some("en_US.UTF-8")), "en");
    assert_eq!(c.resolve_language(None), "zh");
    assert_eq!(c.resolve_language(Some("")), "zh");
    assert_eq!(c.resolve_language(Some(".UTF-8")), "zh");
}

#[test]
fn resolve_language_explicit_setting_wins() {
    let mut c = Config::default();
    c.set("language", "ja");
    assert_eq!(c.resolve_language(Some("en_US.UTF-8")), "ja");
    c.set("language", "en");
    assert_eq!(c.resolve_language(None), "en");
}

#[test]
fn local_config_path_is_in_the_project() {
    assert_eq!(Config::local_config_path(), ".jjit/config.toml");
}

fn cli(verbose: bool, show_prompt: bool, debug: bool, no_thinking: bool, no_color: bool) -> Cli {
    Cli {
        command: Commands::Commit { dry_run: false },
        verbose,
        show_prompt,
        debug,
        no_thinking,
        no_color,
    }
}

#[test]
fn cli_flags_override_the_configuration() {
    let mut c = Config::default();
    apply_cli_overrides(&mut c, &cli(true, true, true, true, true));
    assert_eq!(c.get("verbose"), s("true"));
    assert_eq!(c.get("show_prompt"), s("true"));
    assert_eq!(c.get("debug"), s("true"));
    assert_eq!(c.get("show_thinking"), s("false"));
    assert_eq!(c.get("no_color"), s("true"));
    assert_eq!(c.get("model"), s("deepseek-v4-flash"));
}

#[test]
fn cli_without_flags_changes_nothing() {
    let mut c = Config::default();
    apply_cli_overrides(&mut c, &cli(false, false, false, false, false));
    assert_eq!(c.get("verbose"), s("false"));
    assert_eq!(c.get("show_prompt"), None);
    assert_eq!(c.get("show_thinking"), s("true"));
    assert_eq!(c.get("no_color"), None);
}

#[test]
fn config_set_keeps_the_file_and_adds_the_value() {
    let existing = with(&[("api_key", "sk-old"), ("model", "m1")]);
    let c = config_for_set(Some(&existing), "model", "m2");
    assert_eq!(c.get("model"), s("m2"));
    assert_eq!(c.get("api_key"), s("sk-old"));
    assert_eq!(c.get("base_url"), s("https://api.deepseek.com"));

    let c = config_for_set(None, "language", "ja");
    assert_eq!(c.get("language"), s("ja"));
    assert_eq!(c.get("api_key"), None);
}

#[test]
fn config_list_masks_long_api_keys() {
    match list_line("api_key", "sk-1234567890") {
        ListLine::Masked { key, shown } => {
            assert_eq!(key, "api_key");
            assert_eq!(shown, "sk-12345");
        }
        ListLine::Plain { .. } => panic!("expected a masked key"),
    }
    match list_line("api_key", "sk-12345") {
        ListLine::Plain { key, value } => {
            assert_eq!(key, "api_key");
            assert_eq!(value, "sk-12345");
        }
        ListLine::Masked { .. } => panic!("eight bytes are shown in full"),
    }
    match list_line("model", "deepseek-v4-flash") {
        ListLine::Plain { key, value } => {
            assert_eq!(key, "model");
            assert_eq!(value, "deepseek-v4-flash");
        }
        ListLine::Masked { .. } => panic!("only the API key is masked"),
    }
}
