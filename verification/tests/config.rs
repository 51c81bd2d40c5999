//! Permission modes and settings.
use ronin::config::{
    check_config, check_defaults, env_settings, load_layers, merge_entries, merged_settings,
    parse_switch, update_defaults, ConfigError, CreditLimit, EnvNumber, EnvSettings, LayerFile,
    PermissionMode, RoninConfig,
};
use ronin::json::read_json;

fn file(path: &str, text: &str) -> LayerFile {
    LayerFile { path: path.to_string(), text: Ok(Some(text.to_string())) }
}

fn no_file(path: &str) -> LayerFile {
    LayerFile { path: path.to_string(), text: Ok(None) }
}

fn no_env() -> EnvSettings {
    EnvSettings {
        api_url: None,
        model: None,
        internal_model: None,
        permission_mode: None,
        web_search: None,
        allowed_tools: None,
        denied_tools: None,
        allowed_commands: None,
        denied_commands: None,
        max_credits: None,
        max_rounds: None,
    }
}

/// The settings by name, as TOML reads them.
fn settings(entries: Vec<(String, String)>) -> toml::Table {
    let text: Vec<String> = entries.iter().map(|(key, value)| format!("{key} = {value}")).collect();
    toml::from_str(&text.join("\n")).unwrap()
}

#[test]
fn interactive_modes_cycle_in_display_order() {
    let mut mode = PermissionMode::Default;
    let labels = (0..4)
        .map(|_| {
            let label = mode.label();
            mode = mode.next_interactive();
            label
        })
        .collect::<Vec<_>>();
    assert_eq!(labels, ["Manual", "Accept edits", "Plan", "Auto"]);
    assert_eq!(mode, PermissionMode::Default);
    assert_eq!(PermissionMode::Yolo.next_interactive(), PermissionMode::Default);
}

#[test]
fn manual_alias_preserves_default_config_compatibility() {
    let mode = |text: &str| PermissionMode::from_name(read_json(text).unwrap().as_str().unwrap());
    assert_eq!(mode("\"manual\"").unwrap(), PermissionMode::Default);
    assert_eq!(mode("\"default\"").unwrap(), PermissionMode::Default);
    assert_eq!(mode("\"other\""), None);
}

#[test]
fn mode_names_are_read_back() {
    for mode in [
        PermissionMode::Default,
        PermissionMode::AcceptEdits,
        PermissionMode::Plan,
        PermissionMode::Auto,
        PermissionMode::Yolo,
    ] {
        assert_eq!(PermissionMode::from_name(mode.name()), Some(mode));
        assert!(!mode.description().is_empty());
    }
    assert_eq!(PermissionMode::AcceptEdits.name(), "accept-edits");
    assert_eq!(PermissionMode::Yolo.default_name(), "default");
    assert_eq!(PermissionMode::Auto.default_name(), "auto");
    assert_eq!(PermissionMode::default(), PermissionMode::Default);
}

#[test]
fn desktop_defaults_preserve_comments_and_unknown_keys() {
    let before = "# keep me\nunknown_future_key = \"value\"\n";
    let raw = update_defaults(
        "config.toml",
        before,
        "openai/gpt-5",
        PermissionMode::Plan,
        "12.5",
    )
    .unwrap();
    assert!(raw.contains("# keep me"));
    assert!(raw.contains("unknown_future_key"));
    let loaded = settings(
        merged_settings(&file("config.toml", &raw), &no_file("ronin.toml"), &no_env()).unwrap(),
    );
    assert_eq!(loaded["default_model"].as_str(), Some("openai/gpt-5"));
    assert_eq!(
        PermissionMode::from_name(loaded["permission_mode"].as_str().unwrap()),
        Some(PermissionMode::Plan)
    );
    assert_eq!(loaded["max_credits"].as_float(), Some(12.5));
    assert_eq!(
        raw,
        "# keep me\nunknown_future_key = \"value\"\ndefault_model = \"openai/gpt-5\"\npermission_mode = \"plan\"\nmax_credits = 12.5\n"
    );
}

#[test]
fn defaults_replace_those_that_were_kept() {
    let raw = update_defaults(
        "config.toml",
        "default_model = 'a' # mine\nmax_credits = 1\n",
        "b\"c",
        PermissionMode::Yolo,
        "2.0",
    )
    .unwrap();
    let loaded: toml::Table = toml::from_str(&raw).unwrap();
    assert_eq!(loaded["default_model"].as_str(), Some("b\"c"));
    assert_eq!(loaded["permission_mode"].as_str(), Some("default"));
    assert_eq!(loaded["max_credits"].as_float(), Some(2.0));
    match update_defaults("config.toml", "= 1", "m", PermissionMode::Auto, "2.0") {
        Err(ConfigError::Toml(path, _)) => assert_eq!(path, "config.toml"),
        other => panic!("{other:?}"),
    }
}

#[test]
fn defaults_are_checked() {
    assert_eq!(check_defaults("m", true), Ok(()));
    let invalid = Err(ConfigError::Invalid("desktop defaults are invalid".to_string()));
    assert_eq!(check_defaults(" ", true), invalid);
    assert_eq!(check_defaults("m", false), invalid);
    assert_eq!(check_defaults(&"é".repeat(64), true), Ok(()));
    assert_eq!(check_defaults(&"é".repeat(65), true), invalid);
}

#[test]
fn config_layers_global_then_project() {
    let value = settings(
        merged_settings(
            &file("config.toml", "api_url='https://global.example'\nmax_rounds=10\n"),
            &file("ronin.toml", "max_rounds=20\n"),
            &no_env(),
        )
        .unwrap(),
    );
    assert_eq!(value["api_url"].as_str(), Some("https://global.example"));
    assert_eq!(value["max_rounds"].as_integer(), Some(20));
}

#[test]
fn the_later_of_two_settings_counts() {
    let entry = |key: &str, value: &str| (key.to_string(), value.to_string());
    assert_eq!(
        merge_entries(vec![entry("a", "1"), entry("b", "2"), entry("a", "3")]),
        vec![entry("a", "3"), entry("b", "2")]
    );
    let (user, project) = (file("a.toml", "x = 1\ny = 2"), file("b.toml", "x = 3"));
    let in_order = load_layers(&user, &project, &no_env()).unwrap();
    assert_eq!(in_order, vec![entry("x", "1"), entry("y", "2"), entry("x", "3")]);
    let once = merged_settings(&user, &project, &no_env()).unwrap();
    assert_eq!(once, vec![entry("x", "3"), entry("y", "2")]);
}

#[test]
fn other_settings_are_let_through() {
    let text = "max_rounds = 3\nlimits = [1, 2]\n[extra]\nname = \"a\\nb\"\n[extra.more]\nx = 1\n";
    let value =
        settings(merged_settings(&file("a.toml", text), &no_file("b.toml"), &no_env()).unwrap());
    let expected: toml::Table = toml::from_str(text).unwrap();
    assert_eq!(value, expected);
}

#[test]
fn the_environment_comes_last() {
    let mut env = no_env();
    env.api_url = Some("http://local".to_string());
    env.web_search = Some("off".to_string());
    env.allowed_commands = Some("git status, cargo test,".to_string());
    env.max_rounds = Some(EnvNumber { raw: "7".to_string(), value: Some("7".to_string()) });
    let value = settings(
        merged_settings(
            &file("config.toml", "api_url='https://global.example'"),
            &file("ronin.toml", "web_search = true"),
            &env,
        )
        .unwrap(),
    );
    assert_eq!(value["api_url"].as_str(), Some("http://local"));
    assert_eq!(value["web_search"].as_bool(), Some(false));
    assert_eq!(value["max_rounds"].as_integer(), Some(7));
    let commands: Vec<&str> =
        value["allowed_commands"].as_array().unwrap().iter().map(|v| v.as_str().unwrap()).collect();
    assert_eq!(commands, ["git status", "cargo test"]);
}

#[test]
fn broken_settings_are_reported() {
    match merged_settings(&file("a.toml", "x = "), &no_file("b.toml"), &no_env()) {
        Err(ConfigError::Toml(path, message)) => {
            assert_eq!(path, "a.toml");
            assert!(!message.is_empty());
        }
        other => panic!("{other:?}"),
    }
    let unreadable = LayerFile { path: "b.toml".to_string(), text: Err("denied".to_string()) };
    let error = merged_settings(&no_file("a.toml"), &unreadable, &no_env()).unwrap_err();
    assert_eq!(error.message(), "Invalid TOML in b.toml: denied");
    let mut env = no_env();
    env.max_credits = Some(EnvNumber { raw: "many".to_string(), value: None });
    assert_eq!(
        env_settings(&env).unwrap_err().message(),
        "Invalid Ronin config: max_credits: expected a number"
    );
    let mut env = no_env();
    env.web_search = Some("maybe".to_string());
    assert!(env_settings(&env).is_err());
}

#[test]
fn switches_are_read() {
    for word in ["1", "true", "yes", "on", "ON"] {
        assert_eq!(parse_switch(word), Some(true), "{word}");
    }
    for word in ["0", "false", "no", "off"] {
        assert_eq!(parse_switch(word), Some(false), "{word}");
    }
    assert_eq!(parse_switch("maybe"), None);
}

#[test]
fn settings_are_checked() {
    let config = check_config(RoninConfig::default()).unwrap();
    assert_eq!(config.api_url, "https://chat-api.ronin.africa");
    assert_eq!(config.max_rounds, 50);
    assert!(config.web_search);
    let refused = |change: fn(&mut RoninConfig)| {
        let mut config = RoninConfig::default();
        change(&mut config);
        check_config(config).unwrap_err().message()
    };
    assert_eq!(
        refused(|c| c.api_url = "ftp://x".to_string()),
        "Invalid Ronin config: api_url: expected an HTTP(S) URL"
    );
    assert_eq!(
        refused(|c| c.max_rounds = 0),
        "Invalid Ronin config: max_rounds: must be from 1 to 200"
    );
    assert_eq!(
        refused(|c| c.max_rounds = 201),
        "Invalid Ronin config: max_rounds: must be from 1 to 200"
    );
    assert_eq!(
        refused(|c| {
            c.max_credits = Some(CreditLimit { bits: 0, micro: 0, positive: false });
        }),
        "Invalid Ronin config: max_credits: must be positive"
    );
}
