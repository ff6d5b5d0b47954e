use std::path::Path;

use mailward::accounts::{load_accounts, ConfigError, RawAccount, ResolvedAccount};
use mailward::config::{normalize, ConfigDocument, FileConfig, RawDefaults, RawFileConfig, RawFolders, RawImap};
use mailward::vendors::{AuthMethod, THUNDERBIRD_CLIENT_ID};
use mailward::yaml::{deep_merge, values_equal, YamlValue};
use serde_yaml_ng::Value;

/// The library's model of a parsed YAML value.
fn to_yaml(v: &Value) -> YamlValue {
    match v {
        Value::Null => YamlValue::Null,
        Value::Bool(b) => YamlValue::Bool(*b),
        Value::Number(n) => YamlValue::Number(n.to_string()),
        Value::String(s) => YamlValue::String(s.clone()),
        Value::Sequence(items) => YamlValue::Sequence(items.iter().map(to_yaml).collect()),
        Value::Mapping(m) => YamlValue::Mapping(m.iter().map(|(k, x)| (to_yaml(k), to_yaml(x))).collect()),
        Value::Tagged(t) => YamlValue::Tagged(t.tag.to_string(), Box::new(to_yaml(&t.value))),
    }
}

/// Back to a serde value (mapping equality there ignores entry order).
fn from_yaml(v: &YamlValue) -> Value {
    match v {
        YamlValue::Null => Value::Null,
        YamlValue::Bool(b) => Value::Bool(*b),
        YamlValue::Number(n) => serde_yaml_ng::from_str(n).unwrap(),
        YamlValue::String(s) => Value::String(s.clone()),
        YamlValue::Sequence(items) => Value::Sequence(items.iter().map(from_yaml).collect()),
        YamlValue::Mapping(es) => {
            let mut m = serde_yaml_ng::Mapping::new();
            for (k, x) in es {
                m.insert(from_yaml(k), from_yaml(x));
            }
            Value::Mapping(m)
        }
        YamlValue::Tagged(t, x) => Value::Tagged(Box::new(serde_yaml_ng::value::TaggedValue {
            tag: serde_yaml_ng::value::Tag::new(t.clone()),
            value: from_yaml(x),
        })),
    }
}

fn yaml(input: &str) -> YamlValue {
    to_yaml(&serde_yaml_ng::from_str::<Value>(input).unwrap())
}

fn get<'a>(v: &'a YamlValue, key: &str) -> Option<&'a YamlValue> {
    match v {
        YamlValue::Mapping(es) => es.iter().find(|(k, _)| matches!(k, YamlValue::String(s) if s == key)).map(|(_, x)| x),
        _ => None,
    }
}

fn text(v: &YamlValue, key: &str) -> Option<String> {
    match get(v, key) {
        Some(YamlValue::String(s)) => Some(s.clone()),
        _ => None,
    }
}

fn texts(v: &YamlValue, key: &str) -> Option<Vec<String>> {
    match get(v, key) {
        Some(YamlValue::Sequence(items)) => Some(
            items
                .iter()
                .map(|x| match x {
                    YamlValue::String(s) => s.clone(),
                    YamlValue::Number(n) => n.clone(),
                    other => panic!("not a string: {other:?}"),
                })
                .collect(),
        ),
        _ => None,
    }
}

fn number<T: std::str::FromStr>(v: &YamlValue, key: &str) -> Option<T> {
    match get(v, key) {
        Some(YamlValue::Number(n)) => n.parse().ok(),
        _ => None,
    }
}

fn raw_account(v: &YamlValue) -> RawAccount {
    RawAccount {
        id: text(v, "id"),
        vendor: text(v, "vendor"),
        username: text(v, "username"),
        imap_host: text(v, "imapHost"),
        imap_port: number(v, "imapPort"),
        client_id: text(v, "clientId"),
        authority: text(v, "authority"),
        redirect_uri: text(v, "redirectUri"),
        scopes: texts(v, "scopes"),
        password_env: text(v, "passwordEnv"),
    }
}

fn load(yaml_text: &str) -> Result<Vec<ResolvedAccount>, ConfigError> {
    load_accounts(yaml_text, ".cache", |value: &YamlValue| {
        Ok(match value {
            YamlValue::Sequence(items) => items.iter().map(raw_account).collect(),
            _ => Vec::new(),
        })
    })
}

fn raw_config(v: &YamlValue) -> RawFileConfig {
    let empty = YamlValue::Mapping(Vec::new());
    let folders = get(v, "folders").unwrap_or(&empty);
    let defaults = get(v, "defaults").unwrap_or(&empty);
    let imap = get(v, "imap").unwrap_or(&empty);
    RawFileConfig {
        folders: RawFolders {
            scan: texts(folders, "scan"),
            skip_special_use: texts(folders, "skipSpecialUse"),
            skip_names: texts(folders, "skipNames"),
            ignore: texts(folders, "ignore"),
            confidential: texts(folders, "confidential"),
        },
        defaults: RawDefaults {
            folder: text(defaults, "folder"),
            inspect_limit: number(defaults, "inspectLimit"),
            cleanup_limit: number(defaults, "cleanupLimit"),
        },
        imap: RawImap {
            trash_fallback: text(imap, "trashFallback"),
            body_preview_chars: number(imap, "bodyPreviewChars"),
        },
    }
}

fn config_for(doc: &ConfigDocument, account: Option<&str>) -> FileConfig {
    normalize(raw_config(&doc.merged_for(account)))
}

fn owned(values: &[&str]) -> Vec<String> {
    values.iter().map(|s| s.to_string()).collect()
}

#[test]
fn resolves_vendor_defaults_and_overrides() {
    let accounts = load(
        r#"
- id: personal
  vendor: microsoft
  username: you@hotmail.com
- id: work-gmail
  vendor: gmail
  username: you@gmail.com
  passwordEnv: WORK_GMAIL_PASSWORD
  imapPort: 1993
"#,
    )
    .unwrap();

    assert_eq!(accounts.len(), 2);

    let personal = &accounts[0];
    assert_eq!(personal.imap_host, "outlook.office365.com");
    assert_eq!(personal.imap_port, 993);
    assert_eq!(personal.auth_method, AuthMethod::Xoauth2Msal);
    assert_eq!(personal.client_id.as_deref(), Some(THUNDERBIRD_CLIENT_ID));
    assert_eq!(personal.cache_dir, Path::new(".cache").join("personal").to_string_lossy());

    let work = &accounts[1];
    assert_eq!(work.imap_host, "imap.gmail.com");
    assert_eq!(work.imap_port, 1993); // overridden
    assert_eq!(work.auth_method, AuthMethod::Password);
    assert_eq!(work.password_env.as_deref(), Some("WORK_GMAIL_PASSWORD"));
}

#[test]
fn rejects_invalid_id() {
    let err = load("- id: Personal\n  vendor: microsoft\n  username: a@b.com\n").unwrap_err();
    assert!(matches!(err, ConfigError::InvalidId { .. }));
}

#[test]
fn rejects_unknown_vendor() {
    let err = load("- id: x\n  vendor: fastmail\n  username: a@b.com\n").unwrap_err();
    assert!(matches!(err, ConfigError::UnknownVendor { .. }));
}

#[test]
fn rejects_duplicate_ids() {
    let err = load("- id: x\n  vendor: microsoft\n  username: a@b.com\n- id: x\n  vendor: gmail\n  username: c@d.com\n")
        .unwrap_err();
    assert!(matches!(err, ConfigError::DuplicateId(_)));
}

#[test]
fn rejects_empty_file() {
    assert!(matches!(load("[]").unwrap_err(), ConfigError::EmptyAccounts));
}

#[test]
fn generic_vendor_requires_host() {
    let err = load("- id: x\n  vendor: generic\n  username: a@b.com\n").unwrap_err();
    assert!(matches!(err, ConfigError::MissingHost { .. }));
}

#[test]
fn invalid_id_reports_its_position_and_text() {
    let err = load("- id: ok\n  vendor: microsoft\n  username: a@b.com\n- id: Bad_Id\n  vendor: gmail\n  username: c@d.com\n")
        .unwrap_err();
    match err {
        ConfigError::InvalidId { index, id } => {
            assert_eq!(index, 1);
            assert_eq!(id.as_deref(), Some("Bad_Id"));
        }
        other => panic!("unexpected {other:?}"),
    }
}

#[test]
fn unknown_vendor_lists_the_known_ones() {
    match load("- id: x\n  vendor: fastmail\n  username: a@b.com\n").unwrap_err() {
        ConfigError::UnknownVendor { id, vendor, known } => {
            assert_eq!(id, "x");
            assert_eq!(vendor.as_deref(), Some("fastmail"));
            assert_eq!(known, "microsoft, gmail, generic");
        }
        other => panic!("unexpected {other:?}"),
    }
}

#[test]
fn missing_username_is_refused() {
    let err = load("- id: x\n  vendor: gmail\n").unwrap_err();
    assert!(matches!(err, ConfigError::MissingUsername(id) if id == "x"));
}

#[test]
fn a_mapping_is_not_an_accounts_list() {
    assert!(matches!(load("id: x\n").unwrap_err(), ConfigError::EmptyAccounts));
}

#[test]
fn generic_vendor_with_host_resolves() {
    let accounts = load("- id: x\n  vendor: generic\n  username: a@b.com\n  imapHost: mail.example.org\n").unwrap();
    assert_eq!(accounts[0].imap_host, "mail.example.org");
    assert_eq!(accounts[0].auth_method, AuthMethod::Password);
}

#[test]
fn empty_config_uses_all_defaults() {
    let doc = ConfigDocument::from_yaml_str("{}").unwrap();
    let config = config_for(&doc, None);
    assert_eq!(config.defaults.folder, "INBOX");
    assert_eq!(config.imap.trash_fallback, "Deleted");
    assert!(config.folders.scan.is_none());
}

#[test]
fn per_account_override_merges_over_base() {
    let text = r#"
defaults:
  folder: INBOX
folders:
  confidential: [Archive/Banking]
accounts:
  work:
    defaults:
      folder: Inbox/Work
    folders:
      confidential: [Finance]
"#;
    let doc = ConfigDocument::from_yaml_str(text).unwrap();
    let base = config_for(&doc, None);
    let work = config_for(&doc, Some("work"));

    assert_eq!(base.defaults.folder, "INBOX");
    assert_eq!(base.folders.confidential, owned(&["Archive/Banking"]));
    // Override replaces the scalar and the array, but inherits everything else.
    assert_eq!(work.defaults.folder, "Inbox/Work");
    assert_eq!(work.folders.confidential, owned(&["Finance"]));
    assert_eq!(work.imap.trash_fallback, "Deleted");
}

#[test]
fn unknown_account_gets_the_base_config() {
    let doc = ConfigDocument::from_yaml_str("defaults:\n  folder: Mail\naccounts:\n  work:\n    defaults:\n      folder: Work\n").unwrap();
    assert_eq!(config_for(&doc, Some("home")).defaults.folder, "Mail");
    assert_eq!(config_for(&doc, Some("work")).defaults.folder, "Work");
}

#[test]
fn unlisted_account_merges_to_exactly_the_base() {
    let doc = ConfigDocument::from_yaml_str("defaults:\n  folder: Mail\naccounts:\n  work:\n    defaults:\n      folder: Work\n").unwrap();
    assert!(values_equal(&doc.merged_for(Some("home")), &doc.merged_for(None)));
    assert!(!values_equal(&doc.merged_for(Some("work")), &doc.merged_for(None)));
}

#[test]
fn base_does_not_depend_on_the_accounts_block() {
    let a = ConfigDocument::from_yaml_str("defaults:\n  folder: Mail\naccounts:\n  work:\n    defaults:\n      folder: Work\n").unwrap();
    let b = ConfigDocument::from_yaml_str("defaults:\n  folder: Mail\naccounts: {}\n").unwrap();
    assert!(values_equal(&a.merged_for(None), &b.merged_for(None)));
    assert!(values_equal(&a.merged_for(None), &yaml("defaults:\n  folder: Mail\n")));
}

#[test]
fn defaults_fill_every_unset_value() {
    let config = normalize(RawFileConfig::default());
    assert_eq!(config.folders.skip_special_use, owned(&["\\Sent", "\\Drafts", "\\Trash"]));
    assert_eq!(config.defaults.inspect_limit, 30);
    assert_eq!(config.defaults.cleanup_limit, 500);
    assert_eq!(config.imap.body_preview_chars, 2000);
    assert!(config.folders.ignore.is_empty());
}

#[test]
fn empty_texts_fall_back_to_defaults() {
    let raw = RawFileConfig {
        defaults: RawDefaults { folder: Some(String::new()), ..RawDefaults::default() },
        imap: RawImap { trash_fallback: Some(String::new()), body_preview_chars: Some(10) },
        ..RawFileConfig::default()
    };
    let config = normalize(raw);
    assert_eq!(config.defaults.folder, "INBOX");
    assert_eq!(config.imap.trash_fallback, "Deleted");
    assert_eq!(config.imap.body_preview_chars, 10);
}

#[test]
fn objects_merge_arrays_and_scalars_replace() {
    let base = yaml("a:\n  x: 1\n  y: [1, 2]\nb: keep\n");
    let over = yaml("a:\n  y: [9]\n  z: 3\n");
    let merged = deep_merge(base, over);
    assert_eq!(from_yaml(&merged), from_yaml(&yaml("a:\n  x: 1\n  y: [9]\n  z: 3\nb: keep\n")));
}

#[test]
fn merging_an_empty_mapping_keeps_the_base() {
    let base = yaml("a:\n  x: 1\nb: [1]\n");
    let merged = deep_merge(yaml("a:\n  x: 1\nb: [1]\n"), yaml("{}"));
    assert_eq!(from_yaml(&merged), from_yaml(&base));
}

#[test]
fn a_scalar_override_replaces_a_mapping() {
    let merged = deep_merge(yaml("a:\n  x: 1\n"), yaml("a: 5\n"));
    assert_eq!(from_yaml(&merged), from_yaml(&yaml("a: 5\n")));
    let merged = deep_merge(yaml("a: 1\n"), yaml("[1, 2]"));
    assert_eq!(from_yaml(&merged), from_yaml(&yaml("[1, 2]")));
}

#[test]
fn merged_mapping_binds_the_keys_of_either_side() {
    let s = |t: &str| YamlValue::String(t.to_string());
    let base = YamlValue::Mapping(vec![(s("a"), s("1")), (s("a"), s("2")), (s("c"), s("4"))]);
    let over = YamlValue::Mapping(vec![(s("b"), s("3")), (s("a"), s("5"))]);
    let merged = deep_merge(base, over);
    let mut keys: Vec<String> = match merged {
        YamlValue::Mapping(es) => es.into_iter().map(|(k, _)| match k {
            YamlValue::String(t) => t,
            _ => String::new(),
        }).collect(),
        _ => Vec::new(),
    };
    keys.sort();
    keys.dedup();
    assert_eq!(keys, vec!["a".to_string(), "b".to_string(), "c".to_string()]);
}

const EXAMPLE_CONFIG: &str = r#"
folders:
  confidential: [Archive/Banking]
  ignore: ["Archive/Old Photos"]
defaults:
  folder: INBOX
  inspectLimit: 30
  cleanupLimit: 500
imap:
  trashFallback: Deleted
  bodyPreviewChars: 2000
accounts:
  work:
    defaults:
      folder: Inbox/Work
"#;

#[test]
fn example_config_normalizes_with_expected_values() {
    let doc = ConfigDocument::from_yaml_str(EXAMPLE_CONFIG).unwrap();
    let config = config_for(&doc, None);

    assert_eq!(config.folders.scan, None);
    assert_eq!(config.folders.skip_special_use, owned(&["\\Sent", "\\Drafts", "\\Trash"]));
    assert_eq!(config.folders.skip_names, owned(&["outbox", "notes"]));
    assert!(config.folders.is_confidential("Archive/Banking"));
    assert!(config.folders.is_ignored("Archive/Old Photos"));
    assert!(!config.folders.is_confidential("INBOX"));

    assert_eq!(config.defaults.folder, "INBOX");
    assert_eq!(config.defaults.inspect_limit, 30);
    assert_eq!(config.defaults.cleanup_limit, 500);
    assert_eq!(config.imap.trash_fallback, "Deleted");
    assert_eq!(config.imap.body_preview_chars, 2000);
}

#[test]
fn texts_that_are_not_yaml_are_refused_with_the_yaml_error() {
    assert!(matches!(ConfigDocument::from_yaml_str("a: [1, 2"), Err(ConfigError::Yaml(_))));
    assert!(matches!(load("- id: [x"), Err(ConfigError::Yaml(_))));
    assert!(matches!(load("id: x\n"), Err(ConfigError::EmptyAccounts)));
    let doc = ConfigDocument::from_yaml_str("defaults:\n  folder: Mail\n").unwrap();
    assert!(values_equal(&doc.merged_for(None), &yaml("defaults:\n  folder: Mail\n")));
}
