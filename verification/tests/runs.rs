use mailward::accounts::{resolve_accounts, RawAccount, ResolvedAccount};
use mailward::auth::{auth_code, cache_path, keep_refresh_token, oauth_config, token_set, AuthError, TokenSet};
use mailward::mailbox::{id_list, newest_uids, range_set, recent_range, take_chars, to_message, uid_set, xoauth2_response};
use mailward::message::{Decision, MailMessage, Verdict};
use mailward::numbers::{hours_string, parse_hours_number, yaml_number_value, Num};
use mailward::rules::classifier::Rule;
use mailward::rules::data::{RawRefs, RulesData};
use mailward::rules::document::RuleSet;
use mailward::rules::dsl::{compile_condition, Condition, Field, LeafCondition, Op};
use mailward::run::{
    actions_to_apply, account_info, Actions, classify_folder, cleanup_folder, find_account, inspect_limit, make_decision, select_accounts,
    DecisionKind, Refusal, RunProgress, RunTally, Settings,
};
use mailward::yaml::YamlValue;

const NS_PER_HOUR: i128 = 3_600_000_000_000;

fn account(id: &str, vendor: &str) -> RawAccount {
    RawAccount {
        id: Some(id.to_string()),
        vendor: Some(vendor.to_string()),
        username: Some(format!("{id}@example.com")),
        ..RawAccount::default()
    }
}

fn accounts() -> Vec<ResolvedAccount> {
    resolve_accounts(vec![account("home", "microsoft"), account("work", "gmail"), account("old", "microsoft")], "/cache")
        .unwrap()
}

fn message(id: &str, subject: &str, is_read: bool) -> MailMessage {
    MailMessage {
        id: id.to_string(),
        folder: "INBOX".to_string(),
        subject: subject.to_string(),
        from_address: "a@b.test".to_string(),
        from_name: "A".to_string(),
        body_preview: String::new(),
        age_seconds: 3600,
        is_read,
    }
}

fn rule(name: &str, needle: &str, decision: Decision, data: &RulesData) -> Rule {
    let when = compile_condition(
        &Condition::Leaf(LeafCondition {
            field: Field::Subject,
            op: Op::Includes,
            value: Some(YamlValue::String(needle.to_string())),
            reference: None,
        }),
        data,
    )
    .unwrap();
    Rule { name: name.to_string(), when, decision }
}

fn rule_set() -> RuleSet {
    let data = RulesData::from_refs(&RawRefs::default()).unwrap();
    RuleSet {
        classify: vec![
            rule("promo", "sale", Decision::MarkRead, &data),
            rule("spam", "casino", Decision::Delete, &data),
        ],
        cleanup: vec![rule("old-news", "news", Decision::Delete, &data)],
        expiry_pattern: None,
    }
}

#[test]
fn classify_folder_reports_every_message_and_collects_actions() {
    let messages = vec![message("1", "Big SALE", false), message("2", "casino night", false), message("3", "hello", false)];
    let (actions, decisions) = classify_folder("home", "INBOX", &messages, &rule_set());
    assert_eq!(actions.mark_read, vec!["1".to_string()]);
    assert_eq!(actions.delete, vec!["2".to_string()]);
    assert_eq!(decisions.len(), 3);
    assert_eq!(decisions[0].decision, DecisionKind::MarkRead);
    assert_eq!(decisions[0].reason, "promo");
    assert_eq!(decisions[2].decision, DecisionKind::Keep);
    assert_eq!(decisions[2].reason, "no rule matched");
    assert_eq!((decisions[1].account.as_str(), decisions[1].folder.as_str(), decisions[1].uid.as_str()), ("home", "INBOX", "2"));
}

#[test]
fn cleanup_only_touches_read_mail() {
    let messages = vec![message("1", "news digest", false), message("2", "news digest", true), message("3", "hi", true)];
    let (delete, decisions) = cleanup_folder("home", "INBOX", &messages, &rule_set());
    assert_eq!(delete, vec!["2".to_string()]);
    assert_eq!(decisions.len(), 2);
    assert_eq!(decisions[0].uid, "2");
    assert_eq!(decisions[1].decision, DecisionKind::Keep);
}

#[test]
fn make_decision_copies_the_message_fields() {
    let m = message("42", "Subject", false);
    let d = make_decision("acct", "Folder", &m, &Verdict { decision: Decision::Delete, reason: "r".to_string() });
    assert_eq!(
        (d.account.as_str(), d.folder.as_str(), d.uid.as_str(), d.subject.as_str(), d.from.as_str(), d.reason.as_str()),
        ("acct", "Folder", "42", "Subject", "a@b.test", "r")
    );
    assert_eq!(d.decision, DecisionKind::Delete);
}

#[test]
fn account_selection_follows_the_filter() {
    let all = accounts();
    assert_eq!(select_accounts(&all, None), Ok(vec![0, 1, 2]));
    assert_eq!(select_accounts(&all, Some("work")), Ok(vec![1]));
    assert_eq!(select_accounts(&all, Some("nobody")), Err(Refusal::UnknownAccount("nobody".to_string())));
    assert_eq!(find_account(&all, "old"), Ok(2));
    assert_eq!(find_account(&all, "x"), Err(Refusal::UnknownAccount("x".to_string())));
}

#[test]
fn account_summary_has_no_secrets() {
    let all = accounts();
    let info = account_info(&all[0], true);
    assert_eq!((info.id.as_str(), info.vendor.as_str(), info.username.as_str()), ("home", "microsoft", "home@example.com"));
    assert_eq!(info.imap_host, "outlook.office365.com");
    assert_eq!(info.auth_method, "Xoauth2Msal");
    assert!(info.authenticated);
    assert_eq!(account_info(&all[1], false).auth_method, "Password");
}

#[test]
fn inspect_limit_clamps_negative_counts() {
    assert_eq!(inspect_limit(-5), 0);
    assert_eq!(inspect_limit(50), 50);
}

#[test]
fn progress_events_carry_their_kind() {
    let e = RunProgress::new_folder("run".into(), "INBOX".into(), 1, 3, 0, 10);
    assert_eq!(e.kind, "folder");
    assert_eq!((e.index, e.total, e.fetched, e.fetch_total), (Some(1), Some(3), Some(0), Some(10)));
    let m = message("7", "s", false);
    let d = make_decision("a", "f", &m, &Verdict { decision: Decision::Keep, reason: "x".into() });
    let e = RunProgress::new_decision("run".into(), d);
    assert_eq!(e.kind, "decision");
    assert!(e.folder.is_none() && e.decision.is_some());
}

#[test]
fn settings_default_when_unset_or_empty() {
    let s = Settings::from_env(None, Some(String::new()), Some("web".into()), None);
    assert_eq!(s.config_dir, ".");
    assert_eq!(s.cache_dir, ".cache");
    assert_eq!(s.web_dir, "web");
    assert_eq!(s.bind_addr, "127.0.0.1:8080");
    assert_eq!(s.config_file("rules.yaml"), std::path::Path::new(".").join("rules.yaml").to_string_lossy());
}

#[test]
fn oauth_config_for_microsoft_adds_offline_access() {
    let all = accounts();
    let c = oauth_config(&all[0]).unwrap();
    assert_eq!(c.auth_url, "https://login.microsoftonline.com/common/oauth2/v2.0/authorize");
    assert_eq!(c.token_url, "https://login.microsoftonline.com/common/oauth2/v2.0/token");
    assert_eq!(c.scopes.iter().filter(|s| s.as_str() == "offline_access").count(), 1);
    assert!(matches!(oauth_config(&all[1]), Err(AuthError::VendorNotImplemented { .. })));
    let mut bare = all[0].clone();
    bare.authority = None;
    assert!(matches!(oauth_config(&bare), Err(AuthError::MissingOAuthConfig(id)) if id == "home"));
    assert_eq!(cache_path(&all[0]), std::path::Path::new("/cache").join("home").join("oauth.json").to_string_lossy());
}

#[test]
fn auth_code_is_read_from_the_redirect_url() {
    assert_eq!(auth_code("https://localhost/?state=s&code=abc%20d&code=second").unwrap(), "abc d");
    assert!(matches!(auth_code("https://localhost/?state=s"), Err(AuthError::NoAuthCode)));
    assert!(matches!(auth_code("not a url"), Err(AuthError::Url(_))));
}

#[test]
fn refresh_keeps_the_old_refresh_token() {
    let fresh = TokenSet { access_token: "a".into(), refresh_token: None, expires_at: None };
    assert_eq!(keep_refresh_token(fresh, "old").refresh_token.as_deref(), Some("old"));
    let rotated = TokenSet { access_token: "a".into(), refresh_token: Some("new".into()), expires_at: Some(5) };
    assert_eq!(keep_refresh_token(rotated, "old").refresh_token.as_deref(), Some("new"));
}

#[test]
fn token_expiry_is_now_plus_lifetime() {
    let t = token_set("acc".into(), Some("ref".into()), Some(3600), 1_000);
    assert_eq!(t.expires_at, Some(4_600));
    assert_eq!(token_set("acc".into(), None, None, 1_000).expires_at, None);
}

#[test]
fn to_message_reads_the_raw_mail() {
    let raw = b"From: \"Jane Roe\" <Jane.Roe@Example.COM>\r\nSubject: Quarterly report\r\n\r\nHello there, the numbers are in.\r\n";
    let m = to_message(Some(77), 3, raw, "INBOX", 5, 7200, true);
    assert_eq!(m.id, "77");
    assert_eq!(m.folder, "INBOX");
    assert_eq!(m.subject, "Quarterly report");
    assert_eq!(m.from_address, "jane.roe@example.com");
    assert_eq!(m.from_name, "Jane Roe");
    assert_eq!(m.body_preview, "Hello");
    assert_eq!(m.age_seconds, 7200);
    assert!(m.is_read);
    let m = to_message(None, 3, b"", "INBOX", 5, 0, false);
    assert_eq!(m.id, "3");
    assert_eq!((m.subject.as_str(), m.from_address.as_str(), m.body_preview.as_str()), ("", "", ""));
}

#[test]
fn newest_uids_are_the_largest_first() {
    assert_eq!(newest_uids(vec![5, 1, 9, 3], 2), vec![9, 5]);
    assert_eq!(newest_uids(vec![2, 1], 10), vec![2, 1]);
    assert!(newest_uids(vec![], 3).is_empty());
    assert_eq!(uid_set(&[9, 5, 12]), "9,5,12");
    assert_eq!(uid_set(&[]), "");
    assert_eq!(id_list(&vec!["7".to_string(), "8".to_string()]), "7,8");
}

#[test]
fn recent_range_covers_the_newest_messages() {
    assert_eq!(recent_range(0, 10), None);
    assert_eq!(recent_range(10, 0), None);
    assert_eq!(recent_range(100, 30), Some((71, 100, 30)));
    assert_eq!(recent_range(5, 30), Some((1, 5, 5)));
    assert_eq!(recent_range(10, 4294967297), Some((1, 10, 10)));
    assert_eq!(range_set(71, 100), "71:100");
}

#[test]
fn xoauth2_response_has_the_sasl_shape() {
    assert_eq!(xoauth2_response("me@x.com", "tok"), "user=me@x.com\x01auth=Bearer tok\x01\x01");
}

#[test]
fn take_chars_counts_characters_not_bytes() {
    assert_eq!(take_chars("häßlich", 3), "häß");
    assert_eq!(take_chars("ab", 5), "ab");
}

#[test]
fn hours_render_like_numbers() {
    assert_eq!(hours_string(Num::Finite(5 * NS_PER_HOUR)), "5");
    assert_eq!(hours_string(Num::Finite(3 * NS_PER_HOUR / 2)), "1.5");
    assert_eq!(hours_string(Num::Finite(-NS_PER_HOUR / 4)), "-0.25");
    assert_eq!(hours_string(Num::PosInf), "inf");
    assert_eq!(hours_string(Num::NaN), "NaN");
}

#[test]
fn number_texts_read_as_hours() {
    assert_eq!(parse_hours_number("48"), Some(Num::Finite(48 * NS_PER_HOUR)));
    assert_eq!(parse_hours_number("0.5"), Some(Num::Finite(NS_PER_HOUR / 2)));
    assert_eq!(parse_hours_number("1e2"), Some(Num::Finite(100 * NS_PER_HOUR)));
    assert_eq!(parse_hours_number("-inf"), Some(Num::NegInf));
    assert_eq!(parse_hours_number("soon"), None);
}

#[test]
fn hours_numbers_of_any_length_are_read_exactly() {
    assert_eq!(parse_hours_number("1234567890123456789012345678901234567890e-39"), Some(Num::Finite(4444444404444)));
    assert_eq!(parse_hours_number("-1234567890123456789012345678901234567890e-39"), Some(Num::Finite(-4444444404445)));
    assert_eq!(parse_hours_number("9.9999999999999999999999999999999999999999"), Some(Num::Finite(35999999999999)));
    assert_eq!(parse_hours_number("1e0000000000000000000000000000000000000001"), Some(Num::Finite(10 * NS_PER_HOUR)));
    assert_eq!(parse_hours_number("1e99999999999999999999999999999999999"), Some(Num::PosInf));
    assert_eq!(parse_hours_number("-1e99999999999999999999999999999999999"), Some(Num::NegInf));
    assert_eq!(parse_hours_number("0e99999999999999999999999999999999999"), Some(Num::Finite(0)));
    assert_eq!(parse_hours_number("1e-99999999999999999999999999999999999"), Some(Num::Finite(0)));
    assert_eq!(parse_hours_number("-1e-99999999999999999999999999999999999"), Some(Num::Finite(-1)));
    assert_eq!(parse_hours_number("123456789012345678901234567890123456789012345"), Some(Num::PosInf));
    assert_eq!(parse_hours_number("1e"), None);
    assert_eq!(yaml_number_value(".inf"), Num::PosInf);
    assert_eq!(yaml_number_value("12"), Num::Finite(12 * NS_PER_HOUR));
}

#[test]
fn run_tally_counts_reports_and_actions() {
    let rules = rule_set();
    let mut tally = RunTally::new();
    let messages = vec![message("1", "Big SALE", false), message("2", "casino night", false), message("3", "hello", false)];
    let (actions, decided) = classify_folder("home", "INBOX", &messages, &rules);
    tally.record_classified(&actions, decided);
    let read = vec![message("4", "news", true)];
    let (deleted, decided) = cleanup_folder("home", "INBOX", &read, &rules);
    tally.record_cleanup(&deleted, decided);
    let result = tally.finish("run-1".to_string(), true);
    assert_eq!(result.run_id, "run-1");
    assert_eq!(result.scanned, 4);
    assert_eq!(result.actioned, 3);
    assert!(!result.applied);
    assert_eq!(result.decisions.iter().map(|d| d.uid.as_str()).collect::<Vec<_>>(), vec!["1", "2", "3", "4"]);
    assert!(RunTally::new().finish("r".to_string(), false).applied);
}

#[test]
fn acted_totals_match_the_acting_reports() {
    let rules = rule_set();
    let messages = vec![message("1", "Big SALE", false), message("2", "casino night", false), message("3", "hello", false)];
    let (actions, decided) = classify_folder("home", "INBOX", &messages, &rules);
    let acting = decided.iter().filter(|d| !matches!(d.decision, DecisionKind::Keep)).count();
    assert_eq!(actions.mark_read.len() + actions.delete.len(), acting);
    let read = vec![message("4", "news", true), message("5", "Big SALE", true), message("6", "hello", false)];
    let (deleted, decided) = cleanup_folder("home", "INBOX", &read, &rules);
    let deleting = decided.iter().filter(|d| matches!(d.decision, DecisionKind::Delete)).count();
    assert_eq!(deleted.len(), deleting);
    assert_eq!(decided.len(), 2);
}

#[test]
fn dry_runs_apply_nothing() {
    let actions = || Actions { mark_read: vec!["1".to_string()], delete: vec!["2".to_string(), "3".to_string()] };
    let none = actions_to_apply(actions(), true);
    assert!(none.mark_read.is_empty() && none.delete.is_empty());
    let all = actions_to_apply(actions(), false);
    assert_eq!(all.mark_read, vec!["1".to_string()]);
    assert_eq!(all.delete, vec!["2".to_string(), "3".to_string()]);
}
