use mailward::message::{Classifier, Decision, MailMessage};
use mailward::numbers::Num;
use mailward::rules::classifier::{first_match, Rule, RuleClassifier};
use mailward::rules::data::{duration_of_tokens, parse_duration, RawRefs, RefValue, RulesData};
use mailward::rules::document::{RawRule, RawRulesFile, RuleSet, RulesDocument};
use mailward::rules::dsl::{compile_condition, Condition, Field, LeafCondition, Op, Predicate};
use mailward::rules::RuleError;
use mailward::yaml::YamlValue;
use serde_yaml_ng::Value;

const NS_PER_HOUR: i128 = 3_600_000_000_000;

fn to_yaml(v: &Value) -> YamlValue {
    match v {
        Value::Null => YamlValue::Null,
        Value::Bool(b) => YamlValue::Bool(*b),
        Value::Number(n) => YamlValue::Number(n.to_string()),
        Value::String(s) => YamlValue::String(s.clone()),
        Value::Sequence(items) => YamlValue::Sequence(items.iter().map(to_yaml).collect()),
        Value::Mapping(m) => YamlValue::Mapping(m.iter().map(|(k, x)| (to_yaml(k), to_yaml(x))).collect()),
        Value::Tagged(t) => YamlValue::Tagged(t.tag.to_string(), Box::new(to_yaml(&t.value))),
    }
}

fn get<'a>(v: &'a YamlValue, key: &str) -> Option<&'a YamlValue> {
    match v {
        YamlValue::Mapping(es) => es.iter().find(|(k, _)| matches!(k, YamlValue::String(s) if s == key)).map(|(_, x)| x),
        _ => None,
    }
}

fn string(v: &YamlValue) -> String {
    match v {
        YamlValue::String(s) => s.clone(),
        YamlValue::Number(n) => n.clone(),
        other => panic!("not a string: {other:?}"),
    }
}

fn entries(v: Option<&YamlValue>) -> Vec<(String, YamlValue)> {
    match v {
        Some(YamlValue::Mapping(es)) => es.iter().map(|(k, x)| (string(k), x.clone_value())).collect(),
        _ => Vec::new(),
    }
}

trait CloneValue {
    fn clone_value(&self) -> YamlValue;
}

impl CloneValue for YamlValue {
    fn clone_value(&self) -> YamlValue {
        match self {
            YamlValue::Null => YamlValue::Null,
            YamlValue::Bool(b) => YamlValue::Bool(*b),
            YamlValue::Number(n) => YamlValue::Number(n.clone()),
            YamlValue::String(s) => YamlValue::String(s.clone()),
            YamlValue::Sequence(items) => YamlValue::Sequence(items.iter().map(|x| x.clone_value()).collect()),
            YamlValue::Mapping(es) => YamlValue::Mapping(es.iter().map(|(k, x)| (k.clone_value(), x.clone_value())).collect()),
            YamlValue::Tagged(t, x) => YamlValue::Tagged(t.clone(), Box::new(x.clone_value())),
        }
    }
}

fn field(name: &str) -> Field {
    match name {
        "subject" => Field::Subject,
        "fromAddress" => Field::FromAddress,
        "fromName" => Field::FromName,
        "content" => Field::Content,
        "folder" => Field::Folder,
        "age" => Field::Age,
        other => panic!("unknown field {other}"),
    }
}

fn op(name: &str) -> Op {
    match name {
        "regex" => Op::Regex,
        "includes" => Op::Includes,
        "endsWith" => Op::EndsWith,
        "endsWithAny" => Op::EndsWithAny,
        "equals" => Op::Equals,
        ">" => Op::Gt,
        ">=" => Op::Gte,
        other => panic!("unknown op {other}"),
    }
}

fn condition(v: &YamlValue) -> Condition {
    if let Some(YamlValue::Sequence(items)) = get(v, "all") {
        return Condition::All { all: items.iter().map(condition).collect() };
    }
    if let Some(YamlValue::Sequence(items)) = get(v, "any") {
        return Condition::Any { any: items.iter().map(condition).collect() };
    }
    if let Some(inner) = get(v, "not") {
        return Condition::Not { not: Box::new(condition(inner)) };
    }
    Condition::Leaf(LeafCondition {
        field: field(&string(get(v, "field").unwrap())),
        op: op(&string(get(v, "op").unwrap())),
        value: get(v, "value").map(|x| x.clone_value()),
        reference: get(v, "ref").map(string),
    })
}

fn decision(name: &str) -> Decision {
    match name {
        "keep" => Decision::Keep,
        "markRead" => Decision::MarkRead,
        "delete" => Decision::Delete,
        other => panic!("unknown decision {other}"),
    }
}

fn raw_rules(v: Option<&YamlValue>) -> Vec<RawRule> {
    match v {
        Some(YamlValue::Sequence(items)) => items
            .iter()
            .map(|r| RawRule {
                name: string(get(r, "name").unwrap()),
                when: condition(get(r, "when").unwrap()),
                decision: decision(&string(get(r, "then").unwrap())),
            })
            .collect(),
        _ => Vec::new(),
    }
}

fn raw_file(v: &YamlValue) -> RawRulesFile {
    let refs = get(v, "refs");
    let lists = entries(refs.and_then(|r| get(r, "lists")))
        .into_iter()
        .map(|(k, x)| match x {
            YamlValue::Sequence(items) => (k, items.iter().map(string).collect()),
            other => panic!("not a list: {other:?}"),
        })
        .collect();
    let patterns = entries(refs.and_then(|r| get(r, "patterns"))).into_iter().map(|(k, x)| (k, string(&x))).collect();
    let thresholds = entries(refs.and_then(|r| get(r, "thresholds")));
    RawRulesFile {
        refs: RawRefs { lists, patterns, thresholds },
        classify: raw_rules(get(v, "classify")),
        cleanup: raw_rules(get(v, "cleanup")),
    }
}

fn compile_for(doc: &RulesDocument, account: Option<&str>) -> RuleSet {
    RuleSet::compile(&raw_file(&doc.merged_for(account))).unwrap()
}

fn doc(yaml: &str) -> RulesDocument {
    RulesDocument::from_yaml_str(yaml).unwrap()
}

fn msg(folder: &str, subject: &str, from_address: &str, from_name: &str, body_preview: &str, age_hours: i64) -> MailMessage {
    MailMessage {
        id: "test".to_string(),
        folder: folder.to_string(),
        subject: subject.to_string(),
        from_address: from_address.to_string(),
        from_name: from_name.to_string(),
        body_preview: body_preview.to_string(),
        age_seconds: age_hours * 3600,
        is_read: true,
    }
}

fn leaf(f: Field, o: Op, value: Option<YamlValue>, reference: Option<&str>) -> Condition {
    Condition::Leaf(LeafCondition { field: f, op: o, value, reference: reference.map(|s| s.to_string()) })
}

fn text(s: &str) -> Option<YamlValue> {
    Some(YamlValue::String(s.to_string()))
}

fn no_data() -> RulesData {
    RulesData::from_refs(&RawRefs::default()).unwrap()
}

fn hours(h: i128) -> Option<Num> {
    Some(Num::Finite(h * NS_PER_HOUR))
}

#[test]
fn parses_common_durations_to_hours() {
    assert_eq!(parse_duration("7d"), hours(168));
    assert_eq!(parse_duration("30 days"), hours(720));
    assert_eq!(parse_duration("1d"), hours(24));
    assert_eq!(parse_duration("36h"), hours(36));
    assert_eq!(parse_duration("90 min"), Some(Num::Finite(3 * NS_PER_HOUR / 2)));
    assert_eq!(parse_duration("2 weeks"), hours(336));
    assert_eq!(parse_duration("1d 12h"), hours(36));
    assert_eq!(parse_duration("nonsense"), None);
}

#[test]
fn durations_read_fractions_and_small_units() {
    assert_eq!(parse_duration("1.5h"), Some(Num::Finite(3 * NS_PER_HOUR / 2)));
    assert_eq!(parse_duration("250ms"), Some(Num::Finite(250_000_000)));
    assert_eq!(parse_duration("30 SECONDS"), Some(Num::Finite(30_000_000_000)));
    assert_eq!(parse_duration("3 fortnights"), None);
    assert_eq!(parse_duration(""), None);
}

#[test]
fn durations_take_amounts_of_any_length() {
    assert_eq!(parse_duration("100000000000000000000000000000d"), Some(Num::PosInf));
    assert_eq!(parse_duration("0.000000000000000000000000000000000000001h"), Some(Num::Finite(0)));
    assert_eq!(parse_duration("1000000000000000000000ms"), Some(Num::Finite(1_000_000_000_000_000_000_000_000_000)));
}

#[test]
fn token_lists_sum_to_a_duration() {
    let tokens = vec![("1".to_string(), "d".to_string()), ("12".to_string(), "H".to_string())];
    assert_eq!(duration_of_tokens(&tokens), hours(36));
    assert_eq!(duration_of_tokens(&vec![]), None);
    assert_eq!(duration_of_tokens(&vec![("2".to_string(), "fortnights".to_string())]), None);
    assert_eq!(duration_of_tokens(&vec![("1.".to_string(), "h".to_string())]), hours(1));
    assert_eq!(duration_of_tokens(&vec![("x".to_string(), "h".to_string())]), None);
}

#[test]
fn per_account_override_replaces_a_list() {
    let yaml = r#"
refs:
  lists:
    markReadDomains: [base.example]
  patterns: {}
  thresholds: {}
classify:
  - name: known-newsletter
    when: { field: fromAddress, op: endsWithAny, ref: lists.markReadDomains }
    then: markRead
cleanup: []
accounts:
  work:
    refs:
      lists:
        markReadDomains: [work.example]
"#;
    let doc = doc(yaml);

    let base = compile_for(&doc, None);
    let work = compile_for(&doc, Some("work"));

    let from_base = msg("INBOX", "hi", "a@base.example", "A", "", 1);
    let from_work = msg("INBOX", "hi", "a@work.example", "A", "", 1);

    // Base account marks base.example read; work account no longer does.
    assert_eq!(first_match(&base.classify, &from_base).decision, Decision::MarkRead);
    assert_eq!(first_match(&work.classify, &from_base).decision, Decision::Keep);
    // Work account marks its own override domain read.
    assert_eq!(first_match(&work.classify, &from_work).decision, Decision::MarkRead);
}

#[test]
fn first_matching_rule_wins() {
    let yaml = r#"
refs:
  patterns:
    expiry: "expires?|valid until"
  thresholds:
    monthly: 30 days
classify:
  - name: junk-folder
    when: { all: [ { field: folder, op: equals, value: Junk }, { field: subject, op: includes, value: WIN } ] }
    then: delete
  - name: github
    when: { field: folder, op: equals, value: GitHub }
    then: markRead
  - name: old
    when: { field: age, op: ">", ref: thresholds.monthly }
    then: delete
cleanup: []
"#;
    let doc = doc(yaml);
    let rules = compile_for(&doc, None);
    assert_eq!(rules.expiry_pattern.as_ref().map(|p| p.as_str().to_string()), Some("expires?|valid until".to_string()));

    let v = first_match(&rules.classify, &msg("Junk", "You WIN big", "x@y.z", "X", "", 1));
    assert_eq!((v.decision, v.reason.as_str()), (Decision::Delete, "junk-folder"));
    let v = first_match(&rules.classify, &msg("Archive/GitHub", "PR", "x@y.z", "X", "", 1000));
    assert_eq!((v.decision, v.reason.as_str()), (Decision::MarkRead, "github"));
    let v = first_match(&rules.classify, &msg("INBOX", "hello", "x@y.z", "X", "", 721));
    assert_eq!((v.decision, v.reason.as_str()), (Decision::Delete, "old"));
    let v = first_match(&rules.classify, &msg("INBOX", "hello", "x@y.z", "X", "", 720));
    assert_eq!((v.decision, v.reason.as_str()), (Decision::Keep, "no rule matched"));
}

#[test]
fn rule_classifier_uses_first_match() {
    let data = no_data();
    let when = compile_condition(&leaf(Field::FromName, Op::Includes, text("bot"), None), &data).unwrap();
    let classifier = RuleClassifier::new(vec![Rule { name: "bots".to_string(), when, decision: Decision::MarkRead }]);
    let v = classifier.classify(&msg("INBOX", "s", "a@b", "dependabot[bot]", "", 1));
    assert_eq!((v.decision, v.reason.as_str()), (Decision::MarkRead, "bots"));
    let v = classifier.classify(&msg("INBOX", "s", "a@b", "Jane", "", 1));
    assert_eq!((v.decision, v.reason.as_str()), (Decision::Keep, "no rule matched"));
}

#[test]
fn text_ops_ignore_case_but_equals_is_exact() {
    let data = no_data();
    let m = msg("INBOX", "Your Invoice", "Billing@Shop.EXAMPLE", "Shop", "", 1);
    let includes = compile_condition(&leaf(Field::Subject, Op::Includes, text("INVOICE"), None), &data).unwrap();
    assert!(includes.eval(&m));
    let ends = compile_condition(&leaf(Field::FromAddress, Op::EndsWith, text("shop.example"), None), &data).unwrap();
    assert!(ends.eval(&m));
    let exact = compile_condition(&leaf(Field::Subject, Op::Equals, text("your invoice"), None), &data).unwrap();
    assert!(!exact.eval(&m));
    let exact = compile_condition(&leaf(Field::Subject, Op::Equals, text("Your Invoice"), None), &data).unwrap();
    assert!(exact.eval(&m));
    let regex = compile_condition(&leaf(Field::Subject, Op::Regex, text("^your\\s+inv"), None), &data).unwrap();
    assert!(regex.eval(&m));
}

#[test]
fn folder_field_is_the_leaf_and_content_joins_subject_and_body() {
    let data = no_data();
    let m = msg("Archive/GitHub", "Weekly", "a@b", "A", "digest inside", 1);
    let folder = compile_condition(&leaf(Field::Folder, Op::Equals, text("GitHub"), None), &data).unwrap();
    assert!(folder.eval(&m));
    let content = compile_condition(&leaf(Field::Content, Op::Includes, text("weekly digest"), None), &data).unwrap();
    assert!(content.eval(&m));
}

#[test]
fn ends_with_any_uses_a_literal_list() {
    let data = no_data();
    let list = Some(YamlValue::Sequence(vec![
        YamlValue::String("spam.test".to_string()),
        YamlValue::Number("42".to_string()),
        YamlValue::Null,
    ]));
    let p = compile_condition(&leaf(Field::FromAddress, Op::EndsWithAny, list, None), &data).unwrap();
    assert!(p.eval(&msg("INBOX", "s", "x@SPAM.test", "X", "", 1)));
    assert!(p.eval(&msg("INBOX", "s", "x@y42", "X", "", 1)));
    assert!(!p.eval(&msg("INBOX", "s", "x@ok.test", "X", "", 1)));
}

#[test]
fn age_thresholds_compare_in_hours() {
    let data = no_data();
    let gt = compile_condition(&leaf(Field::Age, Op::Gt, Some(YamlValue::Number("48".to_string())), None), &data).unwrap();
    let gte = compile_condition(&leaf(Field::Age, Op::Gte, text("48"), None), &data).unwrap();
    assert!(!gt.eval(&msg("INBOX", "s", "a", "b", "", 48)));
    assert!(gte.eval(&msg("INBOX", "s", "a", "b", "", 48)));
    assert!(gt.eval(&msg("INBOX", "s", "a", "b", "", 49)));
}

#[test]
fn combinators_all_any_not() {
    let data = no_data();
    let cond = Condition::Any {
        any: vec![
            Condition::Not { not: Box::new(leaf(Field::Subject, Op::Includes, text("keep"), None)) },
            Condition::All { all: vec![] },
        ],
    };
    let p = compile_condition(&cond, &data).unwrap();
    assert!(p.eval(&msg("INBOX", "keep me", "a", "b", "", 1)));
    let none = compile_condition(&Condition::Any { any: vec![] }, &data).unwrap();
    assert!(!none.eval(&msg("INBOX", "x", "a", "b", "", 1)));
    assert!(matches!(none, Predicate::Any(_)));
}

#[test]
fn errors_name_the_problem() {
    let data = no_data();
    match compile_condition(&leaf(Field::Age, Op::Includes, text("x"), None), &data) {
        Err(RuleError::WrongField { op, expected, field }) => {
            assert_eq!((op.as_str(), expected.as_str(), field.as_str()), ("Includes", "a text", "Age"));
        }
        _ => panic!("expected WrongField"),
    }
    match compile_condition(&leaf(Field::Subject, Op::Gte, text("1"), None), &data) {
        Err(RuleError::WrongField { op, expected, field }) => {
            assert_eq!((op.as_str(), expected.as_str(), field.as_str()), ("Gte", "a numeric", "Subject"));
        }
        _ => panic!("expected WrongField"),
    }
    match compile_condition(&leaf(Field::Subject, Op::Equals, None, None), &data) {
        Err(RuleError::MissingOperand { field, op }) => assert_eq!((field.as_str(), op.as_str()), ("Subject", "Equals")),
        _ => panic!("expected MissingOperand"),
    }
    match compile_condition(&leaf(Field::Subject, Op::Equals, None, Some("lists.nope")), &data) {
        Err(RuleError::UnknownRef(path)) => assert_eq!(path, "lists.nope"),
        _ => panic!("expected UnknownRef"),
    }
    match compile_condition(&leaf(Field::Subject, Op::Regex, text("(unclosed"), None), &data) {
        Err(RuleError::BadRegex { key, .. }) => assert_eq!(key, "(inline Regex)"),
        _ => panic!("expected BadRegex"),
    }
    match compile_condition(&leaf(Field::Subject, Op::EndsWithAny, text("x"), None), &data) {
        Err(RuleError::OperandType { op, expected }) => assert_eq!((op.as_str(), expected.as_str()), ("EndsWithAny", "a list")),
        _ => panic!("expected OperandType"),
    }
    match compile_condition(&leaf(Field::Age, Op::Gt, text("soon"), None), &data) {
        Err(RuleError::OperandType { op, expected }) => assert_eq!((op.as_str(), expected.as_str()), ("Gt", "a numeric")),
        _ => panic!("expected OperandType"),
    }
    match compile_condition(&leaf(Field::Subject, Op::Equals, Some(YamlValue::Null), None), &data) {
        Err(RuleError::OperandType { op, expected }) => {
            assert_eq!((op.as_str(), expected.as_str()), ("value", "a scalar or list (got Null)"));
        }
        _ => panic!("expected OperandType"),
    }
    let list = Some(YamlValue::Sequence(vec![]));
    match compile_condition(&leaf(Field::Subject, Op::Regex, list, None), &data) {
        Err(RuleError::OperandType { op, expected }) => assert_eq!((op.as_str(), expected.as_str()), ("Regex", "a regex")),
        _ => panic!("expected OperandType"),
    }
}

#[test]
fn refs_errors_name_the_key() {
    let refs = RawRefs {
        lists: vec![],
        patterns: vec![("good".to_string(), "a+".to_string()), ("bad".to_string(), "(".to_string())],
        thresholds: vec![],
    };
    match RulesData::from_refs(&refs) {
        Err(RuleError::BadRegex { key, .. }) => assert_eq!(key, "bad"),
        _ => panic!("expected BadRegex"),
    }
    let refs = RawRefs {
        lists: vec![],
        patterns: vec![],
        thresholds: vec![
            ("weekly".to_string(), YamlValue::String("7d".to_string())),
            ("odd".to_string(), YamlValue::String("soon".to_string())),
            ("list".to_string(), YamlValue::Sequence(vec![])),
        ],
    };
    match RulesData::from_refs(&refs) {
        Err(RuleError::BadDuration { key, value }) => assert_eq!((key.as_str(), value.as_str()), ("odd", "soon")),
        _ => panic!("expected BadDuration"),
    }
}

#[test]
fn refs_resolve_by_bucket_and_key() {
    let refs = RawRefs {
        lists: vec![("domains".to_string(), vec!["a.test".to_string()])],
        patterns: vec![("phishing".to_string(), "verify your account".to_string())],
        thresholds: vec![("monthly".to_string(), YamlValue::String("30 days".to_string()))],
    };
    let data = RulesData::from_refs(&refs).unwrap();
    assert!(matches!(data.resolve("lists.domains"), Ok(RefValue::List(l)) if l == vec!["a.test".to_string()]));
    assert!(matches!(data.resolve("patterns.phishing"), Ok(RefValue::Pattern(p)) if p.as_str() == "verify your account"));
    assert!(matches!(data.resolve("thresholds.monthly"), Ok(RefValue::Threshold(n)) if n == Num::Finite(720 * NS_PER_HOUR)));
    assert!(matches!(data.resolve("thresholds.weekly"), Err(RuleError::UnknownRef(p)) if p == "thresholds.weekly"));
    assert!(matches!(data.resolve("colors.red"), Err(RuleError::UnknownRef(_))));
    assert!(matches!(data.resolve("nodot"), Err(RuleError::UnknownRef(_))));
    assert!(data.pattern("phishing").is_some());
    assert!(data.pattern("expiry").is_none());
}

#[test]
fn a_compile_error_stops_the_rule_set() {
    let yaml = r#"
classify:
  - name: ok
    when: { field: subject, op: equals, value: x }
    then: keep
  - name: broken
    when: { field: subject, op: equals, ref: lists.missing }
    then: delete
"#;
    let doc = doc(yaml);
    match RuleSet::compile(&raw_file(&doc.merged_for(None))) {
        Err(RuleError::UnknownRef(p)) => assert_eq!(p, "lists.missing"),
        _ => panic!("expected UnknownRef"),
    }
}

#[test]
fn lowercasing_ascii_folds_each_letter() {
    assert_eq!(mailward::text::to_lowercase("Outbox-2 NOTES"), "outbox-2 notes");
}

#[test]
fn compiling_fails_exactly_at_a_bad_leaf() {
    let data = no_data();
    let good = || leaf(Field::Subject, Op::Includes, text("sale"), None);
    let bad = || leaf(Field::FromAddress, Op::EndsWithAny, None, Some("nowhere"));
    let nested_good = Condition::All { all: vec![good(), Condition::Not { not: Box::new(Condition::Any { any: vec![good()] }) }] };
    assert!(compile_condition(&nested_good, &data).is_ok());
    let nested_bad = Condition::All { all: vec![good(), Condition::Not { not: Box::new(Condition::Any { any: vec![good(), bad()] }) }] };
    assert!(compile_condition(&nested_bad, &data).is_err());
}
