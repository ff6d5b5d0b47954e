//! The decisions of a run that do not touch the network: the values a run
//! reports, the folders it scans, and the settings it starts from.

use vstd::prelude::*;

use crate::accounts::ResolvedAccount;
use crate::vendors::AuthMethod;
use crate::config::{FileConfig, FoldersConfig, in_list, listed};
use crate::folders::{Folder, FolderView, auto_scanned, discover_scan_folders, find_trash, folders_view, is_trash};
use crate::message::{Decision, MailMessage, Verdict};
use crate::rules::classifier::{first_match, rules_view, verdict_of};
use crate::rules::document::RuleSet;
use crate::rules::dsl::PredModel;
use crate::text::{join_path, joined_path, owned, str_equal};

verus! {

/// What the engine decided for a message, as the API reports it.
#[derive(Debug, Clone, Copy, PartialEq, Eq, Structural)]
pub enum DecisionKind {
    Keep,
    MarkRead,
    Delete,
}

/// The reported form of a decision.
pub open spec fn kind_of(decision: Decision) -> DecisionKind {
    match decision {
        Decision::Keep => DecisionKind::Keep,
        Decision::MarkRead => DecisionKind::MarkRead,
        Decision::Delete => DecisionKind::Delete,
    }
}

impl From<Decision> for DecisionKind {
    fn from(decision: Decision) -> (r: DecisionKind) {
        match decision {
            Decision::Keep => DecisionKind::Keep,
            Decision::MarkRead => DecisionKind::MarkRead,
            Decision::Delete => DecisionKind::Delete,
        }
    }
}

impl vstd::std_specs::convert::FromSpecImpl<Decision> for DecisionKind {
    open spec fn obeys_from_spec() -> bool {
        true
    }

    open spec fn from_spec(decision: Decision) -> DecisionKind {
        kind_of(decision)
    }
}

/// Which rule set a run applies.
#[derive(Debug, Clone, Copy, PartialEq, Eq, Structural)]
pub enum RunMode {
    /// Unread-path classification across scanned folders (mark read / delete).
    Classify,
    /// Prune already-read stale mail from the default folder (delete only).
    Cleanup,
}

/// One classified message and what would (or did) happen to it.
#[derive(Debug, Clone)]
pub struct MessageDecision {
    pub account: String,
    pub folder: String,
    pub uid: String,
    pub subject: String,
    pub from: String,
    pub decision: DecisionKind,
    pub reason: String,
}

/// A live progress event: either `"folder"` (a scan-phase event carrying
/// `folder`/`index`/`total`/`fetched`/`fetch_total`) or `"decision"` (one
/// classified message, carrying `decision`).
#[derive(Debug, Clone)]
pub struct RunProgress {
    /// Client-supplied id of the run these events belong to.
    pub run_id: String,
    pub kind: String,
    pub folder: Option<String>,
    /// 1-based index of the current folder, and total folders being scanned.
    pub index: Option<i32>,
    pub total: Option<i32>,
    /// Messages fetched so far in the current folder, and the folder's total to fetch.
    pub fetched: Option<i32>,
    pub fetch_total: Option<i32>,
    pub decision: Option<MessageDecision>,
}

impl RunProgress {
    /// A scan-phase event for one folder.
    pub fn new_folder(run_id: String, folder: String, index: i32, total: i32, fetched: i32, fetch_total: i32) -> (r: RunProgress)
        ensures
            r.run_id == run_id,
            r.kind@ == "folder"@,
            r.folder == Some(folder),
            r.index == Some(index),
            r.total == Some(total),
            r.fetched == Some(fetched),
            r.fetch_total == Some(fetch_total),
            r.decision is None,
    {
        RunProgress {
            run_id,
            kind: owned("folder"),
            folder: Some(folder),
            index: Some(index),
            total: Some(total),
            fetched: Some(fetched),
            fetch_total: Some(fetch_total),
            decision: None,
        }
    }

    /// An event for one classified message.
    pub fn new_decision(run_id: String, decision: MessageDecision) -> (r: RunProgress)
        ensures
            r.run_id == run_id,
            r.kind@ == "decision"@,
            r.folder is None,
            r.index is None,
            r.total is None,
            r.fetched is None,
            r.fetch_total is None,
            r.decision == Some(decision),
    {
        RunProgress {
            run_id,
            kind: owned("decision"),
            folder: None,
            index: None,
            total: None,
            fetched: None,
            fetch_total: None,
            decision: Some(decision),
        }
    }
}

/// The outcome of a run.
#[derive(Debug, Clone)]
pub struct RunResult {
    /// Echoes the client-supplied run id.
    pub run_id: String,
    pub scanned: i32,
    pub actioned: i32,
    /// `false` for a dry run (nothing changed), `true` if decisions were applied.
    pub applied: bool,
    pub decisions: Vec<MessageDecision>,
}

/// Summary of a configured account (no secrets).
#[derive(Debug, Clone)]
pub struct AccountInfo {
    pub id: String,
    pub vendor: String,
    pub username: String,
    pub imap_host: String,
    pub auth_method: String,
    /// Whether a cached login (refresh token) exists for this account.
    pub authenticated: bool,
}

/// The sign-in URL to open for an interactive login.
#[derive(Debug, Clone)]
pub struct AuthStart {
    pub authorize_url: String,
}

/// Runtime settings (with defaults for development).
#[derive(Debug, Clone)]
pub struct Settings {
    /// Directory holding `accounts.yaml` / `config.yaml` / `rules.yaml`.
    pub config_dir: String,
    /// Base directory for per-account token caches (`<cache_dir>/<id>/`).
    pub cache_dir: String,
    /// Directory of the built SPA to serve.
    pub web_dir: String,
    /// Address to bind the HTTP server to.
    pub bind_addr: String,
}

/// A variable's value when set and non-empty, else the default.
pub open spec fn var_or(value: Option<String>, default: Seq<char>) -> Seq<char> {
    match value {
        Some(v) => if v@.len() > 0 { v@ } else { default },
        None => default,
    }
}

/// A variable's value when set and non-empty, else the default.
fn value_or(value: Option<String>, default: &str) -> (r: String)
    ensures
        r@ == var_or(value, default@),
{
    match value {
        Some(v) => if v.as_str().unicode_len() > 0 { v } else { owned(default) },
        None => owned(default),
    }
}

impl Settings {
    /// Settings from the values of `MAILWARD_CONFIG_DIR`, `MAILWARD_CACHE_DIR`,
    /// `MAILWARD_WEB_DIR` and `MAILWARD_BIND` (`None` where a variable is unset);
    /// an unset or empty variable takes its default.
    pub fn from_env(config_dir: Option<String>, cache_dir: Option<String>, web_dir: Option<String>, bind_addr: Option<String>) -> (r: Settings)
        ensures
            r.config_dir@ == var_or(config_dir, "."@),
            r.cache_dir@ == var_or(cache_dir, ".cache"@),
            r.web_dir@ == var_or(web_dir, "apps/web/dist"@),
            r.bind_addr@ == var_or(bind_addr, "127.0.0.1:8080"@),
    {
        Settings {
            config_dir: value_or(config_dir, "."),
            cache_dir: value_or(cache_dir, ".cache"),
            web_dir: value_or(web_dir, "apps/web/dist"),
            bind_addr: value_or(bind_addr, "127.0.0.1:8080"),
        }
    }

    /// The path of a config file inside the config directory.
    pub fn config_file(&self, name: &str) -> (r: String)
        ensures
            r@ == joined_path(self.config_dir@, name@),
    {
        join_path(self.config_dir.as_str(), name)
    }
}

/// The report of one message's verdict.
pub open spec fn reports(d: MessageDecision, account: Seq<char>, folder: Seq<char>, m: MailMessage, v: (Decision, Seq<char>)) -> bool {
    &&& d.account@ == account
    &&& d.folder@ == folder
    &&& d.uid@ == m.id@
    &&& d.subject@ == m.subject@
    &&& d.from@ == m.from_address@
    &&& d.decision == kind_of(v.0)
    &&& d.reason@ == v.1
}

/// The report of one message's verdict in a folder of an account.
pub fn make_decision(account: &str, folder: &str, message: &MailMessage, verdict: &Verdict) -> (r: MessageDecision)
    ensures
        reports(r, account@, folder@, *message, (verdict.decision, verdict.reason@)),
{
    MessageDecision {
        account: owned(account),
        folder: owned(folder),
        uid: message.id.clone(),
        subject: message.subject.clone(),
        from: message.from_address.clone(),
        decision: DecisionKind::from(verdict.decision),
        reason: verdict.reason.clone(),
    }
}

/// The ids of the messages whose verdict under `rules` is `d`, in order.
pub open spec fn ids_deciding(ms: Seq<MailMessage>, rules: Seq<(Seq<char>, PredModel, Decision)>, d: Decision) -> Seq<Seq<char>>
    decreases ms.len(),
{
    if ms.len() == 0 {
        Seq::empty()
    } else {
        let rest = ids_deciding(ms.drop_last(), rules, d);
        if verdict_of(rules, ms.last()).0 == d { rest.push(ms.last().id@) } else { rest }
    }
}

/// How many of the reports carry the decision `k`.
pub open spec fn count_kind(ds: Seq<MessageDecision>, k: DecisionKind) -> nat
    decreases ds.len(),
{
    if ds.len() == 0 {
        0
    } else {
        count_kind(ds.drop_last(), k) + if ds.last().decision == k { 1nat } else { 0nat }
    }
}

/// How many reported messages a run of the given mode acts on: a classify run
/// marks read or deletes, a cleanup run only deletes.
pub open spec fn acted_count(ds: Seq<MessageDecision>, mode: RunMode) -> nat {
    match mode {
        RunMode::Classify => count_kind(ds, DecisionKind::MarkRead) + count_kind(ds, DecisionKind::Delete),
        RunMode::Cleanup => count_kind(ds, DecisionKind::Delete),
    }
}

proof fn lemma_count_kind_concat(a: Seq<MessageDecision>, b: Seq<MessageDecision>, k: DecisionKind)
    ensures
        count_kind(a + b, k) == count_kind(a, k) + count_kind(b, k),
    decreases b.len(),
{
    if b.len() == 0 {
        assert(a + b =~= a);
    } else {
        lemma_count_kind_concat(a, b.drop_last(), k);
        assert((a + b).drop_last() =~= a + b.drop_last());
        assert((a + b).last() == b.last());
    }
}

/// The acted-on count of reports gathered in two parts is the sum of the parts'
/// counts, so the running total of a run equals the count over all its reports.
pub proof fn law_acted_count_adds_up(a: Seq<MessageDecision>, b: Seq<MessageDecision>, mode: RunMode)
    ensures
        acted_count(a + b, mode) == acted_count(a, mode) + acted_count(b, mode),
{
    lemma_count_kind_concat(a, b, DecisionKind::MarkRead);
    lemma_count_kind_concat(a, b, DecisionKind::Delete);
}

/// The sum of a list of counts.
pub open spec fn total(ns: Seq<nat>) -> nat
    decreases ns.len(),
{
    if ns.len() == 0 { 0 } else { ns[0] + total(ns.drop_first()) }
}

/// Over a whole run, made of the reports of each folder in turn and the number
/// of messages acted on in each: when each folder's acted-on number is its count
/// of acting reports, the run's acted-on total is the count of acting reports
/// over all of them.
pub proof fn law_run_acted_total(parts: Seq<Seq<MessageDecision>>, acted: Seq<nat>, mode: RunMode)
    requires
        parts.len() == acted.len(),
        forall|i: int| 0 <= i < parts.len() ==> #[trigger] acted[i] == acted_count(parts[i], mode),
    ensures
        total(acted) == acted_count(parts.flatten(), mode),
    decreases parts.len(),
{
    if parts.len() > 0 {
        assert forall|i: int| 0 <= i < parts.drop_first().len() implies #[trigger] acted.drop_first()[i]
            == acted_count(parts.drop_first()[i], mode) by {
            assert(acted.drop_first()[i] == acted[i + 1]);
            assert(parts.drop_first()[i] == parts[i + 1]);
        }
        law_run_acted_total(parts.drop_first(), acted.drop_first(), mode);
        law_acted_count_adds_up(parts[0], parts.drop_first().flatten(), mode);
        assert(acted[0] == acted_count(parts[0], mode));
    }
}

/// Reports that follow the verdicts of `ms` one for one carry decision `d` as
/// often as `ms` has messages deciding `d`.
proof fn lemma_count_reports(ds: Seq<MessageDecision>, ms: Seq<MailMessage>, rules: Seq<(Seq<char>, PredModel, Decision)>, d: Decision)
    requires
        ds.len() == ms.len(),
        forall|i: int| 0 <= i < ds.len() ==> #[trigger] ds[i].decision == kind_of(verdict_of(rules, ms[i]).0),
    ensures
        count_kind(ds, kind_of(d)) == ids_deciding(ms, rules, d).len(),
    decreases ds.len(),
{
    if ds.len() > 0 {
        let n = ds.len() - 1;
        assert forall|i: int| 0 <= i < ds.drop_last().len() implies #[trigger] ds.drop_last()[i].decision
            == kind_of(verdict_of(rules, ms.drop_last()[i]).0) by {
            assert(ds.drop_last()[i] == ds[i]);
            assert(ms.drop_last()[i] == ms[i]);
        }
        lemma_count_reports(ds.drop_last(), ms.drop_last(), rules, d);
        assert(ds[n].decision == kind_of(verdict_of(rules, ms[n]).0));
    }
}

/// The ids to act on after classifying a folder.
pub struct Actions {
    pub mark_read: Vec<String>,
    pub delete: Vec<String>,
}

/// Classifies each message of a folder with the unread-path rules: every
/// message gets a report, and the ids of those to mark read and to delete are
/// collected in order.
pub fn classify_folder(account: &str, folder: &str, messages: &[MailMessage], rules: &RuleSet) -> (r: (Actions, Vec<MessageDecision>))
    ensures
        r.1.len() == messages.len(),
        forall|i: int| 0 <= i < messages.len() ==> reports(#[trigger] r.1@[i], account@, folder@, messages@[i],
            verdict_of(rules_view(rules.classify@), messages@[i])),
        crate::config::texts(r.0.mark_read@) == ids_deciding(messages@, rules_view(rules.classify@), Decision::MarkRead),
        crate::config::texts(r.0.delete@) == ids_deciding(messages@, rules_view(rules.classify@), Decision::Delete),
        r.0.mark_read.len() + r.0.delete.len() == acted_count(r.1@, RunMode::Classify),
{
    let ghost rv = rules_view(rules.classify@);
    let mut actions = Actions { mark_read: Vec::new(), delete: Vec::new() };
    let mut decisions: Vec<MessageDecision> = Vec::new();
    let mut i: usize = 0;
    while i < messages.len()
        invariant
            i <= messages.len(),
            rv == rules_view(rules.classify@),
            decisions.len() == i,
            forall|j: int| 0 <= j < i ==> reports(#[trigger] decisions@[j], account@, folder@, messages@[j], verdict_of(rv, messages@[j])),
            crate::config::texts(actions.mark_read@) == ids_deciding(messages@.take(i as int), rv, Decision::MarkRead),
            crate::config::texts(actions.delete@) == ids_deciding(messages@.take(i as int), rv, Decision::Delete),
        decreases messages.len() - i,
    {
        assert(messages@.take(i + 1).drop_last() =~= messages@.take(i as int));
        assert(messages@.take(i + 1).last() == messages@[i as int]);
        let verdict = first_match(rules.classify.as_slice(), &messages[i]);
        let decision = make_decision(account, folder, &messages[i], &verdict);
        match verdict.decision {
            Decision::MarkRead => {
                let ghost before = actions.mark_read@;
                actions.mark_read.push(messages[i].id.clone());
                assert(crate::config::texts(actions.mark_read@) =~= crate::config::texts(before).push(messages@[i as int].id@));
            },
            Decision::Delete => {
                let ghost before = actions.delete@;
                actions.delete.push(messages[i].id.clone());
                assert(crate::config::texts(actions.delete@) =~= crate::config::texts(before).push(messages@[i as int].id@));
            },
            Decision::Keep => {},
        }
        decisions.push(decision);
        i += 1;
    }
    assert(messages@.take(messages.len() as int) =~= messages@);
    proof {
        lemma_count_reports(decisions@, messages@, rv, Decision::MarkRead);
        lemma_count_reports(decisions@, messages@, rv, Decision::Delete);
        assert(crate::config::texts(actions.mark_read@).len() == actions.mark_read.len());
        assert(crate::config::texts(actions.delete@).len() == actions.delete.len());
    }
    (actions, decisions)
}

/// The already-read messages of a list, in order.
pub open spec fn read_messages(ms: Seq<MailMessage>) -> Seq<MailMessage> {
    ms.filter(|m: MailMessage| m.is_read)
}

/// Applies the cleanup rules to the already-read messages of a folder (unread
/// mail is never touched): each read message gets a report, and the ids of those
/// to delete are collected in order.
pub fn cleanup_folder(account: &str, folder: &str, messages: &[MailMessage], rules: &RuleSet) -> (r: (Vec<String>, Vec<MessageDecision>))
    ensures
        r.1.len() == read_messages(messages@).len(),
        forall|i: int| 0 <= i < r.1.len() ==> reports(#[trigger] r.1@[i], account@, folder@, read_messages(messages@)[i],
            verdict_of(rules_view(rules.cleanup@), read_messages(messages@)[i])),
        crate::config::texts(r.0@) == ids_deciding(read_messages(messages@), rules_view(rules.cleanup@), Decision::Delete),
        r.0.len() == acted_count(r.1@, RunMode::Cleanup),
{
    let ghost rv = rules_view(rules.cleanup@);
    let ghost pred = |m: MailMessage| m.is_read;
    let mut to_delete: Vec<String> = Vec::new();
    let mut decisions: Vec<MessageDecision> = Vec::new();
    let mut i: usize = 0;
    while i < messages.len()
        invariant
            i <= messages.len(),
            rv == rules_view(rules.cleanup@),
            pred == |m: MailMessage| m.is_read,
            decisions.len() == messages@.take(i as int).filter(pred).len(),
            forall|j: int| 0 <= j < decisions.len() ==> reports(#[trigger] decisions@[j], account@, folder@,
                messages@.take(i as int).filter(pred)[j], verdict_of(rv, messages@.take(i as int).filter(pred)[j])),
            crate::config::texts(to_delete@) == ids_deciding(messages@.take(i as int).filter(pred), rv, Decision::Delete),
        decreases messages.len() - i,
    {
        proof {
            reveal_with_fuel(Seq::<_>::filter, 1);
            assert(messages@.take(i + 1).drop_last() =~= messages@.take(i as int));
        }
        let ghost before_read = messages@.take(i as int).filter(pred);
        if messages[i].is_read {
            let verdict = first_match(rules.cleanup.as_slice(), &messages[i]);
            let decision = make_decision(account, folder, &messages[i], &verdict);
            assert(messages@.take(i + 1).filter(pred) == before_read.push(messages@[i as int]));
            assert(before_read.push(messages@[i as int]).drop_last() =~= before_read);
            if verdict.decision == Decision::Delete {
                let ghost before = to_delete@;
                to_delete.push(messages[i].id.clone());
                assert(crate::config::texts(to_delete@) =~= crate::config::texts(before).push(messages@[i as int].id@));
            }
            decisions.push(decision);
        } else {
            assert(messages@.take(i + 1).filter(pred) == before_read);
        }
        i += 1;
    }
    assert(messages@.take(messages.len() as int) =~= messages@);
    proof {
        let read = read_messages(messages@);
        assert forall|j: int| 0 <= j < decisions.len() implies #[trigger] decisions@[j].decision
            == kind_of(verdict_of(rv, read[j]).0) by {
            assert(reports(decisions@[j], account@, folder@, read[j], verdict_of(rv, read[j])));
        }
        lemma_count_reports(decisions@, read, rv, Decision::Delete);
        assert(crate::config::texts(to_delete@).len() == to_delete.len());
    }
    (to_delete, decisions)
}

/// A folder is protected: confidential or ignored. Protected folders are never
/// touched - never scanned, classified, inspected or cleaned.
pub open spec fn protected(config: FoldersConfig, name: Seq<char>) -> bool {
    listed(config.confidential@, name) || listed(config.ignore@, name)
}

/// A folder an explicit `scan` list selects: named there by its display name or
/// raw name, and neither ignored nor confidential.
pub open spec fn scan_selected(config: FoldersConfig, scan: Seq<String>, f: FolderView) -> bool {
    &&& (listed(scan, f.display_name) || listed(scan, f.name))
    &&& !listed(config.ignore@, f.display_name)
    &&& !listed(config.confidential@, f.display_name)
}

/// The folders a classify run scans, in the order the server listed them.
pub open spec fn scanned(config: FoldersConfig, fs: Seq<FolderView>) -> Seq<FolderView> {
    match config.scan {
        Some(scan) => fs.filter(|f: FolderView| scan_selected(config, scan@, f)),
        None => fs.filter(|f: FolderView| auto_scanned(config, f)),
    }
}

/// The folders a classify run scans: the configured `scan` list (minus ignored
/// and confidential folders), or auto-discovery when `scan` is absent. No
/// protected folder is ever among them.
pub fn scan_folders(config: &FileConfig, folders: &[Folder]) -> (r: Vec<Folder>)
    ensures
        folders_view(r@) == scanned(config.folders, folders_view(folders@)),
        forall|i: int| 0 <= i < r.len() ==> !protected(config.folders, #[trigger] r@[i].display_name@),
{
    let r = scan_folders_in(config, folders);
    proof {
        assert forall|i: int| 0 <= i < r.len() implies !protected(config.folders, #[trigger] r@[i].display_name@) by {
            law_scan_never_protected(config.folders, folders_view(folders@), i);
            assert(folders_view(r@)[i] == r@[i]@);
        }
    }
    r
}

/// The folders a classify run scans (see `scanned`).
fn scan_folders_in(config: &FileConfig, folders: &[Folder]) -> (r: Vec<Folder>)
    ensures
        folders_view(r@) == scanned(config.folders, folders_view(folders@)),
{
    match &config.folders.scan {
        Some(scan) => {
            let ghost pred = |f: FolderView| scan_selected(config.folders, scan@, f);
            let mut out: Vec<Folder> = Vec::new();
            let mut i: usize = 0;
            while i < folders.len()
                invariant
                    i <= folders.len(),
                    config.folders.scan == Some(*scan),
                    pred == |f: FolderView| scan_selected(config.folders, scan@, f),
                    folders_view(out@) == folders_view(folders@).take(i as int).filter(pred),
                decreases folders.len() - i,
            {
                proof {
                    reveal_with_fuel(Seq::<_>::filter, 1);
                    assert(folders_view(folders@).take(i + 1).drop_last() =~= folders_view(folders@).take(i as int));
                }
                let f = &folders[i];
                let named = in_list(scan, f.display_name.as_str()) || in_list(scan, f.name.as_str());
                if named && !config.folders.is_ignored(f.display_name.as_str())
                    && !config.folders.is_confidential(f.display_name.as_str()) {
                    let ghost before = out@;
                    out.push(f.copy());
                    assert(folders_view(out@) =~= folders_view(before).push(folders@[i as int]@));
                }
                i += 1;
            }
            assert(folders_view(folders@).take(folders.len() as int) =~= folders_view(folders@));
            out
        },
        None => discover_scan_folders(&config.folders, folders),
    }
}

/// A folder the user may inspect: selectable, and neither confidential nor ignored.
pub open spec fn inspectable(config: FoldersConfig, f: FolderView) -> bool {
    &&& f.selectable
    &&& !listed(config.confidential@, f.display_name)
    &&& !listed(config.ignore@, f.display_name)
}

/// The display names of the folders a user may inspect, in listed order.
pub open spec fn inspectable_names(config: FoldersConfig, fs: Seq<FolderView>) -> Seq<Seq<char>> {
    fs.filter(|f: FolderView| inspectable(config, f)).map_values(|f: FolderView| f.display_name)
}

/// All folders a user may inspect: every selectable mailbox (Sent, Junk and
/// Trash included) except confidential and ignored ones, by display name.
pub fn inspectable_folder_names(config: &FoldersConfig, folders: &[Folder]) -> (r: Vec<String>)
    ensures
        crate::config::texts(r@) == inspectable_names(*config, folders_view(folders@)),
        forall|i: int| 0 <= i < r.len() ==> !protected(*config, #[trigger] r@[i]@),
{
    let r = inspectable_names_in(config, folders);
    proof {
        assert forall|i: int| 0 <= i < r.len() implies !protected(*config, #[trigger] r@[i]@) by {
            law_inspection_offers_no_protected_folder(*config, folders_view(folders@), i);
            assert(crate::config::texts(r@)[i] == r@[i]@);
        }
    }
    r
}

/// The display names of the folders a user may inspect (see `inspectable_names`).
fn inspectable_names_in(config: &FoldersConfig, folders: &[Folder]) -> (r: Vec<String>)
    ensures
        crate::config::texts(r@) == inspectable_names(*config, folders_view(folders@)),
{
    let ghost pred = |f: FolderView| inspectable(*config, f);
    let mut out: Vec<String> = Vec::new();
    let mut i: usize = 0;
    while i < folders.len()
        invariant
            i <= folders.len(),
            pred == |f: FolderView| inspectable(*config, f),
            crate::config::texts(out@) == folders_view(folders@).take(i as int).filter(pred).map_values(|f: FolderView| f.display_name),
        decreases folders.len() - i,
    {
        proof {
            reveal_with_fuel(Seq::<_>::filter, 1);
            assert(folders_view(folders@).take(i + 1).drop_last() =~= folders_view(folders@).take(i as int));
        }
        let f = &folders[i];
        let ghost before = out@;
        let ghost kept = folders_view(folders@).take(i as int).filter(pred);
        if f.selectable && !config.is_confidential(f.display_name.as_str()) && !config.is_ignored(f.display_name.as_str()) {
            out.push(f.display_name.clone());
            assert(folders_view(folders@).take(i + 1).filter(pred) == kept.push(folders@[i as int]@));
            assert(kept.push(folders@[i as int]@).map_values(|f: FolderView| f.display_name) =~= kept.map_values(|f: FolderView| f.display_name).push(folders@[i as int].display_name@));
            assert(crate::config::texts(out@) =~= crate::config::texts(before).push(folders@[i as int].display_name@));
        }
        i += 1;
    }
    assert(folders_view(folders@).take(folders.len() as int) =~= folders_view(folders@));
    out
}

/// Why a run refuses what it was asked for.
#[derive(Debug, Clone, PartialEq, Eq)]
pub enum Refusal {
    /// The account id is not in `accounts.yaml`.
    UnknownAccount(String),
    /// No folder on the server has that name.
    UnknownFolder(String),
    /// The folder is confidential or ignored and cannot be inspected.
    FolderNotInspectable(String),
    /// The folder is confidential or ignored and is never cleaned.
    FolderNotCleanable(String),
}

/// The position of the first folder whose display name or raw name is `name`, or -1.
pub open spec fn first_named(fs: Seq<FolderView>, name: Seq<char>) -> int
    decreases fs.len(),
{
    if fs.len() == 0 {
        -1
    } else {
        let k = first_named(fs.drop_last(), name);
        if k >= 0 {
            k
        } else if fs.last().display_name == name || fs.last().name == name {
            fs.len() - 1
        } else {
            -1
        }
    }
}

proof fn lemma_first_named(fs: Seq<FolderView>, name: Seq<char>)
    ensures
        -1 <= first_named(fs, name) < fs.len(),
        first_named(fs, name) >= 0 ==> (fs[first_named(fs, name)].display_name == name || fs[first_named(fs, name)].name == name),
    decreases fs.len(),
{
    if fs.len() > 0 {
        lemma_first_named(fs.drop_last(), name);
    }
}

/// The folder to inspect for a requested name (display or raw): its raw and
/// display names; a name that no folder has, or a folder that is confidential
/// or ignored, is refused.
pub fn inspect_target(config: &FoldersConfig, folders: &[Folder], folder: &str) -> (r: Result<(String, String), Refusal>)
    ensures
        ({
            let fs = folders_view(folders@);
            let k = first_named(fs, folder@);
            match r {
                Ok((raw, display)) => k >= 0 && raw@ == fs[k].name && display@ == fs[k].display_name
                    && !listed(config.confidential@, fs[k].display_name) && !listed(config.ignore@, fs[k].display_name),
                Err(Refusal::UnknownFolder(n)) => k < 0 && n@ == folder@,
                Err(Refusal::FolderNotInspectable(n)) => k >= 0 && n@ == fs[k].display_name
                    && (listed(config.confidential@, fs[k].display_name) || listed(config.ignore@, fs[k].display_name)),
                Err(_) => false,
            }
        }),
{
    let ghost fs = folders_view(folders@);
    let mut i: usize = 0;
    while i < folders.len()
        invariant
            i <= folders.len(),
            fs == folders_view(folders@),
            first_named(fs.take(i as int), folder@) == -1,
        decreases folders.len() - i,
    {
        assert(fs.take(i + 1).drop_last() =~= fs.take(i as int));
        let f = &folders[i];
        if str_equal(f.display_name.as_str(), folder) || str_equal(f.name.as_str(), folder) {
            proof {
                lemma_first_named_prefix(fs, folder@, i + 1);
            }
            if config.is_confidential(f.display_name.as_str()) || config.is_ignored(f.display_name.as_str()) {
                return Err(Refusal::FolderNotInspectable(f.display_name.clone()));
            }
            return Ok((f.name.clone(), f.display_name.clone()));
        }
        i += 1;
    }
    assert(fs.take(folders.len() as int) =~= fs);
    Err(Refusal::UnknownFolder(owned(folder)))
}

proof fn lemma_first_named_prefix(fs: Seq<FolderView>, name: Seq<char>, k: int)
    requires
        0 <= k <= fs.len(),
        first_named(fs.take(k), name) >= 0,
    ensures
        first_named(fs, name) == first_named(fs.take(k), name),
    decreases fs.len() - k,
{
    if k < fs.len() {
        assert(fs.take(k + 1).drop_last() =~= fs.take(k));
        lemma_first_named_prefix(fs, name, k + 1);
    } else {
        assert(fs.take(k) =~= fs);
    }
}

/// An account is picked by the filter: every account when there is none.
pub open spec fn picked(filter: Option<Seq<char>>, a: ResolvedAccount) -> bool {
    match filter {
        Some(id) => a.id@ == id,
        None => true,
    }
}

/// The text of an optional string slice.
pub open spec fn opt_str(filter: Option<&str>) -> Option<Seq<char>> {
    match filter {
        Some(id) => Some(id@),
        None => None,
    }
}

/// `ix` lists, in increasing order and without repetition, exactly the
/// positions of the accounts that the filter picks.
pub open spec fn selects(accounts: Seq<ResolvedAccount>, f: Option<Seq<char>>, ix: Seq<usize>) -> bool {
    &&& forall|k: int| 0 <= k < ix.len() ==> #[trigger] ix[k] < accounts.len() && picked(f, accounts[ix[k] as int])
    &&& forall|k: int, l: int| 0 <= k < l < ix.len() ==> #[trigger] ix[k] < #[trigger] ix[l]
    &&& forall|i: int| 0 <= i < accounts.len() && picked(f, #[trigger] accounts[i]) ==> exists|k: int| 0 <= k < ix.len() && ix[k] == i
}

/// The positions of the accounts a run covers, in order: those the filter picks
/// (every account when there is none). A filter that names no known account is
/// refused.
pub fn select_accounts(accounts: &[ResolvedAccount], filter: Option<&str>) -> (r: Result<Vec<usize>, Refusal>)
    ensures
        match r {
            Ok(ix) => selects(accounts@, opt_str(filter), ix@) && (filter is Some ==> ix.len() > 0),
            Err(Refusal::UnknownAccount(id)) => opt_str(filter) == Some(id@)
                && forall|i: int| 0 <= i < accounts.len() ==> accounts@[i].id@ != id@,
            Err(_) => false,
        },
{
    let ghost f = opt_str(filter);
    let mut ix: Vec<usize> = Vec::new();
    let mut i: usize = 0;
    while i < accounts.len()
        invariant
            i <= accounts.len(),
            f == opt_str(filter),
            forall|k: int| 0 <= k < ix.len() ==> #[trigger] ix@[k] < i && picked(f, accounts@[ix@[k] as int]),
            forall|k: int, l: int| 0 <= k < l < ix.len() ==> #[trigger] ix@[k] < #[trigger] ix@[l],
            forall|j: int| 0 <= j < i && picked(f, #[trigger] accounts@[j]) ==> exists|k: int| 0 <= k < ix.len() && ix@[k] == j,
        decreases accounts.len() - i,
    {
        let take = match filter {
            Some(id) => str_equal(accounts[i].id.as_str(), id),
            None => true,
        };
        let ghost old_ix = ix@;
        if take {
            ix.push(i);
        }
        proof {
            assert(take == picked(f, accounts@[i as int]));
            assert forall|j: int| 0 <= j < i + 1 && picked(f, #[trigger] accounts@[j]) implies exists|k: int| 0 <= k < ix.len() && ix@[k] == j by {
                if j == i {
                    assert(ix@[ix.len() - 1] == j);
                } else {
                    let k = choose|k: int| 0 <= k < old_ix.len() && old_ix[k] == j;
                    assert(ix@[k] == j);
                }
            }
        }
        i += 1;
    }
    match filter {
        Some(id) => {
            if ix.len() == 0 {
                assert forall|j: int| 0 <= j < accounts.len() implies accounts@[j].id@ != id@ by {
                    if accounts@[j].id@ == id@ {
                        assert(picked(f, accounts@[j]));
                    }
                }
                return Err(Refusal::UnknownAccount(owned(id)));
            }
        },
        None => {},
    }
    Ok(ix)
}

/// The first account with the given id; an unknown id is refused.
pub fn find_account(accounts: &[ResolvedAccount], id: &str) -> (r: Result<usize, Refusal>)
    ensures
        match r {
            Ok(i) => i < accounts.len() && accounts@[i as int].id@ == id@
                && forall|j: int| 0 <= j < i ==> accounts@[j].id@ != id@,
            Err(Refusal::UnknownAccount(n)) => n@ == id@ && forall|j: int| 0 <= j < accounts.len() ==> accounts@[j].id@ != id@,
            Err(_) => false,
        },
{
    let mut i: usize = 0;
    while i < accounts.len()
        invariant
            i <= accounts.len(),
            forall|j: int| 0 <= j < i ==> accounts@[j].id@ != id@,
        decreases accounts.len() - i,
    {
        if str_equal(accounts[i].id.as_str(), id) {
            return Ok(i);
        }
        i += 1;
    }
    Err(Refusal::UnknownAccount(owned(id)))
}

/// A classify run never scans a protected (confidential or ignored) folder,
/// whether its folders come from an explicit `scan` list or from
/// auto-discovery; auto-discovery scans only selectable folders.
pub proof fn law_scan_never_protected(config: FoldersConfig, fs: Seq<FolderView>, i: int)
    requires
        0 <= i < scanned(config, fs).len(),
    ensures
        !protected(config, scanned(config, fs)[i].display_name),
        config.scan is None ==> scanned(config, fs)[i].selectable,
{
    match config.scan {
        Some(scan) => {
            fs.lemma_filter_pred(|f: FolderView| scan_selected(config, scan@, f), i);
        },
        None => {
            fs.lemma_filter_pred(|f: FolderView| auto_scanned(config, f), i);
        },
    }
}

/// A folder offered for inspection is never confidential or ignored.
pub proof fn law_inspection_offers_no_protected_folder(config: FoldersConfig, fs: Seq<FolderView>, i: int)
    requires
        0 <= i < inspectable_names(config, fs).len(),
    ensures
        !protected(config, inspectable_names(config, fs)[i]),
{
    let kept = fs.filter(|f: FolderView| inspectable(config, f));
    fs.lemma_filter_pred(|f: FolderView| inspectable(config, f), i);
    assert(inspectable_names(config, fs)[i] == kept[i].display_name);
}

proof fn lemma_ids_deciding(ms: Seq<MailMessage>, rules: Seq<(Seq<char>, PredModel, Decision)>, d: Decision, k: int)
    requires
        0 <= k < ids_deciding(ms, rules, d).len(),
    ensures
        exists|i: int| 0 <= i < ms.len() && #[trigger] ms[i].id@ == ids_deciding(ms, rules, d)[k]
            && verdict_of(rules, ms[i]).0 == d,
    decreases ms.len(),
{
    let rest = ids_deciding(ms.drop_last(), rules, d);
    if k < rest.len() {
        lemma_ids_deciding(ms.drop_last(), rules, d, k);
        let i = choose|i: int| 0 <= i < ms.drop_last().len() && #[trigger] ms.drop_last()[i].id@ == rest[k]
            && verdict_of(rules, ms.drop_last()[i]).0 == d;
        assert(ms[i] == ms.drop_last()[i]);
    } else {
        assert(ms[ms.len() - 1].id@ == ids_deciding(ms, rules, d)[k]);
    }
}

/// Cleanup only ever deletes already-read mail: every id it deletes is that of a
/// read message whose cleanup verdict is `Delete`.
pub proof fn law_cleanup_deletes_only_read(ms: Seq<MailMessage>, rules: Seq<(Seq<char>, PredModel, Decision)>, k: int)
    requires
        0 <= k < ids_deciding(read_messages(ms), rules, Decision::Delete).len(),
    ensures
        exists|i: int| 0 <= i < ms.len() && ms[i].is_read && #[trigger] ms[i].id@ == ids_deciding(read_messages(ms), rules, Decision::Delete)[k]
            && verdict_of(rules, ms[i]).0 == Decision::Delete,
{
    let read = read_messages(ms);
    lemma_ids_deciding(read, rules, Decision::Delete, k);
    let j = choose|j: int| 0 <= j < read.len() && #[trigger] read[j].id@ == ids_deciding(read, rules, Decision::Delete)[k]
        && verdict_of(rules, read[j]).0 == Decision::Delete;
    ms.lemma_filter_pred(|m: MailMessage| m.is_read, j);
    assert(read.contains(read[j]));
    ms.lemma_filter_contains_rev(|m: MailMessage| m.is_read, read[j]);
    let i = choose|i: int| 0 <= i < ms.len() && ms[i] == read[j];
    assert(ms[i].id@ == read[j].id@);
}

/// The name of an auth method, as account summaries show it.
pub open spec fn auth_method_label(m: AuthMethod) -> Seq<char> {
    match m {
        AuthMethod::Xoauth2Msal => "Xoauth2Msal"@,
        AuthMethod::Xoauth2Google => "Xoauth2Google"@,
        AuthMethod::Password => "Password"@,
    }
}

/// The name of an auth method.
pub fn auth_method_name(m: AuthMethod) -> (r: String)
    ensures
        r@ == auth_method_label(m),
{
    match m {
        AuthMethod::Xoauth2Msal => owned("Xoauth2Msal"),
        AuthMethod::Xoauth2Google => owned("Xoauth2Google"),
        AuthMethod::Password => owned("Password"),
    }
}

/// The summary of an account (no secrets); `authenticated` says whether a cached
/// login exists for it.
pub fn account_info(account: &ResolvedAccount, authenticated: bool) -> (r: AccountInfo)
    ensures
        r.id@ == account.id@,
        r.vendor@ == account.vendor@,
        r.username@ == account.username@,
        r.imap_host@ == account.imap_host@,
        r.auth_method@ == auth_method_label(account.auth_method),
        r.authenticated == authenticated,
{
    AccountInfo {
        id: account.id.clone(),
        vendor: account.vendor.clone(),
        username: account.username.clone(),
        imap_host: account.imap_host.clone(),
        auth_method: auth_method_name(account.auth_method),
        authenticated,
    }
}

/// How many messages an inspection fetches: the requested count, or none for a
/// negative one.
pub fn inspect_limit(limit: i32) -> (r: usize)
    ensures
        r as int == if limit < 0 { 0 } else { limit as int },
{
    if limit < 0 { 0 } else { limit as usize }
}

/// The running totals of a run: every reported decision, in order, and how many
/// messages were (or, in a dry run, would be) acted on.
pub struct RunTally {
    pub decisions: Vec<MessageDecision>,
    pub actioned: i32,
}

impl RunTally {
    /// The acted-on total agrees with the reports: it is the number of reported
    /// messages that a run of this mode acts on.
    pub open spec fn agrees(&self, mode: RunMode) -> bool {
        self.actioned == acted_count(self.decisions@, mode)
    }

    /// Nothing reported yet.
    pub fn new() -> (r: RunTally)
        ensures
            r.decisions@ == Seq::<MessageDecision>::empty(),
            r.actioned == 0,
            r.agrees(RunMode::Classify),
            r.agrees(RunMode::Cleanup),
    {
        RunTally { decisions: Vec::new(), actioned: 0 }
    }

    /// Adds the outcome of classifying one folder: its reports, and its messages
    /// to mark read and to delete.
    pub fn record_classified(&mut self, actions: &Actions, decided: Vec<MessageDecision>)
        requires
            0 <= old(self).actioned,
            old(self).actioned + actions.mark_read.len() + actions.delete.len() <= i32::MAX,
        ensures
            final(self).decisions@ == old(self).decisions@ + decided@,
            final(self).actioned == old(self).actioned + actions.mark_read.len() + actions.delete.len(),
            old(self).agrees(RunMode::Classify) && actions.mark_read.len() + actions.delete.len()
                == acted_count(decided@, RunMode::Classify) ==> final(self).agrees(RunMode::Classify),
    {
        proof {
            law_acted_count_adds_up(self.decisions@, decided@, RunMode::Classify);
        }
        let acted = (actions.mark_read.len() + actions.delete.len()) as i32;
        self.actioned = self.actioned + acted;
        let mut decided = decided;
        self.decisions.append(&mut decided);
    }

    /// Adds the outcome of a cleanup: its reports and its messages to delete.
    pub fn record_cleanup(&mut self, deleted: &Vec<String>, decided: Vec<MessageDecision>)
        requires
            0 <= old(self).actioned,
            old(self).actioned + deleted.len() <= i32::MAX,
        ensures
            final(self).decisions@ == old(self).decisions@ + decided@,
            final(self).actioned == old(self).actioned + deleted.len(),
            old(self).agrees(RunMode::Cleanup) && deleted.len() == acted_count(decided@, RunMode::Cleanup)
                ==> final(self).agrees(RunMode::Cleanup),
    {
        proof {
            law_acted_count_adds_up(self.decisions@, decided@, RunMode::Cleanup);
        }
        let acted = deleted.len() as i32;
        self.actioned = self.actioned + acted;
        let mut decided = decided;
        self.decisions.append(&mut decided);
    }

    /// The result of the run: how many messages were reported and acted on, and
    /// whether the decisions were applied (never in a dry run).
    pub fn finish(self, run_id: String, dry_run: bool) -> (r: RunResult)
        ensures
            r.run_id == run_id,
            r.scanned == self.decisions.len() as i32,
            r.actioned == self.actioned,
            r.applied == !dry_run,
            r.decisions@ == self.decisions@,
    {
        let scanned = self.decisions.len() as i32;
        RunResult { run_id, scanned, actioned: self.actioned, applied: !dry_run, decisions: self.decisions }
    }
}

/// What a run changes on the server: nothing in a dry run, else every collected action.
pub fn actions_to_apply(actions: Actions, dry_run: bool) -> (r: Actions)
    ensures
        dry_run ==> r.mark_read@.len() == 0 && r.delete@.len() == 0,
        !dry_run ==> r.mark_read@ == actions.mark_read@ && r.delete@ == actions.delete@,
{
    if dry_run {
        Actions { mark_read: Vec::new(), delete: Vec::new() }
    } else {
        actions
    }
}

/// Where deleted mail goes: the server's `\Trash` mailbox (the first listed
/// folder that advertises it), else the configured fallback folder.
pub fn trash_folder(folders: &[Folder], fallback: &str) -> (r: String)
    ensures
        (exists|i: int| 0 <= i < folders.len() && is_trash(#[trigger] folders@[i]@)) ==> exists|i: int|
            0 <= i < folders.len() && is_trash(#[trigger] folders@[i]@) && r@ == folders@[i].name@
                && forall|j: int| 0 <= j < i ==> !is_trash(#[trigger] folders@[j]@),
        (forall|j: int| 0 <= j < folders.len() ==> !is_trash(#[trigger] folders@[j]@)) ==> r@ == fallback@,
{
    match find_trash(folders) {
        Some(name) => name,
        None => owned(fallback),
    }
}

/// The folder a cleanup run prunes: the configured one, unless it is protected
/// (confidential or ignored), in which case the run is refused before anything
/// is fetched.
pub fn cleanup_target(config: &FoldersConfig, folder: &str) -> (r: Result<String, Refusal>)
    ensures
        r is Ok <==> !protected(*config, folder@),
        r matches Ok(name) ==> name@ == folder@,
        r matches Err(e) ==> (e matches Refusal::FolderNotCleanable(n) && n@ == folder@),
{
    if config.is_confidential(folder) || config.is_ignored(folder) {
        return Err(Refusal::FolderNotCleanable(owned(folder)));
    }
    Ok(owned(folder))
}

} // verus!
