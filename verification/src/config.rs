//! The `config.yaml` model - folder policy, run defaults and IMAP tuning - with
//! per-account overrides and full defaulting.

use vstd::prelude::*;

use crate::text::{lowercase, str_equal, to_lowercase};
use crate::yaml::{LayeredDocument, Yaml, YamlValue, account_text, accounts_entries, layered, split_base, split_blocks};

verus! {

/// Folder selection and privacy policy.
#[derive(Debug, Clone, PartialEq, Eq)]
pub struct FoldersConfig {
    /// Folders to scan; `None` = auto-discover all selectable folders.
    pub scan: Option<Vec<String>>,
    /// IMAP special-use flags to exclude from auto-discovery (e.g. `\Sent`).
    pub skip_special_use: Vec<String>,
    /// Folder names (lower-cased) to exclude from auto-discovery.
    pub skip_names: Vec<String>,
    /// Folders never scanned/touched, even if named explicitly.
    pub ignore: Vec<String>,
    /// Sensitive folders: opt-in only, never exposed to any AI.
    pub confidential: Vec<String>,
}

/// `name` is one of `names`.
pub open spec fn listed(names: Seq<String>, name: Seq<char>) -> bool {
    exists|i: int| 0 <= i < names.len() && #[trigger] names[i]@ == name
}

/// Whether `name` is one of `names`.
pub fn in_list(names: &Vec<String>, name: &str) -> (r: bool)
    ensures
        r == listed(names@, name@),
{
    let mut i: usize = 0;
    while i < names.len()
        invariant
            i <= names.len(),
            forall|j: int| 0 <= j < i ==> #[trigger] names@[j]@ != name@,
        decreases names.len() - i,
    {
        if str_equal(names[i].as_str(), name) {
            return true;
        }
        i += 1;
    }
    false
}

impl FoldersConfig {
    /// Folder is off-limits entirely (never scan/inspect/clean, even if named).
    pub fn is_ignored(&self, folder: &str) -> (r: bool)
        ensures
            r == listed(self.ignore@, folder@),
    {
        in_list(&self.ignore, folder)
    }

    /// Folder holds sensitive data: opt-in only, never exposed to any AI/external service.
    pub fn is_confidential(&self, folder: &str) -> (r: bool)
        ensures
            r == listed(self.confidential@, folder@),
    {
        in_list(&self.confidential, folder)
    }
}

/// Default targets and sizes for the run modes.
#[derive(Debug, Clone, PartialEq, Eq)]
pub struct DefaultsConfig {
    /// Folder used by inspect / cleanup when none is named.
    pub folder: String,
    /// inspect default max messages.
    pub inspect_limit: u32,
    /// cleanup sweep window size (recent messages scanned).
    pub cleanup_limit: u32,
}

/// IMAP backend tuning.
#[derive(Debug, Clone, PartialEq, Eq)]
pub struct ImapConfig {
    /// Folder to move deletions to if no `\Trash` special-use folder is found.
    pub trash_fallback: String,
    /// How much decoded body text to keep as the preview (for rule matching).
    pub body_preview_chars: usize,
}

/// Fully-defaulted operational config for one account (or the shared base).
#[derive(Debug, Clone, PartialEq, Eq)]
pub struct FileConfig {
    pub folders: FoldersConfig,
    pub defaults: DefaultsConfig,
    pub imap: ImapConfig,
}

/// The `folders:` section as read, before defaulting.
#[derive(Debug, Clone, Default)]
pub struct RawFolders {
    pub scan: Option<Vec<String>>,
    pub skip_special_use: Option<Vec<String>>,
    pub skip_names: Option<Vec<String>>,
    pub ignore: Option<Vec<String>>,
    pub confidential: Option<Vec<String>>,
}

/// The `defaults:` section as read, before defaulting.
#[derive(Debug, Clone, Default)]
pub struct RawDefaults {
    pub folder: Option<String>,
    pub inspect_limit: Option<u32>,
    pub cleanup_limit: Option<u32>,
}

/// The `imap:` section as read, before defaulting.
#[derive(Debug, Clone, Default)]
pub struct RawImap {
    pub trash_fallback: Option<String>,
    pub body_preview_chars: Option<usize>,
}

/// A `config.yaml` as read, before defaulting.
#[derive(Debug, Clone, Default)]
pub struct RawFileConfig {
    pub folders: RawFolders,
    pub defaults: RawDefaults,
    pub imap: RawImap,
}

/// The characters of each string in a list.
pub open spec fn texts(v: Seq<String>) -> Seq<Seq<char>> {
    v.map_values(|s: String| s@)
}

/// The value when present and non-empty, else the fallback.
pub open spec fn non_empty_or(value: Option<String>, fallback: Seq<char>) -> Seq<char> {
    match value {
        Some(s) => if s@.len() > 0 { s@ } else { fallback },
        None => fallback,
    }
}

/// The list when present, else the fallback.
pub open spec fn list_or(value: Option<Vec<String>>, fallback: Seq<Seq<char>>) -> Seq<Seq<char>> {
    match value {
        Some(v) => texts(v@),
        None => fallback,
    }
}

/// The special-use flags skipped when none are configured.
pub open spec fn default_skip_special_use() -> Seq<Seq<char>> {
    seq!["\\Sent"@, "\\Drafts"@, "\\Trash"@]
}

/// The folder names skipped when none are configured.
pub open spec fn default_skip_names() -> Seq<Seq<char>> {
    seq!["outbox"@, "notes"@]
}

/// `config` is `raw` with every default applied.
pub open spec fn normalized(raw: RawFileConfig, config: FileConfig) -> bool {
    &&& config.folders.scan == raw.folders.scan
    &&& texts(config.folders.skip_special_use@) == list_or(raw.folders.skip_special_use, default_skip_special_use())
    &&& texts(config.folders.skip_names@) == list_or(raw.folders.skip_names, default_skip_names()).map_values(|n: Seq<char>| lowercase(n))
    &&& texts(config.folders.ignore@) == list_or(raw.folders.ignore, Seq::empty())
    &&& texts(config.folders.confidential@) == list_or(raw.folders.confidential, Seq::empty())
    &&& config.defaults.folder@ == non_empty_or(raw.defaults.folder, "INBOX"@)
    &&& config.defaults.inspect_limit == match raw.defaults.inspect_limit { Some(n) => n, None => 30 }
    &&& config.defaults.cleanup_limit == match raw.defaults.cleanup_limit { Some(n) => n, None => 500 }
    &&& config.imap.trash_fallback@ == non_empty_or(raw.imap.trash_fallback, "Deleted"@)
    &&& config.imap.body_preview_chars == match raw.imap.body_preview_chars { Some(n) => n, None => 2000 }
}

/// What an unset setting reads as: the folder `INBOX`, at most 30 messages
/// inspected and 500 swept by cleanup, the Trash fallback `Deleted`, 2000
/// characters of body preview, the Sent, Drafts and Trash folders skipped by
/// special use, and no folder ignored or confidential. A set value is kept as
/// given (an empty folder or fallback name counts as unset).
pub proof fn law_normalize_defaults(raw: RawFileConfig, config: FileConfig)
    requires
        normalized(raw, config),
    ensures
        (raw.defaults.folder is None ==> config.defaults.folder@ == "INBOX"@),
        (raw.defaults.folder matches Some(f) ==> (f@.len() > 0 ==> config.defaults.folder@ == f@)),
        (raw.defaults.inspect_limit is None ==> config.defaults.inspect_limit == 30),
        (raw.defaults.inspect_limit matches Some(n) ==> config.defaults.inspect_limit == n),
        (raw.defaults.cleanup_limit is None ==> config.defaults.cleanup_limit == 500),
        (raw.defaults.cleanup_limit matches Some(n) ==> config.defaults.cleanup_limit == n),
        (raw.imap.trash_fallback is None ==> config.imap.trash_fallback@ == "Deleted"@),
        (raw.imap.body_preview_chars is None ==> config.imap.body_preview_chars == 2000),
        (raw.imap.body_preview_chars matches Some(n) ==> config.imap.body_preview_chars == n),
        (raw.folders.skip_special_use is None ==> config.folders.skip_special_use.len() == 3
            && config.folders.skip_special_use@[0]@ == "\\Sent"@
            && config.folders.skip_special_use@[1]@ == "\\Drafts"@
            && config.folders.skip_special_use@[2]@ == "\\Trash"@),
        (raw.folders.ignore is None ==> config.folders.ignore.len() == 0),
        (raw.folders.confidential is None ==> config.folders.confidential.len() == 0),
        config.folders.scan == raw.folders.scan,
{
    if raw.folders.skip_special_use is None {
        let t = texts(config.folders.skip_special_use@);
        assert(t == default_skip_special_use());
        assert(t.len() == 3);
        assert(t[0] == config.folders.skip_special_use@[0]@);
        assert(t[1] == config.folders.skip_special_use@[1]@);
        assert(t[2] == config.folders.skip_special_use@[2]@);
    }
    if raw.folders.ignore is None {
        assert(texts(config.folders.ignore@).len() == 0);
    }
    if raw.folders.confidential is None {
        assert(texts(config.folders.confidential@).len() == 0);
    }
}

/// The value when present and non-empty, else the fallback.
pub fn non_empty(value: Option<String>, fallback: &str) -> (r: String)
    ensures
        r@ == non_empty_or(value, fallback@),
{
    match value {
        Some(s) => {
            if s.as_str().unicode_len() > 0 {
                s
            } else {
                crate::text::owned(fallback)
            }
        },
        None => crate::text::owned(fallback),
    }
}

/// Owned copies of static strings.
pub fn owned(values: &[&str]) -> (r: Vec<String>)
    ensures
        texts(r@) == values@.map_values(|s: &str| s@),
{
    let mut out: Vec<String> = Vec::new();
    let mut i: usize = 0;
    while i < values.len()
        invariant
            i <= values.len(),
            out.len() == i,
            forall|j: int| 0 <= j < i ==> #[trigger] out@[j]@ == values@[j]@,
        decreases values.len() - i,
    {
        out.push(crate::text::owned(values[i]));
        i += 1;
    }
    assert(texts(out@) =~= values@.map_values(|s: &str| s@));
    out
}

/// The lower-cased form of every string in a list.
fn lowercase_all(values: Vec<String>) -> (r: Vec<String>)
    ensures
        texts(r@) == texts(values@).map_values(|n: Seq<char>| lowercase(n)),
{
    let mut out: Vec<String> = Vec::new();
    let mut i: usize = 0;
    while i < values.len()
        invariant
            i <= values.len(),
            out.len() == i,
            forall|j: int| 0 <= j < i ==> #[trigger] out@[j]@ == lowercase(values@[j]@),
        decreases values.len() - i,
    {
        out.push(to_lowercase(values[i].as_str()));
        i += 1;
    }
    assert(texts(out@) =~= texts(values@).map_values(|n: Seq<char>| lowercase(n)));
    out
}

/// A list, or the given fallback when absent.
fn list_or_else(value: Option<Vec<String>>, fallback: &[&str]) -> (r: Vec<String>)
    ensures
        texts(r@) == list_or(value, fallback@.map_values(|s: &str| s@)),
{
    match value {
        Some(v) => v,
        None => owned(fallback),
    }
}

/// Applies the defaults to a raw parsed config.
pub fn normalize(raw: RawFileConfig) -> (r: FileConfig)
    ensures
        normalized(raw, r),
{
    proof {
        reveal_strlit("\\Sent");
        reveal_strlit("\\Drafts");
        reveal_strlit("\\Trash");
        reveal_strlit("outbox");
        reveal_strlit("notes");
    }
    let ghost raw_g = raw;
    let folders = raw.folders;
    let special: [&str; 3] = ["\\Sent", "\\Drafts", "\\Trash"];
    let names: [&str; 2] = ["outbox", "notes"];
    let empty: [&str; 0] = [];
    let skip_special_use = list_or_else(folders.skip_special_use, &special);
    let skip_names = lowercase_all(list_or_else(folders.skip_names, &names));
    let ignore = list_or_else(folders.ignore, &empty);
    let confidential = list_or_else(folders.confidential, &empty);
    proof {
        assert(special@.map_values(|s: &str| s@) =~= default_skip_special_use());
        assert(names@.map_values(|s: &str| s@) =~= default_skip_names());
        assert(empty@.map_values(|s: &str| s@) =~= Seq::<Seq<char>>::empty());
    }
    FileConfig {
        folders: FoldersConfig {
            scan: folders.scan,
            skip_special_use,
            skip_names,
            ignore,
            confidential,
        },
        defaults: DefaultsConfig {
            folder: non_empty(raw.defaults.folder, "INBOX"),
            inspect_limit: match raw.defaults.inspect_limit {
                Some(n) => n,
                None => 30,
            },
            cleanup_limit: match raw.defaults.cleanup_limit {
                Some(n) => n,
                None => 500,
            },
        },
        imap: ImapConfig {
            trash_fallback: non_empty(raw.imap.trash_fallback, "Deleted"),
            body_preview_chars: match raw.imap.body_preview_chars {
                Some(n) => n,
                None => 2000,
            },
        },
    }
}

/// A loaded `config.yaml`: the shared base plus per-account override blocks (keyed
/// by account id), each deep-merged over the base.
pub struct ConfigDocument {
    pub document: LayeredDocument,
}

impl ConfigDocument {
    /// Splits a parsed `config.yaml` into its base and its `accounts:` blocks.
    pub fn from_yaml_value(value: YamlValue) -> (r: ConfigDocument)
        ensures
            r.document.base_view() == split_base(value@),
            r.document.blocks_view() == split_blocks(value@),
    {
        ConfigDocument { document: LayeredDocument::from_value(value) }
    }

    /// The merged document for one account (or the shared base when `account` is
    /// `None` or has no override block); it is read into a `RawFileConfig` and
    /// then `normalize`d.
    pub fn merged_for(&self, account: Option<&str>) -> (r: YamlValue)
        ensures
            r@ == layered(self.document.base_view(), self.document.blocks_view(), account_text(account)),
    {
        self.document.merged_for(account)
    }

    /// Reads a `config.yaml` text: its base and its `accounts:` blocks. It fails,
    /// with the YAML error, exactly when the text is not a YAML document.
    pub fn from_yaml_str(text: &str) -> (r: Result<ConfigDocument, crate::accounts::ConfigError>)
        ensures
            r is Ok <==> crate::yaml::yaml_parses(text@),
            r matches Ok(d) ==> d.read_from(crate::yaml::yaml_parsed(text@)),
            r matches Err(e) ==> e is Yaml,
    {
        match crate::yaml::parse_yaml(text) {
            Ok(value) => Ok(ConfigDocument::from_yaml_value(value)),
            Err(e) => Err(crate::accounts::ConfigError::Yaml(e)),
        }
    }

    /// The document was read from the parsed file `v`.
    pub open spec fn read_from(&self, v: Yaml) -> bool {
        &&& self.document.base_view() == split_base(v)
        &&& self.document.blocks_view() == split_blocks(v)
    }
}

/// For a `config.yaml` whose `accounts:` mapping does not name an account, that
/// account's merged document is the shared base, exactly what is read when no
/// account is asked for; and the base itself does not depend on what the
/// `accounts:` block holds.
pub proof fn law_unlisted_account_reads_the_base(doc: ConfigDocument, v: Yaml, id: Seq<char>)
    requires
        doc.read_from(v),
        forall|j: int| 0 <= j < accounts_entries(v).len()
            ==> #[trigger] accounts_entries(v)[j].0 != Yaml::Text(id),
    ensures
        layered(doc.document.base_view(), doc.document.blocks_view(), Some(id))
            == layered(doc.document.base_view(), doc.document.blocks_view(), None),
        layered(doc.document.base_view(), doc.document.blocks_view(), None) == split_base(v),
{
    crate::yaml::law_unlisted_account_gets_the_base(v, id);
}

} // verus!
