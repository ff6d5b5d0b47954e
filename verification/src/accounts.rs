//! The `accounts.yaml` model: a list of mailboxes, each resolved against its
//! vendor's defaults into a fully-specified [`ResolvedAccount`].

use vstd::prelude::*;

use crate::config::texts;
use crate::text::{chars_of, join_path, joined_path, owned, str_equal};
use crate::vendors::{AuthMethod, VendorDefaults, defaults_view, get_vendor, vendor_spec};
use crate::yaml::{Yaml, YamlValue};

verus! {

/// Everything that can go wrong while resolving the accounts list.
#[derive(Debug)]
pub enum ConfigError {
    /// The file is not a YAML document, or its entries do not read as accounts.
    Yaml(serde_yaml_ng::Error),
    /// The document is not a non-empty list of accounts.
    EmptyAccounts,
    /// An account's `id` is missing or not made of lowercase letters, digits and hyphens.
    InvalidId { index: usize, id: Option<String> },
    /// An account names no vendor, or one that is not registered.
    UnknownVendor { id: String, vendor: Option<String>, known: String },
    /// An account has no `username`.
    MissingUsername(String),
    /// An account has no `imapHost` and its vendor supplies none.
    MissingHost { id: String, vendor: String },
    /// Two accounts share an id.
    DuplicateId(String),
}

/// A fully-resolved account: vendor defaults merged with the account's overrides.
#[derive(Debug, Clone)]
pub struct ResolvedAccount {
    pub id: String,
    pub vendor: String,
    pub username: String,
    pub imap_host: String,
    pub imap_port: u16,
    pub auth_method: AuthMethod,
    pub client_id: Option<String>,
    pub authority: Option<String>,
    pub redirect_uri: Option<String>,
    pub scopes: Vec<String>,
    /// This account's cache directory (`<cache_root>/<id>`); auth files live here.
    pub cache_dir: String,
    /// Name of the env var holding this account's password (password vendors).
    pub password_env: Option<String>,
}

/// One `accounts.yaml` entry as read, before resolution.
#[derive(Debug, Clone, Default)]
pub struct RawAccount {
    pub id: Option<String>,
    pub vendor: Option<String>,
    pub username: Option<String>,
    pub imap_host: Option<String>,
    pub imap_port: Option<u16>,
    pub client_id: Option<String>,
    pub authority: Option<String>,
    pub redirect_uri: Option<String>,
    pub scopes: Option<Vec<String>>,
    pub password_env: Option<String>,
}

/// An account id is non-empty and made of ASCII lowercase letters, digits and `-`.
pub open spec fn valid_id(id: Seq<char>) -> bool {
    id.len() > 0 && forall|i: int| 0 <= i < id.len() ==> {
        let c = #[trigger] id[i];
        ('a' <= c <= 'z') || ('0' <= c <= '9') || c == '-'
    }
}

/// An account id is accepted exactly when it is non-empty and each character
/// is an ASCII lowercase letter (code 97 to 122), an ASCII digit (code 48 to 57)
/// or a hyphen (code 45); so joining two accepted ids gives an accepted id.
pub proof fn law_valid_ids(id: Seq<char>, a: Seq<char>, b: Seq<char>)
    ensures
        valid_id(id) <==> id.len() > 0 && forall|i: int| 0 <= i < id.len() ==> {
            let code = (#[trigger] id[i]) as int;
            (97 <= code <= 122) || (48 <= code <= 57) || code == 45
        },
        valid_id(a) && valid_id(b) ==> valid_id(a + b),
{
    assert forall|i: int| 0 <= i < id.len() implies ({
        let c = #[trigger] id[i];
        ('a' <= c <= 'z') || ('0' <= c <= '9') || c == '-'
    } <==> {
        let code = id[i] as int;
        (97 <= code <= 122) || (48 <= code <= 57) || code == 45
    }) by {
        let c = id[i];
        assert('a' as int == 97 && 'z' as int == 122 && '0' as int == 48 && '9' as int == 57 && '-' as int == 45);
    }
    if valid_id(a) && valid_id(b) {
        assert forall|i: int| 0 <= i < (a + b).len() implies {
            let c = #[trigger] (a + b)[i];
            ('a' <= c <= 'z') || ('0' <= c <= '9') || c == '-'
        } by {
            if i < a.len() {
                assert((a + b)[i] == a[i]);
            } else {
                assert((a + b)[i] == b[i - a.len()]);
            }
        }
    }
}

/// The text of an optional string.
pub open spec fn opt_text(o: Option<String>) -> Option<Seq<char>> {
    match o {
        Some(s) => Some(s@),
        None => None,
    }
}

/// An optional string with the empty string treated as absent.
pub open spec fn cleaned(o: Option<String>) -> Option<Seq<char>> {
    match o {
        Some(s) => if s@.len() > 0 { Some(s@) } else { None },
        None => None,
    }
}

/// The account field when given (and non-empty), else the vendor's default.
pub open spec fn or_default(o: Option<String>, d: Option<Seq<char>>) -> Option<Seq<char>> {
    match cleaned(o) {
        Some(s) => Some(s),
        None => d,
    }
}

/// The known vendor names joined for error messages.
pub open spec fn known_vendors() -> Seq<char> {
    "microsoft, gmail, generic"@
}

/// The id of a raw account when it is valid.
pub open spec fn good_id(raw: RawAccount) -> Option<Seq<char>> {
    match raw.id {
        Some(s) => if valid_id(s@) { Some(s@) } else { None },
        None => None,
    }
}

/// The host an account connects to: its own `imapHost`, else its vendor's.
pub open spec fn resolved_host(raw: RawAccount) -> Seq<char> {
    match cleaned(raw.imap_host) {
        Some(h) => h,
        None => vendor_spec(cleaned(raw.vendor).unwrap()).unwrap().imap_host,
    }
}

/// `a` is `raw` resolved against its vendor's defaults under `cache_root`.
pub open spec fn resolved_as(raw: RawAccount, cache_root: Seq<char>, a: ResolvedAccount) -> bool {
    let vendor = cleaned(raw.vendor).unwrap();
    let d = vendor_spec(vendor).unwrap();
    &&& a.id@ == good_id(raw).unwrap()
    &&& a.vendor@ == vendor
    &&& a.username@ == cleaned(raw.username).unwrap()
    &&& a.imap_host@ == resolved_host(raw)
    &&& a.imap_port == match raw.imap_port { Some(p) => p, None => d.imap_port }
    &&& a.auth_method == d.auth_method
    &&& opt_text(a.client_id) == or_default(raw.client_id, d.client_id)
    &&& opt_text(a.authority) == or_default(raw.authority, d.authority)
    &&& opt_text(a.redirect_uri) == or_default(raw.redirect_uri, d.redirect_uri)
    &&& texts(a.scopes@) == match raw.scopes { Some(v) => texts(v@), None => d.scopes }
    &&& a.cache_dir@ == joined_path(cache_root, a.id@)
    &&& opt_text(a.password_env) == cleaned(raw.password_env)
}

/// The outcome of resolving one raw account (the `index`-th of the list).
pub open spec fn resolution_ok(raw: RawAccount, index: usize, cache_root: Seq<char>, r: Result<ResolvedAccount, ConfigError>) -> bool {
    match good_id(raw) {
        None => r matches Err(ConfigError::InvalidId { index: i, id }) && i == index && opt_text(id) == opt_text(raw.id),
        Some(id) => {
            let vendor = cleaned(raw.vendor);
            if vendor is None || vendor_spec(vendor.unwrap()) is None {
                r matches Err(ConfigError::UnknownVendor { id: e_id, vendor: e_vendor, known }) && e_id@ == id
                    && opt_text(e_vendor) == vendor && known@ == known_vendors()
            } else if cleaned(raw.username) is None {
                r matches Err(ConfigError::MissingUsername(e_id)) && e_id@ == id
            } else if resolved_host(raw).len() == 0 {
                r matches Err(ConfigError::MissingHost { id: e_id, vendor: e_vendor }) && e_id@ == id && e_vendor@ == vendor.unwrap()
            } else {
                r matches Ok(a) && resolved_as(raw, cache_root, a)
            }
        },
    }
}

/// Whether `id` is a valid account id.
pub fn is_valid_id(id: &str) -> (r: bool)
    ensures
        r == valid_id(id@),
{
    let chars = chars_of(id);
    if chars.len() == 0 {
        return false;
    }
    let mut i: usize = 0;
    while i < chars.len()
        invariant
            chars@ == id@,
            i <= chars.len(),
            forall|j: int| 0 <= j < i ==> {
                let c = #[trigger] chars@[j];
                ('a' <= c <= 'z') || ('0' <= c <= '9') || c == '-'
            },
        decreases chars.len() - i,
    {
        let c = chars[i];
        if !(('a' <= c && c <= 'z') || ('0' <= c && c <= '9') || c == '-') {
            return false;
        }
        i += 1;
    }
    true
}

/// An optional string with the empty string treated as absent.
pub fn clean(value: Option<String>) -> (r: Option<String>)
    ensures
        opt_text(r) == cleaned(value),
{
    match value {
        Some(s) => {
            if s.as_str().unicode_len() > 0 {
                Some(s)
            } else {
                None
            }
        },
        None => None,
    }
}

/// An owned copy of an optional static string.
fn owned_opt(value: Option<&'static str>) -> (r: Option<String>)
    ensures
        opt_text(r) == crate::vendors::opt_str_view(value),
{
    match value {
        Some(s) => Some(owned(s)),
        None => None,
    }
}

/// An owned copy of a list of static strings.
fn owned_list(values: &[&str]) -> (r: Vec<String>)
    ensures
        texts(r@) == values@.map_values(|s: &str| s@),
{
    let mut out: Vec<String> = Vec::new();
    let mut i: usize = 0;
    while i < values.len()
        invariant
            i <= values.len(),
            out.len() == i,
            forall|j: int| 0 <= j < i ==> #[trigger] out@[j]@ == values@[j]@,
        decreases values.len() - i,
    {
        out.push(owned(values[i]));
        i += 1;
    }
    assert(texts(out@) =~= values@.map_values(|s: &str| s@));
    out
}

/// A copy of an optional string.
fn copy_opt(value: &Option<String>) -> (r: Option<String>)
    ensures
        opt_text(r) == opt_text(*value),
{
    match value {
        Some(s) => Some(s.clone()),
        None => None,
    }
}

/// Resolves one raw account (the `index`-th of the list) against its vendor's
/// defaults. `cache_root` is the base of the per-account cache directories.
pub fn resolve_account(raw: RawAccount, index: usize, cache_root: &str) -> (r: Result<ResolvedAccount, ConfigError>)
    ensures
        resolution_ok(raw, index, cache_root@, r),
{
    proof {
        reveal_strlit("microsoft, gmail, generic");
    }
    let ghost raw_g = raw;
    let id = match &raw.id {
        Some(s) => {
            if is_valid_id(s.as_str()) {
                s.clone()
            } else {
                return Err(ConfigError::InvalidId { index, id: copy_opt(&raw.id) });
            }
        },
        None => {
            return Err(ConfigError::InvalidId { index, id: None });
        },
    };

    let vendor_name = clean(raw.vendor);
    let defaults: VendorDefaults = match &vendor_name {
        Some(v) => match get_vendor(v.as_str()) {
            Some(d) => d,
            None => {
                return Err(ConfigError::UnknownVendor {
                    id,
                    vendor: vendor_name,
                    known: owned("microsoft, gmail, generic"),
                });
            },
        },
        None => {
            return Err(ConfigError::UnknownVendor {
                id,
                vendor: None,
                known: owned("microsoft, gmail, generic"),
            });
        },
    };
    let vendor = match vendor_name {
        Some(v) => v,
        None => {
            return Err(ConfigError::UnknownVendor { id, vendor: None, known: owned("microsoft, gmail, generic") });
        },
    };

    let username = match clean(raw.username) {
        Some(u) => u,
        None => {
            return Err(ConfigError::MissingUsername(id));
        },
    };

    let imap_host = match clean(raw.imap_host) {
        Some(h) => h,
        None => owned(defaults.imap_host),
    };
    if imap_host.as_str().unicode_len() == 0 {
        return Err(ConfigError::MissingHost { id, vendor });
    }

    let cache_dir = join_path(cache_root, id.as_str());
    let client_id = match clean(raw.client_id) {
        Some(c) => Some(c),
        None => owned_opt(defaults.client_id),
    };
    let authority = match clean(raw.authority) {
        Some(c) => Some(c),
        None => owned_opt(defaults.authority),
    };
    let redirect_uri = match clean(raw.redirect_uri) {
        Some(c) => Some(c),
        None => owned_opt(defaults.redirect_uri),
    };
    let scopes = match raw.scopes {
        Some(v) => v,
        None => owned_list(defaults.scopes),
    };
    let imap_port = match raw.imap_port {
        Some(p) => p,
        None => defaults.imap_port,
    };
    Ok(ResolvedAccount {
        id,
        vendor,
        username,
        imap_host,
        imap_port,
        auth_method: defaults.auth_method,
        client_id,
        authority,
        redirect_uri,
        scopes,
        cache_dir,
        password_env: clean(raw.password_env),
    })
}

/// The accounts document is a non-empty list.
pub open spec fn is_account_list(value: Yaml) -> bool {
    value matches Yaml::Sequence(items) && items.len() > 0
}

/// Checks that a parsed `accounts.yaml` is a non-empty list (before its entries
/// are read into `RawAccount`s).
pub fn check_account_list(value: &YamlValue) -> (r: Result<(), ConfigError>)
    ensures
        r is Ok <==> is_account_list(value@),
        r matches Err(e) ==> e is EmptyAccounts,
{
    match value {
        YamlValue::Sequence(items) => {
            proof {
                crate::yaml::lemma_items_view(items@);
            }
            if items.len() > 0 {
                Ok(())
            } else {
                Err(ConfigError::EmptyAccounts)
            }
        },
        _ => Err(ConfigError::EmptyAccounts),
    }
}

/// A raw account resolves without error.
pub open spec fn resolves(raw: RawAccount) -> bool {
    &&& good_id(raw) is Some
    &&& cleaned(raw.vendor) is Some
    &&& vendor_spec(cleaned(raw.vendor).unwrap()) is Some
    &&& cleaned(raw.username) is Some
    &&& resolved_host(raw).len() > 0
}

/// The id at position `j` repeats an id before it.
pub open spec fn repeats_earlier(ids: Seq<Seq<char>>, j: int) -> bool {
    exists|k: int| 0 <= k < j && #[trigger] ids[k] == ids[j]
}

/// The ids the raw accounts would resolve to.
pub open spec fn raw_ids(raws: Seq<RawAccount>) -> Seq<Seq<char>> {
    raws.map_values(|r: RawAccount| good_id(r).unwrap())
}

/// The outcome of resolving a whole accounts list: the first account that fails
/// to resolve decides the error; otherwise the first id that repeats an earlier
/// one; otherwise every account, resolved in order.
pub open spec fn accounts_outcome(raws: Seq<RawAccount>, cache_root: Seq<char>, r: Result<Vec<ResolvedAccount>, ConfigError>) -> bool {
    &&& forall|i: int| 0 <= i < raws.len() && !resolves(#[trigger] raws[i]) && (forall|j: int| 0 <= j < i ==> resolves(raws[j]))
        ==> resolution_ok(raws[i], i as usize, cache_root, match r { Ok(v) => Err(ConfigError::EmptyAccounts), Err(e) => Err(e) }) && r is Err
    &&& (forall|i: int| 0 <= i < raws.len() ==> resolves(#[trigger] raws[i])) ==> {
        &&& forall|j: int| 0 <= j < raws.len() && repeats_earlier(raw_ids(raws), j) && (forall|m: int| 0 <= m < j ==> !repeats_earlier(raw_ids(raws), m))
            ==> (r matches Err(ConfigError::DuplicateId(x)) && x@ == raw_ids(raws)[j])
        &&& (forall|j: int| 0 <= j < raws.len() ==> !repeats_earlier(raw_ids(raws), j)) ==> (r matches Ok(v)
            && v.len() == raws.len()
            && forall|i: int| 0 <= i < raws.len() ==> resolved_as(#[trigger] raws[i], cache_root, v@[i]))
    }
}

/// The ids of resolved accounts.
fn resolved_ids(accounts: &Vec<ResolvedAccount>) -> (r: Vec<String>)
    ensures
        r.len() == accounts.len(),
        forall|i: int| 0 <= i < accounts.len() ==> #[trigger] r@[i]@ == accounts@[i].id@,
{
    let mut out: Vec<String> = Vec::new();
    let mut i: usize = 0;
    while i < accounts.len()
        invariant
            i <= accounts.len(),
            out.len() == i,
            forall|j: int| 0 <= j < i ==> #[trigger] out@[j]@ == accounts@[j].id@,
        decreases accounts.len() - i,
    {
        out.push(accounts[i].id.clone());
        i += 1;
    }
    out
}

/// The position of the first string that repeats an earlier one.
fn first_repeated(ids: &Vec<String>) -> (r: Option<usize>)
    ensures
        match r {
            Some(j) => j < ids.len() && repeats_earlier(texts(ids@), j as int)
                && forall|m: int| 0 <= m < j ==> !repeats_earlier(texts(ids@), m),
            None => forall|m: int| 0 <= m < ids.len() ==> !repeats_earlier(texts(ids@), m),
        },
{
    let ghost all = texts(ids@);
    let mut j: usize = 0;
    while j < ids.len()
        invariant
            all == texts(ids@),
            j <= ids.len(),
            forall|m: int| 0 <= m < j ==> !repeats_earlier(all, m),
        decreases ids.len() - j,
    {
        let mut k: usize = 0;
        while k < j
            invariant
                all == texts(ids@),
                j < ids.len(),
                k <= j,
                forall|m: int| 0 <= m < j ==> !repeats_earlier(all, m),
                forall|m: int| 0 <= m < k ==> all[m] != all[j as int],
            decreases j - k,
        {
            if ids[k] == ids[j] {
                assert(all[k as int] == all[j as int]);
                assert(repeats_earlier(all, j as int));
                return Some(j);
            }
            k += 1;
        }
        j += 1;
    }
    None
}

/// Resolves every raw account in order, then rejects a repeated id.
pub fn resolve_accounts(raws: Vec<RawAccount>, cache_root: &str) -> (r: Result<Vec<ResolvedAccount>, ConfigError>)
    ensures
        accounts_outcome(raws@, cache_root@, r),
{
    let ghost raws_g = raws@;
    let mut resolved: Vec<ResolvedAccount> = Vec::new();
    for raw in it: raws
        invariant
            it.seq() == raws_g,
            resolved.len() == it.index(),
            forall|j: int| 0 <= j < it.index() ==> resolves(#[trigger] raws_g[j]),
            forall|j: int| 0 <= j < it.index() ==> resolved_as(#[trigger] raws_g[j], cache_root@, resolved@[j]),
    {
        let ghost n = it.index();
        let ghost raw_v = raw;
        assert(raw == raws_g[n as int]);
        let index = resolved.len();
        let outcome = resolve_account(raw, index, cache_root);
        match outcome {
            Ok(a) => {
                resolved.push(a);
            },
            Err(e) => {
                return Err(e);
            },
        }
    }
    // Duplicate ids: the first account whose id was seen before.
    let ids = resolved_ids(&resolved);
    proof {
        assert(texts(ids@) =~= raw_ids(raws_g));
    }
    match first_repeated(&ids) {
        Some(j) => {
            let dup = resolved[j].id.clone();
            proof {
                let all = raw_ids(raws_g);
                assert forall|jj: int| 0 <= jj < raws_g.len() && repeats_earlier(all, jj) && (forall|m: int| 0 <= m < jj ==> !repeats_earlier(all, m))
                    implies jj == j by {
                    if jj > j {
                        assert(!repeats_earlier(all, j as int));
                    }
                }
            }
            return Err(ConfigError::DuplicateId(dup));
        },
        None => {},
    }
    Ok(resolved)
}

proof fn lemma_first_unresolved(raws: Seq<RawAccount>, i: int)
    requires
        0 <= i < raws.len(),
        !resolves(raws[i]),
    ensures
        exists|k: int| 0 <= k <= i && !resolves(#[trigger] raws[k]) && forall|j: int| 0 <= j < k ==> resolves(raws[j]),
    decreases i,
{
    if exists|j: int| 0 <= j < i && !resolves(#[trigger] raws[j]) {
        let j = choose|j: int| 0 <= j < i && !resolves(#[trigger] raws[j]);
        lemma_first_unresolved(raws, j);
    } else {
        assert(forall|j: int| 0 <= j < i ==> resolves(raws[j]));
    }
}

proof fn lemma_first_repeat(ids: Seq<Seq<char>>, i: int)
    requires
        0 <= i < ids.len(),
        repeats_earlier(ids, i),
    ensures
        exists|k: int| 0 <= k <= i && repeats_earlier(ids, k) && forall|m: int| 0 <= m < k ==> !repeats_earlier(ids, m),
    decreases i,
{
    if exists|m: int| 0 <= m < i && repeats_earlier(ids, m) {
        let m = choose|m: int| 0 <= m < i && repeats_earlier(ids, m);
        lemma_first_repeat(ids, m);
    } else {
        assert(forall|m: int| 0 <= m < i ==> !repeats_earlier(ids, m));
    }
}

/// A loaded accounts list never holds two accounts with the same id, and every
/// id is made of lowercase letters, digits and hyphens.
pub proof fn law_loaded_ids_are_valid_and_distinct(raws: Seq<RawAccount>, cache_root: Seq<char>, v: Vec<ResolvedAccount>)
    requires
        accounts_outcome(raws, cache_root, Ok(v)),
    ensures
        forall|i: int| 0 <= i < v.len() ==> valid_id(#[trigger] v@[i].id@),
        forall|i: int, j: int| 0 <= i < j < v.len() ==> #[trigger] v@[i].id@ != #[trigger] v@[j].id@,
{
    if exists|i: int| 0 <= i < raws.len() && !resolves(#[trigger] raws[i]) {
        let i = choose|i: int| 0 <= i < raws.len() && !resolves(#[trigger] raws[i]);
        lemma_first_unresolved(raws, i);
        let k = choose|k: int| 0 <= k <= i && !resolves(#[trigger] raws[k]) && forall|j: int| 0 <= j < k ==> resolves(raws[j]);
        assert(!resolves(raws[k]));
    }
    assert(forall|i: int| 0 <= i < raws.len() ==> resolves(#[trigger] raws[i]));
    let ids = raw_ids(raws);
    if exists|j: int| 0 <= j < raws.len() && repeats_earlier(ids, j) {
        let j = choose|j: int| 0 <= j < raws.len() && repeats_earlier(ids, j);
        lemma_first_repeat(ids, j);
        let k = choose|k: int| 0 <= k <= j && repeats_earlier(ids, k) && forall|m: int| 0 <= m < k ==> !repeats_earlier(ids, m);
        assert(repeats_earlier(ids, k));
    }
    assert(forall|j: int| 0 <= j < raws.len() ==> !repeats_earlier(ids, j));
    assert forall|i: int| 0 <= i < v.len() implies valid_id(#[trigger] v@[i].id@) by {
        assert(resolved_as(raws[i], cache_root, v@[i]));
        assert(resolves(raws[i]));
    }
    assert forall|i: int, j: int| 0 <= i < j < v.len() implies #[trigger] v@[i].id@ != #[trigger] v@[j].id@ by {
        assert(resolved_as(raws[i], cache_root, v@[i]));
        assert(resolved_as(raws[j], cache_root, v@[j]));
        assert(ids[i] == v@[i].id@);
        assert(ids[j] == v@[j].id@);
        if v@[i].id@ == v@[j].id@ {
            assert(repeats_earlier(ids, j));
        }
    }
}

/// Reads an `accounts.yaml` text and resolves its accounts under `cache_root`:
/// the text must be a YAML document holding a non-empty list; `decode` reads the
/// list's entries into raw accounts (a failure there is a YAML error too); then
/// every account is resolved (see `resolve_accounts`).
pub fn load_accounts<F>(text: &str, cache_root: &str, decode: F) -> (r: Result<Vec<ResolvedAccount>, ConfigError>)
    where
        F: Fn(&YamlValue) -> Result<Vec<RawAccount>, serde_yaml_ng::Error>,
    requires
        forall|v: &YamlValue| #[trigger] decode.requires((v,)),
    ensures
        !crate::yaml::yaml_parses(text@) ==> (r matches Err(e) && e is Yaml),
        crate::yaml::yaml_parses(text@) && !is_account_list(crate::yaml::yaml_parsed(text@))
            ==> (r matches Err(e) && e is EmptyAccounts),
        r is Ok ==> crate::yaml::yaml_parses(text@) && is_account_list(crate::yaml::yaml_parsed(text@)),
        crate::yaml::yaml_parses(text@) && is_account_list(crate::yaml::yaml_parsed(text@))
            ==> exists|v: YamlValue, d: Result<Vec<RawAccount>, serde_yaml_ng::Error>|
                v@ == crate::yaml::yaml_parsed(text@) && #[trigger] decode.ensures((&v,), d) && match d {
                    Ok(raws) => accounts_outcome(raws@, cache_root@, r),
                    Err(_) => (r matches Err(e) && e is Yaml),
                },
{
    let value = match crate::yaml::parse_yaml(text) {
        Ok(v) => v,
        Err(e) => return Err(ConfigError::Yaml(e)),
    };
    match check_account_list(&value) {
        Ok(()) => {},
        Err(e) => return Err(e),
    }
    let decoded = decode(&value);
    match decoded {
        Ok(raws) => resolve_accounts(raws, cache_root),
        Err(e) => Err(ConfigError::Yaml(e)),
    }
}

} // verus!
