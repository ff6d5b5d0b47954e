//! The mailbox list as the server reports it, and the folder policy applied to
//! it: which folders a classify run scans, which one is the Trash, and which ones
//! may be inspected.

use vstd::prelude::*;

use crate::config::{FileConfig, FoldersConfig, in_list, listed};
use crate::message::{folder_name, leaf_name};
use crate::text::{chars_of, eq_ascii_ci, eq_ignore_ascii_case, lowercase, owned, string_from_chars, to_lowercase};

verus! {

/// A mailbox as returned by LIST.
#[derive(Debug, Clone, PartialEq, Eq)]
pub struct Folder {
    /// Raw IMAP name (modified UTF-7) - use this for SELECT / MOVE.
    pub name: String,
    /// Decoded UTF-8 name - use this for matching config and for display.
    pub display_name: String,
    pub selectable: bool,
    /// RFC 6154 special-use flags (e.g. `\Sent`, `\Trash`) as `\Name` strings.
    pub special_use: Vec<String>,
}

/// The model of a folder.
pub struct FolderView {
    pub name: Seq<char>,
    pub display_name: Seq<char>,
    pub selectable: bool,
    pub special_use: Seq<Seq<char>>,
}

impl View for Folder {
    type V = FolderView;

    open spec fn view(&self) -> FolderView {
        FolderView {
            name: self.name@,
            display_name: self.display_name@,
            selectable: self.selectable,
            special_use: self.special_use@.map_values(|s: String| s@),
        }
    }
}

impl Folder {
    /// A copy of this folder with the same model.
    pub fn copy(&self) -> (r: Folder)
        ensures
            r@ == self@,
    {
        let special_use = self.special_use.clone();
        assert(special_use@ =~= self.special_use@);
        Folder {
            name: self.name.clone(),
            display_name: self.display_name.clone(),
            selectable: self.selectable,
            special_use,
        }
    }
}

/// The models of a run of folders.
pub open spec fn folders_view(folders: Seq<Folder>) -> Seq<FolderView> {
    folders.map_values(|f: Folder| f@)
}

/// A mailbox attribute reported by LIST that matters here.
#[derive(Debug, Clone, PartialEq, Eq)]
pub enum FolderAttribute {
    NoSelect,
    Sent,
    Drafts,
    Trash,
    Junk,
    Archive,
    All,
    Flagged,
    /// Any other flag, with the text the server sent.
    Extension(String),
    /// NoInferiors / Marked / Unmarked and anything else irrelevant here.
    Other,
}

/// `s` with every leading `\` removed.
pub open spec fn trim_backslashes(s: Seq<char>) -> Seq<char>
    decreases s.len(),
{
    if s.len() > 0 && s[0] == '\\' {
        trim_backslashes(s.drop_first())
    } else {
        s
    }
}

/// The special-use flag an attribute contributes, as `\Name` text.
pub open spec fn attribute_flag(a: FolderAttribute) -> Option<Seq<char>> {
    match a {
        FolderAttribute::Sent => Some("\\Sent"@),
        FolderAttribute::Drafts => Some("\\Drafts"@),
        FolderAttribute::Trash => Some("\\Trash"@),
        FolderAttribute::Junk => Some("\\Junk"@),
        FolderAttribute::Archive => Some("\\Archive"@),
        FolderAttribute::All => Some("\\All"@),
        FolderAttribute::Flagged => Some("\\Flagged"@),
        FolderAttribute::Extension(flag) => Some(seq!['\\'] + trim_backslashes(flag@)),
        _ => None,
    }
}

/// The special-use flags of a list of attributes, in order.
pub open spec fn special_use_of(attrs: Seq<FolderAttribute>) -> Seq<Seq<char>>
    decreases attrs.len(),
{
    if attrs.len() == 0 {
        Seq::empty()
    } else {
        let rest = special_use_of(attrs.drop_last());
        match attribute_flag(attrs.last()) {
            Some(f) => rest.push(f),
            None => rest,
        }
    }
}

/// The modified-UTF-7 decoding of a mailbox name, as the `utf7_imap` crate computes it.
pub uninterp spec fn utf7_decoded(name: Seq<char>) -> Seq<char>;

/// A character of the base64 alphabet, with `,` standing for `/` as modified UTF-7 writes it.
pub open spec fn is_b64_char(c: char) -> bool {
    ('A' <= c <= 'Z') || ('a' <= c <= 'z') || ('0' <= c <= '9') || c == '+' || c == '/' || c == ','
}

/// The 6-bit value of a base64 character.
pub open spec fn b64_value(c: char) -> int {
    if 'A' <= c <= 'Z' {
        c as int - 'A' as int
    } else if 'a' <= c <= 'z' {
        c as int - 'a' as int + 26
    } else if '0' <= c <= '9' {
        c as int - '0' as int + 52
    } else if c == '+' {
        62
    } else {
        63
    }
}

/// The number of data characters of a run: those before its first `=`.
pub open spec fn b64_data_len(run: Seq<char>) -> int {
    let k = find_from(run, '=', 0);
    if k < 0 { run.len() as int } else { k }
}

/// The length of a run once the decoder pads it with `=` to a multiple of four.
pub open spec fn b64_padded_len(run: Seq<char>) -> int {
    (((run.len() + 3) / 4) * 4) as int
}

/// The run between `&` and `-` decodes as base64 (the decoder pads it with `=`
/// to a multiple of four): base64 characters, then only `=`, at most two
/// padding characters in all and all of them in the last group of four, and no
/// stray bits in the last data character.
pub open spec fn b64_run_ok(run: Seq<char>) -> bool {
    let n = b64_data_len(run);
    &&& forall|i: int| 0 <= i < n ==> is_b64_char(#[trigger] run[i])
    &&& forall|i: int| n <= i < run.len() ==> #[trigger] run[i] == '='
    &&& b64_padded_len(run) - n <= 2
    &&& n % 4 == 2 ==> b64_value(run[n - 1]) % 16 == 0
    &&& n % 4 == 3 ==> b64_value(run[n - 1]) % 4 == 0
}

/// Position of the first `c` in `s` at or after `from`, or -1.
pub open spec fn find_from(s: Seq<char>, c: char, from: int) -> int
    decreases s.len() - from,
{
    if from < 0 || from >= s.len() {
        -1
    } else if s[from] == c {
        from
    } else {
        find_from(s, c, from + 1)
    }
}

/// Every `&...-` run of the name from `from` on (leftmost, non-overlapping, as
/// the decoder's `&([^-]*)-` pattern finds them) is empty or decodes as base64.
pub open spec fn utf7_runs_ok(s: Seq<char>, from: int) -> bool
    decreases s.len() - from,
{
    if from < 0 || from >= s.len() {
        true
    } else {
        let amp = find_from(s, '&', from);
        if amp < 0 {
            true
        } else {
            let dash = find_from(s, '-', amp + 1);
            if dash < 0 {
                true
            } else if dash <= from || dash >= s.len() {
                true
            } else {
                let run = s.subrange(amp + 1, dash);
                (run.len() == 0 || b64_run_ok(run)) && utf7_runs_ok(s, dash + 1)
            }
        }
    }
}

/// The name can be given to the modified-UTF-7 decoder (which panics on a run
/// that is not valid base64).
pub open spec fn utf7_decodable(name: Seq<char>) -> bool {
    utf7_runs_ok(name, 0)
}

/// Decodes a mailbox name from modified UTF-7 with `utf7_imap::decode_utf7_imap`.
/// Claimed: the result is `utf7_decoded` of the name, and a name without `&` comes
/// back unchanged (the decoder only rewrites `&...-` runs). The decoder panics on
/// a run that is not valid base64, hence the `requires`.
#[verifier::external_body]
fn decode_utf7(name: &str) -> (r: String)
    requires
        utf7_decodable(name@),
    ensures
        r@ == utf7_decoded(name@),
        find_from(name@, '&', 0) == -1 ==> r@ == name@,
{
    utf7_imap::decode_utf7_imap(name.to_string())
}

pub(crate) proof fn lemma_find_from(s: Seq<char>, c: char, from: int)
    requires
        0 <= from,
    ensures
        -1 <= find_from(s, c, from) < s.len(),
        find_from(s, c, from) >= 0 ==> from <= find_from(s, c, from) && s[find_from(s, c, from)] == c,
        find_from(s, c, from) >= 0 ==> forall|j: int| from <= j < find_from(s, c, from) ==> s[j] != c,
        find_from(s, c, from) == -1 ==> forall|j: int| from <= j < s.len() ==> s[j] != c,
    decreases s.len() - from,
{
    if from < s.len() && s[from] != c {
        lemma_find_from(s, c, from + 1);
    }
}

/// Position of the first `c` in `s` at or after `from`.
pub(crate) fn find_char(s: &Vec<char>, c: char, from: usize) -> (r: Option<usize>)
    ensures
        match r {
            Some(i) => i as int == find_from(s@, c, from as int),
            None => find_from(s@, c, from as int) == -1,
        },
{
    proof {
        lemma_find_from(s@, c, from as int);
    }
    let mut i = from;
    while i < s.len()
        invariant
            from <= i,
            forall|j: int| from <= j < i ==> s@[j] != c,
            -1 <= find_from(s@, c, from as int) < s.len(),
            find_from(s@, c, from as int) >= 0 ==> from <= find_from(s@, c, from as int) && s@[find_from(s@, c, from as int)] == c,
            find_from(s@, c, from as int) >= 0 ==> forall|j: int| from <= j < find_from(s@, c, from as int) ==> s@[j] != c,
            find_from(s@, c, from as int) == -1 ==> forall|j: int| from <= j < s.len() ==> s@[j] != c,
        decreases s.len() - i,
    {
        if s[i] == c {
            proof {
                let k = find_from(s@, c, from as int);
                if k == -1 {
                    assert(s@[i as int] != c);
                } else if k < i {
                    assert(s@[k] == c);
                } else if k > i {
                    assert(s@[i as int] != c);
                }
            }
            return Some(i);
        }
        i += 1;
    }
    None
}

/// The 6-bit value of a base64 character.
fn b64_val(c: char) -> (r: u32)
    requires
        is_b64_char(c),
    ensures
        r as int == b64_value(c),
{
    if 'A' <= c && c <= 'Z' {
        (c as u32) - ('A' as u32)
    } else if 'a' <= c && c <= 'z' {
        (c as u32) - ('a' as u32) + 26
    } else if '0' <= c && c <= '9' {
        (c as u32) - ('0' as u32) + 52
    } else if c == '+' {
        62
    } else {
        63
    }
}

/// Whether the run `s[start..end]` decodes as base64.
fn b64_run_valid(s: &Vec<char>, start: usize, end: usize) -> (r: bool)
    requires
        start <= end <= s.len(),
    ensures
        r == b64_run_ok(s@.subrange(start as int, end as int)),
{
    let ghost run = s@.subrange(start as int, end as int);
    let mut i = start;
    while i < end
        invariant
            start <= i <= end <= s.len(),
            run == s@.subrange(start as int, end as int),
            forall|j: int| 0 <= j < i - start ==> is_b64_char(#[trigger] run[j]) && run[j] != '=',
        ensures
            start <= i <= end <= s.len(),
            run == s@.subrange(start as int, end as int),
            forall|j: int| 0 <= j < i - start ==> is_b64_char(#[trigger] run[j]) && run[j] != '=',
            i == end || s@[i as int] == '=',
        decreases end - i,
    {
        let c = s[i];
        if c == '=' {
            break;
        }
        if !(('A' <= c && c <= 'Z') || ('a' <= c && c <= 'z') || ('0' <= c && c <= '9') || c == '+' || c == '/' || c == ',') {
            proof {
                lemma_find_from(run, '=', 0);
                let k = find_from(run, '=', 0);
                assert(run[i - start] == c);
                if k >= 0 && k <= i - start {
                    assert(run[k] == '=');
                }
                assert(b64_data_len(run) > i - start);
                assert(!is_b64_char(run[i - start]));
            }
            return false;
        }
        assert(run[i - start] == c);
        i += 1;
    }
    let n = i - start;
    proof {
        lemma_find_from(run, '=', 0);
        let k = find_from(run, '=', 0);
        if i < end {
            assert(run[n as int] == s@[i as int]);
        }
        if k >= 0 {
            assert(run[k] == '=');
        }
        assert(b64_data_len(run) == n);
    }
    let mut j = i;
    while j < end
        invariant
            start <= i <= j <= end <= s.len(),
            n == i - start,
            run == s@.subrange(start as int, end as int),
            b64_data_len(run) == n,
            forall|m: int| n <= m < j - start ==> #[trigger] run[m] == '=',
        decreases end - j,
    {
        if s[j] != '=' {
            assert(run[j - start] == s@[j as int]);
            return false;
        }
        assert(run[j - start] == s@[j as int]);
        j += 1;
    }
    let len = end - start;
    let extra: usize = if len % 4 == 0 { 0 } else { 4 - len % 4 };
    assert(b64_padded_len(run) == len + extra) by (nonlinear_arith)
        requires
            len == run.len(),
            extra == if len % 4 == 0 { 0int } else { 4 - len % 4 },
            b64_padded_len(run) == ((run.len() + 3) / 4) * 4,
    {
    }
    if len - n > 2 || (len - n) + extra > 2 {
        return false;
    }
    if n > 0 {
        assert(run[n - 1] == s@[start + n - 1]);
        assert(is_b64_char(run[n - 1]));
    }
    if n % 4 == 2 {
        return b64_val(s[start + n - 1]) % 16 == 0;
    }
    if n % 4 == 3 {
        return b64_val(s[start + n - 1]) % 4 == 0;
    }
    true
}

/// Whether a mailbox name can be given to the modified-UTF-7 decoder.
pub fn is_utf7_decodable(name: &str) -> (r: bool)
    ensures
        r == utf7_decodable(name@),
{
    let s = chars_of(name);
    let mut from: usize = 0;
    while from < s.len()
        invariant
            s@ == name@,
            from <= s.len(),
            utf7_decodable(name@) == utf7_runs_ok(s@, from as int),
        decreases s.len() - from,
    {
        let amp = match find_char(&s, '&', from) {
            Some(a) => a,
            None => return true,
        };
        proof {
            lemma_find_from(s@, '&', from as int);
        }
        let dash = match find_char(&s, '-', amp + 1) {
            Some(d) => d,
            None => return true,
        };
        proof {
            lemma_find_from(s@, '-', amp + 1);
        }
        if dash > amp + 1 && !b64_run_valid(&s, amp + 1, dash) {
            return false;
        }
        from = dash + 1;
    }
    true
}

/// Builds a folder from a LIST entry: its raw name and its attributes. The
/// display name is the decoded name; `\NoSelect` makes it unselectable; each
/// special-use attribute is kept as `\Name` text.
pub fn folder_from_parts(name: String, attributes: Vec<FolderAttribute>) -> (r: Folder)
    requires
        utf7_decodable(name@),
    ensures
        r.name@ == name@,
        r.display_name@ == utf7_decoded(name@),
        r.selectable == !(exists|i: int| 0 <= i < attributes.len() && attributes@[i] is NoSelect),
        r@.special_use == special_use_of(attributes@),
{
    proof {
        reveal_strlit("\\Sent");
        reveal_strlit("\\Drafts");
        reveal_strlit("\\Trash");
        reveal_strlit("\\Junk");
        reveal_strlit("\\Archive");
        reveal_strlit("\\All");
        reveal_strlit("\\Flagged");
    }
    let mut selectable = true;
    let mut special_use: Vec<String> = Vec::new();
    let mut i: usize = 0;
    while i < attributes.len()
        invariant
            i <= attributes.len(),
            selectable == !(exists|j: int| 0 <= j < i && attributes@[j] is NoSelect),
            special_use@.map_values(|s: String| s@) == special_use_of(attributes@.take(i as int)),
        decreases attributes.len() - i,
    {
        let ghost before = special_use@;
        assert(attributes@.take(i + 1).drop_last() =~= attributes@.take(i as int));
        let flag: Option<String> = match &attributes[i] {
            FolderAttribute::NoSelect => {
                selectable = false;
                None
            },
            FolderAttribute::Sent => Some(owned("\\Sent")),
            FolderAttribute::Drafts => Some(owned("\\Drafts")),
            FolderAttribute::Trash => Some(owned("\\Trash")),
            FolderAttribute::Junk => Some(owned("\\Junk")),
            FolderAttribute::Archive => Some(owned("\\Archive")),
            FolderAttribute::All => Some(owned("\\All")),
            FolderAttribute::Flagged => Some(owned("\\Flagged")),
            FolderAttribute::Extension(text) => Some(backslash_flag(text.as_str())),
            FolderAttribute::Other => None,
        };
        match flag {
            Some(f) => {
                special_use.push(f);
                assert(special_use@.map_values(|s: String| s@) =~= before.map_values(|s: String| s@).push(attribute_flag(attributes@[i as int]).unwrap()));
            },
            None => {},
        }
        i += 1;
    }
    assert(attributes@.take(attributes.len() as int) =~= attributes@);
    let display_name = decode_utf7(name.as_str());
    Folder { name, display_name, selectable, special_use }
}

/// `\` followed by the flag with its leading backslashes removed.
fn backslash_flag(flag: &str) -> (r: String)
    ensures
        r@ == seq!['\\'] + trim_backslashes(flag@),
{
    let chars = chars_of(flag);
    let mut start: usize = 0;
    assert(chars@.skip(0) =~= chars@);
    while start < chars.len() && chars[start] == '\\'
        invariant
            chars@ == flag@,
            start <= chars.len(),
            trim_backslashes(flag@) == trim_backslashes(chars@.skip(start as int)),
        decreases chars.len() - start,
    {
        assert(chars@.skip(start as int).drop_first() =~= chars@.skip(start + 1));
        start += 1;
    }
    let mut out: Vec<char> = Vec::new();
    out.push('\\');
    let mut i = start;
    while i < chars.len()
        invariant
            start <= i <= chars.len(),
            out@ == seq!['\\'] + chars@.subrange(start as int, i as int),
        decreases chars.len() - i,
    {
        out.push(chars[i]);
        assert(chars@.subrange(start as int, i + 1) =~= chars@.subrange(start as int, i as int).push(chars@[i as int]));
        i += 1;
    }
    assert(chars@.subrange(start as int, chars.len() as int) =~= chars@.skip(start as int));
    string_from_chars(out.as_slice())
}

/// One of the folder's special-use flags is among those the config skips
/// (compared ignoring ASCII case).
pub open spec fn skips_special_use(config: FoldersConfig, f: FolderView) -> bool {
    exists|i: int, j: int| 0 <= i < f.special_use.len() && 0 <= j < config.skip_special_use.len()
        && eq_ascii_ci(#[trigger] config.skip_special_use@[j]@, #[trigger] f.special_use[i])
}

/// The folder's lower-cased leaf name is among the names the config skips.
pub open spec fn skips_name(config: FoldersConfig, f: FolderView) -> bool {
    listed(config.skip_names@, lowercase(leaf_name(f.display_name)))
}

/// A folder that auto-discovery scans: selectable, and neither skipped by a
/// special-use flag or a name, nor ignored, nor confidential (all matched on the
/// decoded display name).
pub open spec fn auto_scanned(config: FoldersConfig, f: FolderView) -> bool {
    &&& f.selectable
    &&& !skips_special_use(config, f)
    &&& !skips_name(config, f)
    &&& !listed(config.ignore@, f.display_name)
    &&& !listed(config.confidential@, f.display_name)
}

/// Whether any flag of `flags` is among `skip`, ignoring ASCII case.
fn any_flag_skipped(skip: &Vec<String>, flags: &Vec<String>) -> (r: bool)
    ensures
        r == exists|i: int, j: int| 0 <= i < flags.len() && 0 <= j < skip.len()
            && eq_ascii_ci(#[trigger] skip@[j]@, #[trigger] flags@[i]@),
{
    let mut i: usize = 0;
    while i < flags.len()
        invariant
            i <= flags.len(),
            forall|a: int, b: int| 0 <= a < i && 0 <= b < skip.len() ==> !eq_ascii_ci(#[trigger] skip@[b]@, #[trigger] flags@[a]@),
        decreases flags.len() - i,
    {
        let mut j: usize = 0;
        while j < skip.len()
            invariant
                i < flags.len(),
                j <= skip.len(),
                forall|a: int, b: int| 0 <= a < i && 0 <= b < skip.len() ==> !eq_ascii_ci(#[trigger] skip@[b]@, #[trigger] flags@[a]@),
                forall|b: int| 0 <= b < j ==> !eq_ascii_ci(#[trigger] skip@[b]@, flags@[i as int]@),
            decreases skip.len() - j,
        {
            if eq_ignore_ascii_case(skip[j].as_str(), flags[i].as_str()) {
                return true;
            }
            j += 1;
        }
        i += 1;
    }
    false
}

/// Whether auto-discovery scans this folder.
fn is_auto_scanned(config: &FoldersConfig, folder: &Folder) -> (r: bool)
    ensures
        r == auto_scanned(*config, folder@),
{
    assert forall|i: int| 0 <= i < folder.special_use.len() implies #[trigger] folder@.special_use[i] == folder.special_use@[i]@ by {}
    if !folder.selectable {
        return false;
    }
    if any_flag_skipped(&config.skip_special_use, &folder.special_use) {
        proof {
            let (i, j) = choose|i: int, j: int| 0 <= i < folder.special_use.len() && 0 <= j < config.skip_special_use.len()
                && eq_ascii_ci(#[trigger] config.skip_special_use@[j]@, #[trigger] folder.special_use@[i]@);
            assert(folder@.special_use[i] == folder.special_use@[i]@);
            assert(eq_ascii_ci(config.skip_special_use@[j]@, folder@.special_use[i]));
        }
        return false;
    }
    let leaf = to_lowercase(folder_name(folder.display_name.as_str()));
    if in_list(&config.skip_names, leaf.as_str()) {
        return false;
    }
    !config.is_ignored(folder.display_name.as_str()) && !config.is_confidential(folder.display_name.as_str())
}

/// The folders a default classify run should scan: selectable, minus the
/// configured special-use / name / ignore / confidential exclusions, in the
/// order the server listed them.
///
/// Matching uses each folder's decoded `display_name`, so a config entry written
/// in UTF-8 excludes the folder even though IMAP reports it in modified UTF-7.
pub fn discover_scan_folders(config: &FoldersConfig, folders: &[Folder]) -> (r: Vec<Folder>)
    ensures
        folders_view(r@) == folders_view(folders@).filter(|f: FolderView| auto_scanned(*config, f)),
{
    let ghost pred = |f: FolderView| auto_scanned(*config, f);
    let mut out: Vec<Folder> = Vec::new();
    let mut i: usize = 0;
    while i < folders.len()
        invariant
            i <= folders.len(),
            pred == |f: FolderView| auto_scanned(*config, f),
            folders_view(out@) == folders_view(folders@).take(i as int).filter(pred),
        decreases folders.len() - i,
    {
        proof {
            reveal_with_fuel(Seq::<_>::filter, 1);
            assert(folders_view(folders@).take(i + 1).drop_last() =~= folders_view(folders@).take(i as int));
        }
        let ghost before = out@;
        if is_auto_scanned(config, &folders[i]) {
            out.push(folders[i].copy());
            assert(folders_view(out@) =~= folders_view(before).push(folders@[i as int]@));
        }
        i += 1;
    }
    assert(folders_view(folders@).take(folders.len() as int) =~= folders_view(folders@));
    out
}

/// The folder carries the `\Trash` special-use flag (ignoring ASCII case).
pub open spec fn is_trash(f: FolderView) -> bool {
    exists|i: int| 0 <= i < f.special_use.len() && eq_ascii_ci(#[trigger] f.special_use[i], "\\Trash"@)
}

/// The server's `\Trash` mailbox (the first listed folder that advertises the
/// flag), by raw name, if it advertises one.
pub fn find_trash(folders: &[Folder]) -> (r: Option<String>)
    ensures
        match r {
            Some(name) => exists|i: int| 0 <= i < folders.len() && is_trash(#[trigger] folders@[i]@)
                && name@ == folders@[i].name@
                && forall|j: int| 0 <= j < i ==> !is_trash(#[trigger] folders@[j]@),
            None => forall|j: int| 0 <= j < folders.len() ==> !is_trash(#[trigger] folders@[j]@),
        },
{
    let mut i: usize = 0;
    while i < folders.len()
        invariant
            i <= folders.len(),
            forall|j: int| 0 <= j < i ==> !is_trash(#[trigger] folders@[j]@),
        decreases folders.len() - i,
    {
        let flags = &folders[i].special_use;
        let mut k: usize = 0;
        while k < flags.len()
            invariant
                i < folders.len(),
                *flags == folders@[i as int].special_use,
                k <= flags.len(),
                forall|j: int| 0 <= j < i ==> !is_trash(#[trigger] folders@[j]@),
                forall|m: int| 0 <= m < k ==> !eq_ascii_ci(#[trigger] flags@[m]@, "\\Trash"@),
            decreases flags.len() - k,
        {
            if eq_ignore_ascii_case(flags[k].as_str(), "\\Trash") {
                assert(folders@[i as int]@.special_use[k as int] == flags@[k as int]@);
                return Some(folders[i].name.clone());
            }
            k += 1;
        }
        assert forall|m: int| 0 <= m < folders@[i as int]@.special_use.len() implies !eq_ascii_ci(#[trigger] folders@[i as int]@.special_use[m], "\\Trash"@) by {
            assert(folders@[i as int]@.special_use[m] == flags@[m]@);
        }
        i += 1;
    }
    None
}

/// Configured skip names are kept lower-cased, one for one, so a configured
/// name skips (from auto-discovery) every folder whose leaf name matches it up
/// to case.
pub proof fn law_skip_names_fold_case(raw: crate::config::RawFileConfig, config: FileConfig, names: Vec<String>, f: FolderView, i: int)
    requires
        crate::config::normalized(raw, config),
        raw.folders.skip_names == Some(names),
    ensures
        config.folders.skip_names.len() == names.len(),
        forall|j: int| 0 <= j < names.len() ==> (#[trigger] config.folders.skip_names@[j])@ == lowercase(names@[j]@),
        0 <= i < names.len() && lowercase(leaf_name(f.display_name)) == lowercase(names@[i]@)
            ==> !auto_scanned(config.folders, f),
{
    let got = crate::config::texts(config.folders.skip_names@);
    assert(got.len() == config.folders.skip_names.len());
    assert forall|j: int| 0 <= j < names.len() implies (#[trigger] config.folders.skip_names@[j])@ == lowercase(names@[j]@) by {
        assert(got[j] == config.folders.skip_names@[j]@);
    }
    if 0 <= i < names.len() && lowercase(leaf_name(f.display_name)) == lowercase(names@[i]@) {
        assert(config.folders.skip_names@[i]@ == lowercase(leaf_name(f.display_name)));
        assert(skips_name(config.folders, f));
    }
}

/// Each special-use attribute contributes its RFC 6154 flag: a folder listed
/// with `\Sent`, `\Drafts`, `\Trash`, `\Junk`, `\Archive`, `\All` or
/// `\Flagged` carries exactly that flag text.
pub proof fn law_special_use_flags(attrs: Seq<FolderAttribute>, i: int)
    requires
        0 <= i < attrs.len(),
    ensures
        attrs[i] is Sent ==> special_use_of(attrs).contains("\\Sent"@),
        attrs[i] is Drafts ==> special_use_of(attrs).contains("\\Drafts"@),
        attrs[i] is Trash ==> special_use_of(attrs).contains("\\Trash"@),
        attrs[i] is Junk ==> special_use_of(attrs).contains("\\Junk"@),
        attrs[i] is Archive ==> special_use_of(attrs).contains("\\Archive"@),
        attrs[i] is All ==> special_use_of(attrs).contains("\\All"@),
        attrs[i] is Flagged ==> special_use_of(attrs).contains("\\Flagged"@),
    decreases attrs.len(),
{
    let init = attrs.drop_last();
    let rest = special_use_of(init);
    if i < attrs.len() - 1 {
        assert(init[i] == attrs[i]);
        law_special_use_flags(init, i);
        let all = special_use_of(attrs);
        assert(forall|x: Seq<char>| rest.contains(x) ==> all.contains(x)) by {
            assert forall|x: Seq<char>| rest.contains(x) implies all.contains(x) by {
                let k = choose|k: int| 0 <= k < rest.len() && rest[k] == x;
                match attribute_flag(attrs.last()) {
                    Some(g) => {
                        assert(all == rest.push(g));
                        assert(all[k] == x);
                    },
                    None => {},
                }
            }
        }
    } else {
        let all = special_use_of(attrs);
        match attribute_flag(attrs.last()) {
            Some(g) => {
                assert(all == rest.push(g));
                assert(all[rest.len() as int] == g);
            },
            None => {},
        }
    }
}

/// Under the default skip list (no `skipSpecialUse` configured), auto-discovery
/// never scans a folder listed as the Sent, Drafts or Trash folder.
pub proof fn law_default_skips_sent_drafts_trash(
    raw: crate::config::RawFileConfig,
    config: FileConfig,
    attrs: Seq<FolderAttribute>,
    f: FolderView,
    i: int,
)
    requires
        crate::config::normalized(raw, config),
        raw.folders.skip_special_use is None,
        f.special_use == special_use_of(attrs),
        0 <= i < attrs.len(),
        attrs[i] is Sent || attrs[i] is Drafts || attrs[i] is Trash,
    ensures
        !auto_scanned(config.folders, f),
{
    law_special_use_flags(attrs, i);
    let skip = config.folders.skip_special_use@;
    let want = crate::config::texts(skip);
    assert(want == crate::config::default_skip_special_use());
    let j: int = if attrs[i] is Sent { 0 } else if attrs[i] is Drafts { 1 } else { 2 };
    let flag = want[j];
    assert(want.len() == 3);
    assert(skip.len() == 3);
    assert(want[0] == "\\Sent"@ && want[1] == "\\Drafts"@ && want[2] == "\\Trash"@);
    assert(skip[j]@ == flag);
    assert(f.special_use.contains(flag));
    let k = choose|k: int| 0 <= k < f.special_use.len() && f.special_use[k] == flag;
    assert(eq_ascii_ci(skip[j]@, f.special_use[k]));
    assert(skips_special_use(config.folders, f));
}

} // verus!
