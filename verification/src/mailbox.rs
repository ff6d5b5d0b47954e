//! The pure side of the IMAP exchange: which UIDs a fetch asks for, how id
//! lists are written, the SASL XOAUTH2 response, and how a fetched raw message
//! (parsed with `mail_parser`) becomes a [`MailMessage`].

use vstd::prelude::*;

use crate::message::MailMessage;
use crate::numbers::{decimal_chars, decimal_text};
use crate::text::{chars_of, lowercase, owned, string_from_chars, to_lowercase};

verus! {

/// `mail_parser`'s parsed message.
#[verifier::external_type_specification]
#[verifier::external_body]
pub struct ExMessage<'x>(mail_parser::Message<'x>);

/// Whether `mail_parser::MessageParser::parse` reads the raw bytes as a message.
pub uninterp spec fn mail_parses(raw: Seq<u8>) -> bool;

/// The subject that `mail_parser::Message::subject` gives for the message the raw bytes parse to.
pub uninterp spec fn mail_subject(raw: Seq<u8>) -> Option<Seq<char>>;

/// The first sender `mail_parser` finds in the `From` header (`Message::from`,
/// then `Address::first`), as its address and display name.
pub uninterp spec fn mail_first_sender(raw: Seq<u8>) -> Option<(Option<Seq<char>>, Option<Seq<char>>)>;

/// The text of the body part at `pos` as `mail_parser::Message::body_text` renders it.
pub uninterp spec fn mail_body_text(raw: Seq<u8>, pos: nat) -> Option<Seq<char>>;

/// The text of an optional string.
pub open spec fn opt_chars(v: Option<String>) -> Option<Seq<char>> {
    match v {
        Some(s) => Some(s@),
        None => None,
    }
}

/// A raw message together with what `mail_parser` parsed it to. A value is only
/// made by `ParsedMail::parse`, so the parsed message is always that of `raw`.
pub struct ParsedMail {
    raw: Vec<u8>,
    message: mail_parser::Message<'static>,
}

impl ParsedMail {
    /// The raw bytes the message was parsed from.
    pub closed spec fn raw(&self) -> Seq<u8> {
        self.raw@
    }

    /// Parses raw message bytes with `mail_parser::MessageParser::parse` (default
    /// parser), keeping an owned copy. Claimed: a message comes back exactly when
    /// `mail_parses(raw)`, and it keeps `raw`.
    #[verifier::external_body]
    pub fn parse(raw: &[u8]) -> (r: Option<ParsedMail>)
        ensures
            r is Some <==> mail_parses(raw@),
            r matches Some(p) ==> p.raw() == raw@,
    {
        match mail_parser::MessageParser::default().parse(raw) {
            Some(m) => Some(ParsedMail { raw: raw.to_vec(), message: m.into_owned() }),
            None => None,
        }
    }

    /// The subject (`mail_parser::Message::subject`). Claimed: it is `mail_subject` of the raw bytes.
    #[verifier::external_body]
    pub fn subject(&self) -> (r: Option<String>)
        ensures
            opt_chars(r) == mail_subject(self.raw()),
    {
        match self.message.subject() {
            Some(s) => Some(s.to_string()),
            None => None,
        }
    }

    /// The first sender of the `From` header (`mail_parser::Message::from`, then
    /// `Address::first`), as its address and display name. Claimed: it is
    /// `mail_first_sender` of the raw bytes.
    #[verifier::external_body]
    pub fn first_sender(&self) -> (r: Option<(Option<String>, Option<String>)>)
        ensures
            match r {
                Some((a, n)) => mail_first_sender(self.raw()) == Some((opt_chars(a), opt_chars(n))),
                None => mail_first_sender(self.raw()) is None,
            },
    {
        let addr = match self.message.from() {
            Some(a) => a.first(),
            None => None,
        };
        match addr {
            Some(x) => Some((x.address.as_deref().map(String::from), x.name.as_deref().map(String::from))),
            None => None,
        }
    }

    /// The text of the body part at `pos` (`mail_parser::Message::body_text`).
    /// Claimed: it is `mail_body_text` of the raw bytes and `pos`.
    #[verifier::external_body]
    pub fn body_text(&self, pos: usize) -> (r: Option<String>)
        ensures
            opt_chars(r) == mail_body_text(self.raw(), pos as nat),
    {
        match self.message.body_text(pos) {
            Some(t) => Some(t.into_owned()),
            None => None,
        }
    }
}

/// The text of an optional string, or the empty text.
pub open spec fn or_empty(v: Option<Seq<char>>) -> Seq<char> {
    match v {
        Some(s) => s,
        None => Seq::empty(),
    }
}

/// The subject of a raw message, or the empty text.
pub open spec fn subject_of(raw: Seq<u8>) -> Seq<char> {
    if mail_parses(raw) { or_empty(mail_subject(raw)) } else { Seq::empty() }
}

/// The lower-cased sender address and the sender name of a raw message, or
/// empty texts when it has no sender.
pub open spec fn sender_of(raw: Seq<u8>) -> (Seq<char>, Seq<char>) {
    if mail_parses(raw) {
        match mail_first_sender(raw) {
            Some((a, n)) => (lowercase(or_empty(a)), or_empty(n)),
            None => (Seq::empty(), Seq::empty()),
        }
    } else {
        (Seq::empty(), Seq::empty())
    }
}

/// At most the first `n` characters of `s`.
pub open spec fn prefix_chars(s: Seq<char>, n: nat) -> Seq<char> {
    if s.len() <= n { s } else { s.take(n as int) }
}

/// The first `n` characters of the first body text of a raw message, or the empty text.
pub open spec fn preview_of(raw: Seq<u8>, n: nat) -> Seq<char> {
    if mail_parses(raw) { prefix_chars(or_empty(mail_body_text(raw, 0)), n) } else { Seq::empty() }
}

/// At most the first `n` characters of a string.
pub fn take_chars(s: &str, n: usize) -> (r: String)
    ensures
        r@ == prefix_chars(s@, n as nat),
{
    let chars = chars_of(s);
    if chars.len() <= n {
        return string_from_chars(chars.as_slice());
    }
    let head = crate::text::sub_chars(chars.as_slice(), 0, n);
    string_from_chars(head.as_slice())
}

/// The decimal text of a number.
pub fn decimal_string(n: u32) -> (r: String)
    ensures
        r@ == decimal_text(n as nat),
{
    let digits = decimal_chars(n as u128);
    string_from_chars(digits.as_slice())
}

/// A fetched message as the rules see it. The id is the UID (or, when the server
/// sent none, the sequence number); subject, sender and a body preview of at
/// most `body_preview_chars` characters come from the raw bytes, each empty when
/// absent; the age and read state are passed on as given.
pub fn to_message(
    uid: Option<u32>,
    seq: u32,
    raw: &[u8],
    folder: &str,
    body_preview_chars: usize,
    age_seconds: i64,
    is_read: bool,
) -> (r: MailMessage)
    ensures
        r.id@ == decimal_text(match uid { Some(u) => u as nat, None => seq as nat }),
        r.folder@ == folder@,
        r.subject@ == subject_of(raw@),
        (r.from_address@, r.from_name@) == sender_of(raw@),
        r.body_preview@ == preview_of(raw@, body_preview_chars as nat),
        r.age_seconds == age_seconds,
        r.is_read == is_read,
{
    let id = match uid {
        Some(u) => decimal_string(u),
        None => decimal_string(seq),
    };
    let mut subject = String::new();
    let mut from_address = String::new();
    let mut from_name = String::new();
    let mut body_preview = String::new();
    match ParsedMail::parse(raw) {
        Some(parsed) => {
            match parsed.subject() {
                Some(s) => {
                    subject = s;
                },
                None => {},
            }
            match parsed.first_sender() {
                Some((address, name)) => {
                    let address = match address {
                        Some(a) => a,
                        None => String::new(),
                    };
                    from_address = to_lowercase(address.as_str());
                    match name {
                        Some(n) => {
                            from_name = n;
                        },
                        None => {},
                    }
                },
                None => {},
            }
            match parsed.body_text(0) {
                Some(text) => {
                    body_preview = take_chars(text.as_str(), body_preview_chars);
                },
                None => {},
            }
        },
        None => {},
    }
    MailMessage {
        id,
        folder: owned(folder),
        subject,
        from_address,
        from_name,
        body_preview,
        age_seconds,
        is_read,
    }
}

/// The UIDs are in ascending order.
pub open spec fn ascending(s: Seq<u32>) -> bool {
    forall|i: int, j: int| 0 <= i <= j < s.len() ==> s[i] <= s[j]
}

/// Sorts UIDs by insertion: the result holds the same UIDs in ascending order.
fn sort_ascending(v: Vec<u32>) -> (r: Vec<u32>)
    ensures
        r@.to_multiset() == v@.to_multiset(),
        ascending(r@),
{
    let mut out: Vec<u32> = Vec::new();
    let mut i: usize = 0;
    proof {
        assert(v@.take(0) =~= Seq::<u32>::empty());
    }
    while i < v.len()
        invariant
            i <= v.len(),
            ascending(out@),
            out@.to_multiset() == v@.take(i as int).to_multiset(),
        decreases v.len() - i,
    {
        let x = v[i];
        let mut pos: usize = 0;
        while pos < out.len() && out[pos] <= x
            invariant
                pos <= out.len(),
                forall|j: int| 0 <= j < pos ==> out@[j] <= x,
            decreases out.len() - pos,
        {
            pos += 1;
        }
        let ghost before = out@;
        out.insert(pos, x);
        proof {
            assert(out@ == before.insert(pos as int, x));
            assert(v@.take(i + 1) =~= v@.take(i as int).push(x));
            vstd::seq_lib::to_multiset_insert(before, pos as int, x);
            vstd::seq_lib::to_multiset_build(v@.take(i as int), x);
            assert forall|a: int, b: int| 0 <= a <= b < out@.len() implies out@[a] <= out@[b] by {
                if b < pos {
                } else if b == pos {
                    if a < pos {
                        assert(before[a] <= x);
                    }
                } else if a < pos {
                    assert(before[a] <= x);
                    assert(x < before[pos as int]);
                    assert(before[pos as int] <= before[b - 1]);
                } else if a == pos {
                    assert(x < before[pos as int]);
                    assert(before[pos as int] <= before[b - 1]);
                } else {
                    assert(before[a - 1] <= before[b - 1]);
                }
            }
        }
        i += 1;
    }
    proof {
        assert(v@.take(v.len() as int) =~= v@);
    }
    out
}

/// The smaller of two numbers.
pub open spec fn min_nat(a: nat, b: nat) -> nat {
    if a <= b { a } else { b }
}

/// The newest (largest) `limit` UIDs of an unread search, newest first: the
/// UIDs sorted ascending, reversed, and cut to `limit`.
pub fn newest_uids(unseen: Vec<u32>, limit: usize) -> (r: Vec<u32>)
    ensures
        exists|s: Seq<u32>| ascending(s) && s.to_multiset() == unseen@.to_multiset()
            && r@ == s.reverse().take(min_nat(limit as nat, s.len()) as int),
{
    let sorted = sort_ascending(unseen);
    let n = sorted.len();
    let m = if limit < n { limit } else { n };
    let mut out: Vec<u32> = Vec::new();
    let mut k: usize = 0;
    while k < m
        invariant
            n == sorted.len(),
            m <= n,
            k <= m,
            out@ == sorted@.reverse().take(k as int),
        decreases m - k,
    {
        out.push(sorted[n - 1 - k]);
        assert(sorted@.reverse().take(k + 1) =~= sorted@.reverse().take(k as int).push(sorted@[n - 1 - k]));
        k += 1;
    }
    assert(m as nat == min_nat(limit as nat, sorted@.len()));
    out
}

/// Texts joined with a separator between each two of them.
pub open spec fn joined(items: Seq<Seq<char>>, sep: char) -> Seq<char>
    decreases items.len(),
{
    if items.len() == 0 {
        Seq::empty()
    } else if items.len() == 1 {
        items[0]
    } else {
        joined(items.drop_last(), sep).push(sep) + items.last()
    }
}

/// Texts joined with commas (`a,b,c`).
fn join_commas(items: &Vec<String>) -> (r: String)
    ensures
        r@ == joined(crate::config::texts(items@), ','),
{
    let ghost t = crate::config::texts(items@);
    let mut out: Vec<char> = Vec::new();
    let mut i: usize = 0;
    while i < items.len()
        invariant
            i <= items.len(),
            t == crate::config::texts(items@),
            out@ == joined(t.take(i as int), ','),
        decreases items.len() - i,
    {
        assert(t.take(i + 1).drop_last() =~= t.take(i as int));
        assert(t.take(i + 1).last() == items@[i as int]@);
        if i > 0 {
            out.push(',');
        }
        let part = chars_of(items[i].as_str());
        out = crate::text::concat_chars(out.as_slice(), part.as_slice());
        if i == 0 {
            assert(t.take(1)[0] == items@[0]@);
        }
        i += 1;
    }
    assert(t.take(items.len() as int) =~= t);
    string_from_chars(out.as_slice())
}

/// A UID set for a fetch (`3,2,1`).
pub fn uid_set(uids: &[u32]) -> (r: String)
    ensures
        r@ == joined(uids@.map_values(|u: u32| decimal_text(u as nat)), ','),
{
    let mut texts: Vec<String> = Vec::new();
    let mut i: usize = 0;
    while i < uids.len()
        invariant
            i <= uids.len(),
            crate::config::texts(texts@) == uids@.take(i as int).map_values(|u: u32| decimal_text(u as nat)),
        decreases uids.len() - i,
    {
        let ghost before = texts@;
        texts.push(decimal_string(uids[i]));
        assert(crate::config::texts(texts@) =~= crate::config::texts(before).push(decimal_text(uids@[i as int] as nat)));
        assert(uids@.take(i + 1).map_values(|u: u32| decimal_text(u as nat)) =~= uids@.take(i as int).map_values(|u: u32| decimal_text(u as nat)).push(decimal_text(uids@[i as int] as nat)));
        i += 1;
    }
    assert(uids@.take(uids.len() as int) =~= uids@);
    join_commas(&texts)
}

/// A list of UIDs to store flags on or move (`7,9,12`).
pub fn id_list(ids: &Vec<String>) -> (r: String)
    ensures
        r@ == joined(crate::config::texts(ids@), ','),
{
    join_commas(ids)
}

/// The first sequence number of the newest `limit` messages of a mailbox that
/// holds `exists` messages.
pub open spec fn recent_start(exists: nat, limit: nat) -> nat {
    if limit >= exists { 1 } else { (exists - limit + 1) as nat }
}

/// The sequence range of the newest `limit` messages of a mailbox holding
/// `exists` messages, as its first and last number and the count (the smaller
/// of the two): `None` for an empty mailbox or a zero limit.
pub fn recent_range(exists: u32, limit: usize) -> (r: Option<(u32, u32, usize)>)
    ensures
        match r {
            None => exists == 0 || limit == 0,
            Some((start, end, total)) => exists > 0 && limit > 0 && end == exists
                && start == recent_start(exists as nat, limit as nat)
                && 1 <= start <= end && total == end - start + 1
                && total == if limit < exists { limit as int } else { exists as int },
        },
{
    if exists == 0 || limit == 0 {
        return None;
    }
    let wide: u64 = limit as u64;
    let start: u32 = if wide >= exists as u64 { 1 } else { exists - (wide as u32) + 1 };
    let total: usize = (exists - start + 1) as usize;
    Some((start, exists, total))
}

/// The sequence set of a range (`start:end`).
pub fn range_set(start: u32, end: u32) -> (r: String)
    ensures
        r@ == decimal_text(start as nat).push(':') + decimal_text(end as nat),
{
    let mut a = decimal_chars(start as u128);
    a.push(':');
    let b = decimal_chars(end as u128);
    let all = crate::text::concat_chars(a.as_slice(), b.as_slice());
    string_from_chars(all.as_slice())
}

/// The SASL XOAUTH2 initial response for a user and an access token.
pub open spec fn xoauth2_text(user: Seq<char>, token: Seq<char>) -> Seq<char> {
    seq!['u', 's', 'e', 'r', '='] + user + seq!['\x01'] + seq!['a', 'u', 't', 'h', '=', 'B', 'e', 'a', 'r', 'e', 'r', ' '] + token
        + seq!['\x01', '\x01']
}

/// The SASL XOAUTH2 response: `user=<user>^Aauth=Bearer <token>^A^A`.
pub fn xoauth2_response(user: &str, access_token: &str) -> (r: String)
    ensures
        r@ == xoauth2_text(user@, access_token@),
{
    let mut out: Vec<char> = Vec::new();
    out.push('u');
    out.push('s');
    out.push('e');
    out.push('r');
    out.push('=');
    let u = chars_of(user);
    out = crate::text::concat_chars(out.as_slice(), u.as_slice());
    out.push('\x01');
    let mut auth: Vec<char> = Vec::new();
    auth.push('a');
    auth.push('u');
    auth.push('t');
    auth.push('h');
    auth.push('=');
    auth.push('B');
    auth.push('e');
    auth.push('a');
    auth.push('r');
    auth.push('e');
    auth.push('r');
    auth.push(' ');
    out = crate::text::concat_chars(out.as_slice(), auth.as_slice());
    let t = chars_of(access_token);
    out = crate::text::concat_chars(out.as_slice(), t.as_slice());
    out.push('\x01');
    out.push('\x01');
    assert(out@ =~= xoauth2_text(user@, access_token@));
    string_from_chars(out.as_slice())
}

} // verus!
