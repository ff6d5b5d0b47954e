//! The declarative condition language. A condition is either a leaf test or a
//! combinator; conditions compile once into a [`Predicate`] (regexes and refs
//! resolved up front) so per-message evaluation is cheap.
//!
//! ```yaml
//! when:
//!   all:
//!     - { field: folder, op: equals, value: Junk }
//!     - { field: subject, op: regex, ref: patterns.spamSubject }
//! ```

use vstd::prelude::*;

use super::{ErrModel, RuleError};
use super::data::{RefModel, RefValue, RefsModel, RulesData, describe, value_description};
use crate::message::{MailMessage, folder_name, leaf_name};
use crate::numbers::{Num, age_exceeds, age_reaches, exceeds, hours_string, hours_text, parse_hours_number, parse_hours_text, reaches, seconds_ns, yaml_number_hours, yaml_number_value};
use crate::pattern::{Pattern, ci_regex_compiles, ci_regex_matches};
use crate::yaml::{Yaml, YamlValue, items_view, lemma_items_view};
use crate::text::{chars_of, concat_chars, contains, ends_with, is_suffix_of, lowercase, occurs_in, owned, str_equal, string_from_chars, to_lowercase};

verus! {

/// Message fields the language can test.
#[derive(Debug, Clone, Copy, PartialEq, Eq, Structural)]
pub enum Field {
    Subject,
    FromAddress,
    FromName,
    /// subject + body preview, for rules that look at content.
    Content,
    /// the LEAF folder name, so `GitHub` matches `Archive/GitHub`.
    Folder,
    /// whole-message age.
    Age,
}

/// Comparison operators. Text ops are case-insensitive except `Equals` (exact).
#[derive(Debug, Clone, Copy, PartialEq, Eq, Structural)]
pub enum Op {
    Regex,
    Includes,
    EndsWith,
    EndsWithAny,
    Equals,
    Gt,
    Gte,
}

/// The name of a field, as errors spell it.
pub open spec fn field_label(f: Field) -> Seq<char> {
    match f {
        Field::Subject => "Subject"@,
        Field::FromAddress => "FromAddress"@,
        Field::FromName => "FromName"@,
        Field::Content => "Content"@,
        Field::Folder => "Folder"@,
        Field::Age => "Age"@,
    }
}

/// The name of an operator, as errors spell it.
pub open spec fn op_label(op: Op) -> Seq<char> {
    match op {
        Op::Regex => "Regex"@,
        Op::Includes => "Includes"@,
        Op::EndsWith => "EndsWith"@,
        Op::EndsWithAny => "EndsWithAny"@,
        Op::Equals => "Equals"@,
        Op::Gt => "Gt"@,
        Op::Gte => "Gte"@,
    }
}

/// The name of a field.
pub fn field_name(f: Field) -> (r: String)
    ensures
        r@ == field_label(f),
{
    match f {
        Field::Subject => owned("Subject"),
        Field::FromAddress => owned("FromAddress"),
        Field::FromName => owned("FromName"),
        Field::Content => owned("Content"),
        Field::Folder => owned("Folder"),
        Field::Age => owned("Age"),
    }
}

/// The name of an operator.
pub fn op_name(op: Op) -> (r: String)
    ensures
        r@ == op_label(op),
{
    match op {
        Op::Regex => owned("Regex"),
        Op::Includes => owned("Includes"),
        Op::EndsWith => owned("EndsWith"),
        Op::EndsWithAny => owned("EndsWithAny"),
        Op::Equals => owned("Equals"),
        Op::Gt => owned("Gt"),
        Op::Gte => owned("Gte"),
    }
}

/// The text of a field of a message. `Content` is the subject, a space and the
/// body preview; `Folder` is the leaf folder name; `Age` has no text.
pub open spec fn field_text(m: MailMessage, f: Field) -> Seq<char> {
    match f {
        Field::Subject => m.subject@,
        Field::FromAddress => m.from_address@,
        Field::FromName => m.from_name@,
        Field::Content => m.subject@ + seq![' '] + m.body_preview@,
        Field::Folder => leaf_name(m.folder@),
        Field::Age => Seq::empty(),
    }
}

/// The text of a field of a message (see `field_text`).
pub fn string_value(m: &MailMessage, f: Field) -> (r: String)
    ensures
        r@ == field_text(*m, f),
{
    match f {
        Field::Subject => m.subject.clone(),
        Field::FromAddress => m.from_address.clone(),
        Field::FromName => m.from_name.clone(),
        Field::Content => {
            let subject = chars_of(m.subject.as_str());
            let body = chars_of(m.body_preview.as_str());
            let mut with_space = subject;
            with_space.push(' ');
            let all = concat_chars(with_space.as_slice(), body.as_slice());
            string_from_chars(all.as_slice())
        },
        Field::Folder => owned(folder_name(m.folder.as_str())),
        Field::Age => String::new(),
    }
}

/// The model of a compiled condition.
pub enum PredModel {
    All(Seq<PredModel>),
    Any(Seq<PredModel>),
    Not(Box<PredModel>),
    /// the field's text is exactly the target.
    Equals(Field, Seq<char>),
    /// the lower-cased needle occurs in the lower-cased field text.
    Includes(Field, Seq<char>),
    /// the lower-cased field text ends with the lower-cased suffix.
    EndsWith(Field, Seq<char>),
    /// the lower-cased field text ends with one of the lower-cased suffixes.
    EndsWithAny(Field, Seq<Seq<char>>),
    /// the case-insensitive pattern with this source matches the field text.
    Matches(Field, Seq<char>),
    /// the message is older than the threshold.
    Above(Num),
    /// the message is at least as old as the threshold.
    AtLeast(Num),
}

/// `text` ends with one of the suffixes.
pub open spec fn ends_with_one_of(suffixes: Seq<Seq<char>>, text: Seq<char>) -> bool {
    exists|i: int| 0 <= i < suffixes.len() && is_suffix_of(#[trigger] suffixes[i], text)
}

/// Whether a compiled condition holds of a message.
pub open spec fn holds(p: PredModel, m: MailMessage) -> bool
    decreases p, 0int,
{
    match p {
        PredModel::All(ps) => {
            proof {
                assert(decreases_to!(p => p->All_0));
            }
            all_hold(ps, m)
        },
        PredModel::Any(ps) => {
            proof {
                assert(decreases_to!(p => p->Any_0));
            }
            any_holds(ps, m)
        },
        PredModel::Not(q) => !holds(*q, m),
        PredModel::Equals(f, t) => field_text(m, f) == t,
        PredModel::Includes(f, n) => occurs_in(n, lowercase(field_text(m, f))),
        PredModel::EndsWith(f, s) => is_suffix_of(s, lowercase(field_text(m, f))),
        PredModel::EndsWithAny(f, ss) => ends_with_one_of(ss, lowercase(field_text(m, f))),
        PredModel::Matches(f, src) => ci_regex_matches(src, field_text(m, f)),
        PredModel::Above(t) => exceeds(seconds_ns(m.age_seconds as int), t),
        PredModel::AtLeast(t) => reaches(seconds_ns(m.age_seconds as int), t),
    }
}

/// Every condition of the list holds.
pub open spec fn all_hold(ps: Seq<PredModel>, m: MailMessage) -> bool
    decreases ps, 0int,
{
    if ps.len() == 0 {
        true
    } else {
        proof {
            assert(decreases_to!(ps => ps[ps.len() - 1]));
        }
        all_hold(ps.drop_last(), m) && holds(ps[ps.len() - 1], m)
    }
}

/// Some condition of the list holds.
pub open spec fn any_holds(ps: Seq<PredModel>, m: MailMessage) -> bool
    decreases ps, 0int,
{
    if ps.len() == 0 {
        false
    } else {
        proof {
            assert(decreases_to!(ps => ps[ps.len() - 1]));
        }
        any_holds(ps.drop_last(), m) || holds(ps[ps.len() - 1], m)
    }
}

pub proof fn lemma_all_hold(ps: Seq<PredModel>, m: MailMessage)
    ensures
        all_hold(ps, m) <==> forall|i: int| 0 <= i < ps.len() ==> holds(#[trigger] ps[i], m),
    decreases ps.len(),
{
    if ps.len() > 0 {
        lemma_all_hold(ps.drop_last(), m);
        assert forall|i: int| 0 <= i < ps.len() - 1 implies #[trigger] ps.drop_last()[i] == ps[i] by {}
        if all_hold(ps, m) {
            assert forall|i: int| 0 <= i < ps.len() implies holds(#[trigger] ps[i], m) by {
                if i < ps.len() - 1 {
                    assert(holds(ps.drop_last()[i], m));
                }
            }
        }
        if forall|i: int| 0 <= i < ps.len() ==> holds(#[trigger] ps[i], m) {
            assert forall|i: int| 0 <= i < ps.len() - 1 implies holds(#[trigger] ps.drop_last()[i], m) by {
                assert(holds(ps[i], m));
            }
            assert(holds(ps[ps.len() - 1], m));
        }
    }
}

pub proof fn lemma_any_holds(ps: Seq<PredModel>, m: MailMessage)
    ensures
        any_holds(ps, m) <==> exists|i: int| 0 <= i < ps.len() && holds(#[trigger] ps[i], m),
    decreases ps.len(),
{
    if ps.len() > 0 {
        lemma_any_holds(ps.drop_last(), m);
        assert forall|i: int| 0 <= i < ps.len() - 1 implies #[trigger] ps.drop_last()[i] == ps[i] by {}
        if any_holds(ps.drop_last(), m) {
            let i = choose|i: int| 0 <= i < ps.drop_last().len() && holds(#[trigger] ps.drop_last()[i], m);
            assert(holds(ps[i], m));
        }
        if exists|i: int| 0 <= i < ps.len() && holds(#[trigger] ps[i], m) {
            let i = choose|i: int| 0 <= i < ps.len() && holds(#[trigger] ps[i], m);
            if i < ps.len() - 1 {
                assert(holds(ps.drop_last()[i], m));
            }
        }
    }
}

/// A compiled, ready-to-evaluate condition.
pub enum Predicate {
    All(Vec<Predicate>),
    Any(Vec<Predicate>),
    Not(Box<Predicate>),
    Equals(Field, String),
    Includes(Field, String),
    EndsWith(Field, String),
    EndsWithAny(Field, Vec<String>),
    Matches(Field, Pattern),
    Above(Num),
    AtLeast(Num),
}

/// The model of a compiled condition.
pub open spec fn pred_view(p: &Predicate) -> PredModel
    decreases p, 0int,
{
    match p {
        Predicate::All(subs) => {
            proof {
                assert(decreases_to!(*p => p->All_0));
                assert(decreases_to!(p->All_0 => p->All_0@));
            }
            PredModel::All(preds_view(subs@))
        },
        Predicate::Any(subs) => {
            proof {
                assert(decreases_to!(*p => p->Any_0));
                assert(decreases_to!(p->Any_0 => p->Any_0@));
            }
            PredModel::Any(preds_view(subs@))
        },
        Predicate::Not(q) => PredModel::Not(Box::new(pred_view(q))),
        Predicate::Equals(f, t) => PredModel::Equals(*f, t@),
        Predicate::Includes(f, n) => PredModel::Includes(*f, n@),
        Predicate::EndsWith(f, s) => PredModel::EndsWith(*f, s@),
        Predicate::EndsWithAny(f, ss) => PredModel::EndsWithAny(*f, crate::config::texts(ss@)),
        Predicate::Matches(f, pat) => PredModel::Matches(*f, pat.source()),
        Predicate::Above(t) => PredModel::Above(*t),
        Predicate::AtLeast(t) => PredModel::AtLeast(*t),
    }
}

/// The models of a list of compiled conditions.
pub open spec fn preds_view(ps: Seq<Predicate>) -> Seq<PredModel>
    decreases ps, 0int,
{
    if ps.len() == 0 {
        Seq::empty()
    } else {
        proof {
            assert(decreases_to!(ps => ps[ps.len() - 1]));
        }
        preds_view(ps.drop_last()).push(pred_view(&ps[ps.len() - 1]))
    }
}

pub proof fn lemma_preds_view(ps: Seq<Predicate>)
    ensures
        preds_view(ps).len() == ps.len(),
        forall|i: int| 0 <= i < ps.len() ==> #[trigger] preds_view(ps)[i] == pred_view(&ps[i]),
    decreases ps.len(),
{
    if ps.len() > 0 {
        lemma_preds_view(ps.drop_last());
    }
}

impl View for Predicate {
    type V = PredModel;

    open spec fn view(&self) -> PredModel {
        pred_view(self)
    }
}

/// Whether the lower-cased text ends with one of the suffixes.
fn ends_with_any(text: &[char], suffixes: &Vec<String>) -> (r: bool)
    ensures
        r == ends_with_one_of(crate::config::texts(suffixes@), text@),
{
    let ghost ss = crate::config::texts(suffixes@);
    let mut i: usize = 0;
    while i < suffixes.len()
        invariant
            i <= suffixes.len(),
            ss == crate::config::texts(suffixes@),
            forall|j: int| 0 <= j < i ==> !is_suffix_of(#[trigger] ss[j], text@),
        decreases suffixes.len() - i,
    {
        let s = chars_of(suffixes[i].as_str());
        if ends_with(text, s.as_slice()) {
            assert(is_suffix_of(ss[i as int], text@));
            return true;
        }
        i += 1;
    }
    false
}

impl Predicate {
    /// Evaluates the condition against a message.
    pub fn eval(&self, m: &MailMessage) -> (r: bool)
        ensures
            r == holds(self@, *m),
        decreases self,
    {
        match self {
            Predicate::All(subs) => {
                proof {
                    lemma_preds_view(subs@);
                    lemma_all_hold(preds_view(subs@), *m);
                }
                let mut i: usize = 0;
                while i < subs.len()
                    invariant
                        i <= subs.len(),
                        *self == Predicate::All(*subs),
                        preds_view(subs@).len() == subs@.len(),
                        forall|j: int| 0 <= j < subs@.len() ==> #[trigger] preds_view(subs@)[j] == pred_view(&subs@[j]),
                        forall|j: int| 0 <= j < i ==> holds(#[trigger] preds_view(subs@)[j], *m),
                    decreases subs.len() - i,
                {
                    proof {
                        assert(decreases_to!(*self => self->All_0));
                        assert(decreases_to!(*subs => subs@));
                        assert(decreases_to!(subs@ => subs@[i as int]));
                    }
                    if !subs[i].eval(m) {
                        proof {
                            assert(!holds(preds_view(subs@)[i as int], *m));
                            lemma_all_hold(preds_view(subs@), *m);
                            assert(self@ == PredModel::All(preds_view(subs@)));
                        }
                        return false;
                    }
                    i += 1;
                }
                proof {
                    lemma_all_hold(preds_view(subs@), *m);
                    assert(self@ == PredModel::All(preds_view(subs@)));
                }
                true
            },
            Predicate::Any(subs) => {
                proof {
                    lemma_preds_view(subs@);
                    lemma_any_holds(preds_view(subs@), *m);
                }
                let mut i: usize = 0;
                while i < subs.len()
                    invariant
                        i <= subs.len(),
                        *self == Predicate::Any(*subs),
                        preds_view(subs@).len() == subs@.len(),
                        forall|j: int| 0 <= j < subs@.len() ==> #[trigger] preds_view(subs@)[j] == pred_view(&subs@[j]),
                        forall|j: int| 0 <= j < i ==> !holds(#[trigger] preds_view(subs@)[j], *m),
                    decreases subs.len() - i,
                {
                    proof {
                        assert(decreases_to!(*self => self->Any_0));
                        assert(decreases_to!(*subs => subs@));
                        assert(decreases_to!(subs@ => subs@[i as int]));
                    }
                    if subs[i].eval(m) {
                        proof {
                            assert(holds(preds_view(subs@)[i as int], *m));
                            lemma_any_holds(preds_view(subs@), *m);
                            assert(self@ == PredModel::Any(preds_view(subs@)));
                        }
                        return true;
                    }
                    i += 1;
                }
                proof {
                    lemma_any_holds(preds_view(subs@), *m);
                    assert(self@ == PredModel::Any(preds_view(subs@)));
                }
                false
            },
            Predicate::Not(q) => !q.eval(m),
            Predicate::Equals(f, target) => {
                let text = string_value(m, *f);
                str_equal(text.as_str(), target.as_str())
            },
            Predicate::Includes(f, needle) => {
                let text = string_value(m, *f);
                let lower = to_lowercase(text.as_str());
                let hay = chars_of(lower.as_str());
                let n = chars_of(needle.as_str());
                contains(hay.as_slice(), n.as_slice())
            },
            Predicate::EndsWith(f, suffix) => {
                let text = string_value(m, *f);
                let lower = to_lowercase(text.as_str());
                let hay = chars_of(lower.as_str());
                let s = chars_of(suffix.as_str());
                ends_with(hay.as_slice(), s.as_slice())
            },
            Predicate::EndsWithAny(f, suffixes) => {
                let text = string_value(m, *f);
                let lower = to_lowercase(text.as_str());
                let hay = chars_of(lower.as_str());
                ends_with_any(hay.as_slice(), suffixes)
            },
            Predicate::Matches(f, pattern) => {
                let text = string_value(m, *f);
                pattern.is_match(text.as_str())
            },
            Predicate::Above(t) => age_exceeds(m.age_seconds, *t),
            Predicate::AtLeast(t) => age_reaches(m.age_seconds, *t),
        }
    }
}

/// A single leaf test: `{ field, op, value }` or `{ field, op, ref }`.
#[derive(Debug)]
pub struct LeafCondition {
    pub field: Field,
    pub op: Op,
    pub value: Option<YamlValue>,
    pub reference: Option<String>,
}

/// A condition node: a leaf or a combinator.
#[derive(Debug)]
pub enum Condition {
    All { all: Vec<Condition> },
    Any { any: Vec<Condition> },
    Not { not: Box<Condition> },
    Leaf(LeafCondition),
}

/// The model of a condition: a leaf is its field, op, literal value and ref path.
pub enum Cond {
    All(Seq<Cond>),
    Any(Seq<Cond>),
    Not(Box<Cond>),
    Leaf(Field, Op, Option<Yaml>, Option<Seq<char>>),
}

/// The model of an optional YAML value.
pub open spec fn opt_yaml(v: Option<YamlValue>) -> Option<Yaml> {
    match v {
        Some(x) => Some(x@),
        None => None,
    }
}

/// The model of an optional string.
pub open spec fn opt_text(v: Option<String>) -> Option<Seq<char>> {
    match v {
        Some(x) => Some(x@),
        None => None,
    }
}

/// The model of a condition.
pub open spec fn cond_view(c: &Condition) -> Cond
    decreases c, 0int,
{
    match c {
        Condition::All { all } => {
            proof {
                assert(decreases_to!(*c => c->all));
                assert(decreases_to!(c->all => c->all@));
            }
            Cond::All(conds_view(all@))
        },
        Condition::Any { any } => {
            proof {
                assert(decreases_to!(*c => c->any));
                assert(decreases_to!(c->any => c->any@));
            }
            Cond::Any(conds_view(any@))
        },
        Condition::Not { not } => Cond::Not(Box::new(cond_view(not))),
        Condition::Leaf(l) => Cond::Leaf(l.field, l.op, opt_yaml(l.value), opt_text(l.reference)),
    }
}

/// The models of a list of conditions.
pub open spec fn conds_view(cs: Seq<Condition>) -> Seq<Cond>
    decreases cs, 0int,
{
    if cs.len() == 0 {
        Seq::empty()
    } else {
        proof {
            assert(decreases_to!(cs => cs[cs.len() - 1]));
        }
        conds_view(cs.drop_last()).push(cond_view(&cs[cs.len() - 1]))
    }
}

pub proof fn lemma_conds_view(cs: Seq<Condition>)
    ensures
        conds_view(cs).len() == cs.len(),
        forall|i: int| 0 <= i < cs.len() ==> #[trigger] conds_view(cs)[i] == cond_view(&cs[i]),
    decreases cs.len(),
{
    if cs.len() > 0 {
        lemma_conds_view(cs.drop_last());
    }
}

impl View for Condition {
    type V = Cond;

    open spec fn view(&self) -> Cond {
        cond_view(self)
    }
}

/// The model of a leaf's operand.
pub enum OperandModel {
    Text(Seq<char>),
    Num(Num),
    List(Seq<Seq<char>>),
    Pattern(Seq<char>),
}

/// The literal (`value`) or resolved (`ref`) operand of a leaf.
pub enum Operand {
    Text(String),
    Num(Num),
    List(Vec<String>),
    Pattern(Pattern),
}

impl View for Operand {
    type V = OperandModel;

    open spec fn view(&self) -> OperandModel {
        match self {
            Operand::Text(s) => OperandModel::Text(s@),
            Operand::Num(n) => OperandModel::Num(*n),
            Operand::List(l) => OperandModel::List(crate::config::texts(l@)),
            Operand::Pattern(p) => OperandModel::Pattern(p.source()),
        }
    }
}

/// `true` or `false`.
pub open spec fn bool_text(b: bool) -> Seq<char> {
    if b { "true"@ } else { "false"@ }
}

/// The text of a scalar list item (a string, a number's text, or a boolean).
pub open spec fn item_text(v: Yaml) -> Option<Seq<char>> {
    match v {
        Yaml::Text(s) => Some(s),
        Yaml::Number(n) => Some(n),
        Yaml::Bool(b) => Some(bool_text(b)),
        _ => None,
    }
}

/// The texts of the scalar items of a list, in order (other items are dropped).
pub open spec fn scalar_texts(items: Seq<Yaml>) -> Seq<Seq<char>>
    decreases items.len(),
{
    if items.len() == 0 {
        Seq::empty()
    } else {
        let rest = scalar_texts(items.drop_last());
        match item_text(items.last()) {
            Some(t) => rest.push(t),
            None => rest,
        }
    }
}

/// The operand a literal `value` gives: strings and booleans are text, numbers
/// are hours, lists keep their scalar items; anything else is refused.
pub open spec fn value_operand(v: Yaml) -> Result<OperandModel, ErrModel> {
    match v {
        Yaml::Text(s) => Ok(OperandModel::Text(s)),
        Yaml::Bool(b) => Ok(OperandModel::Text(bool_text(b))),
        Yaml::Number(n) => Ok(OperandModel::Num(yaml_number_hours(n))),
        Yaml::Sequence(items) => Ok(OperandModel::List(scalar_texts(items))),
        _ => Err(ErrModel::OperandType("value"@, "a scalar or list (got "@ + value_description(v) + ")"@)),
    }
}

/// The operand of a leaf: its `ref` resolved against the data, else its
/// literal `value`; a leaf with neither is refused.
pub open spec fn operand_model(
    f: Field,
    op: Op,
    value: Option<Yaml>,
    reference: Option<Seq<char>>,
    d: RefsModel,
) -> Result<OperandModel, ErrModel> {
    match reference {
        Some(path) => match d.resolved(path) {
            Some(RefModel::List(l)) => Ok(OperandModel::List(l)),
            Some(RefModel::Pattern(s)) => Ok(OperandModel::Pattern(s)),
            Some(RefModel::Threshold(n)) => Ok(OperandModel::Num(n)),
            None => Err(ErrModel::UnknownRef(path)),
        },
        None => match value {
            Some(v) => value_operand(v),
            None => Err(ErrModel::MissingOperand(field_label(f), op_label(op))),
        },
    }
}

/// An operand used as text (a number is rendered as hours).
pub open spec fn as_text(op: Op, o: OperandModel) -> Result<Seq<char>, ErrModel> {
    match o {
        OperandModel::Text(s) => Ok(s),
        OperandModel::Num(n) => Ok(hours_text(n)),
        _ => Err(ErrModel::OperandType(op_label(op), "a text"@)),
    }
}

/// An operand used as a number (a text is read as hours).
pub open spec fn as_num(op: Op, o: OperandModel) -> Result<Num, ErrModel> {
    match o {
        OperandModel::Num(n) => Ok(n),
        OperandModel::Text(s) => match parse_hours_text(s) {
            Some(n) => Ok(n),
            None => Err(ErrModel::OperandType(op_label(op), "a numeric"@)),
        },
        _ => Err(ErrModel::OperandType(op_label(op), "a numeric"@)),
    }
}

/// The lower-cased form of each text.
pub open spec fn lowercase_all(l: Seq<Seq<char>>) -> Seq<Seq<char>> {
    l.map_values(|s: Seq<char>| lowercase(s))
}

/// The error for an op used on the wrong kind of field.
pub open spec fn wrong_field(op: Op, expected: Seq<char>, f: Field) -> ErrModel {
    ErrModel::WrongField(op_label(op), expected, field_label(f))
}

/// The compiled test of a leaf, given its operand. Text ops refuse the `Age`
/// field and the ordering ops refuse every other field.
pub open spec fn leaf_model(f: Field, op: Op, o: OperandModel) -> Result<PredModel, ErrModel> {
    match op {
        Op::Equals => if f == Field::Age {
            Err(wrong_field(op, "a text"@, f))
        } else {
            match as_text(op, o) {
                Ok(t) => Ok(PredModel::Equals(f, t)),
                Err(e) => Err(e),
            }
        },
        Op::Includes => if f == Field::Age {
            Err(wrong_field(op, "a text"@, f))
        } else {
            match as_text(op, o) {
                Ok(t) => Ok(PredModel::Includes(f, lowercase(t))),
                Err(e) => Err(e),
            }
        },
        Op::EndsWith => if f == Field::Age {
            Err(wrong_field(op, "a text"@, f))
        } else {
            match as_text(op, o) {
                Ok(t) => Ok(PredModel::EndsWith(f, lowercase(t))),
                Err(e) => Err(e),
            }
        },
        Op::EndsWithAny => if f == Field::Age {
            Err(wrong_field(op, "a text"@, f))
        } else {
            match o {
                OperandModel::List(l) => Ok(PredModel::EndsWithAny(f, lowercase_all(l))),
                _ => Err(ErrModel::OperandType(op_label(op), "a list"@)),
            }
        },
        Op::Regex => if f == Field::Age {
            Err(wrong_field(op, "a text"@, f))
        } else {
            match o {
                OperandModel::Pattern(s) => Ok(PredModel::Matches(f, s)),
                OperandModel::Text(s) => if ci_regex_compiles(s) {
                    Ok(PredModel::Matches(f, s))
                } else {
                    Err(ErrModel::BadRegex("(inline Regex)"@))
                },
                _ => Err(ErrModel::OperandType(op_label(op), "a regex"@)),
            }
        },
        Op::Gt => if f != Field::Age {
            Err(wrong_field(op, "a numeric"@, f))
        } else {
            match as_num(op, o) {
                Ok(n) => Ok(PredModel::Above(n)),
                Err(e) => Err(e),
            }
        },
        Op::Gte => if f != Field::Age {
            Err(wrong_field(op, "a numeric"@, f))
        } else {
            match as_num(op, o) {
                Ok(n) => Ok(PredModel::AtLeast(n)),
                Err(e) => Err(e),
            }
        },
    }
}

/// What a condition compiles to against the data: the first error met (in
/// document order, depth first), else the compiled test.
pub open spec fn compile_model(c: Cond, d: RefsModel) -> Result<PredModel, ErrModel>
    decreases c, 0int,
{
    match c {
        Cond::All(cs) => {
            proof {
                assert(decreases_to!(c => c->All_0));
            }
            match compile_seq(cs, d) {
                Ok(ps) => Ok(PredModel::All(ps)),
                Err(e) => Err(e),
            }
        },
        Cond::Any(cs) => {
            proof {
                assert(decreases_to!(c => c->Any_0));
            }
            match compile_seq(cs, d) {
                Ok(ps) => Ok(PredModel::Any(ps)),
                Err(e) => Err(e),
            }
        },
        Cond::Not(b) => match compile_model(*b, d) {
            Ok(p) => Ok(PredModel::Not(Box::new(p))),
            Err(e) => Err(e),
        },
        Cond::Leaf(f, op, v, r) => match operand_model(f, op, v, r, d) {
            Ok(o) => leaf_model(f, op, o),
            Err(e) => Err(e),
        },
    }
}

/// What a list of conditions compiles to: the first error, else every test in order.
pub open spec fn compile_seq(cs: Seq<Cond>, d: RefsModel) -> Result<Seq<PredModel>, ErrModel>
    decreases cs, 0int,
{
    if cs.len() == 0 {
        Ok(Seq::empty())
    } else {
        proof {
            assert(decreases_to!(cs => cs[cs.len() - 1]));
        }
        match compile_seq(cs.drop_last(), d) {
            Err(e) => Err(e),
            Ok(ps) => match compile_model(cs[cs.len() - 1], d) {
                Ok(p) => Ok(ps.push(p)),
                Err(e) => Err(e),
            },
        }
    }
}

/// `r` is the executable form of the compile outcome `m`.
pub open spec fn compiled_as(r: Result<Predicate, RuleError>, m: Result<PredModel, ErrModel>) -> bool {
    match r {
        Ok(p) => m == Ok::<PredModel, ErrModel>(p@),
        Err(e) => m == Err::<PredModel, ErrModel>(e@),
    }
}

/// The text `a`, then `b`, then `c`.
fn join_text(a: &str, b: &str, c: &str) -> (r: String)
    ensures
        r@ == a@ + b@ + c@,
{
    let x = chars_of(a);
    let y = chars_of(b);
    let z = chars_of(c);
    let xy = concat_chars(x.as_slice(), y.as_slice());
    let all = concat_chars(xy.as_slice(), z.as_slice());
    string_from_chars(all.as_slice())
}

/// `true` or `false`.
fn bool_string(b: bool) -> (r: String)
    ensures
        r@ == bool_text(b),
{
    if b { owned("true") } else { owned("false") }
}

/// The text of a scalar list item, if it is one.
fn value_scalar(v: &YamlValue) -> (r: Option<String>)
    ensures
        match r {
            Some(t) => item_text(v@) == Some(t@),
            None => item_text(v@) is None,
        },
{
    match v {
        YamlValue::String(s) => Some(s.clone()),
        YamlValue::Number(n) => Some(n.clone()),
        YamlValue::Bool(b) => Some(bool_string(*b)),
        _ => None,
    }
}

/// The operand a literal `value` gives (see `value_operand`).
fn value_to_operand(value: &YamlValue) -> (r: Result<Operand, RuleError>)
    ensures
        match r {
            Ok(o) => value_operand(value@) == Ok::<OperandModel, ErrModel>(o@),
            Err(e) => value_operand(value@) == Err::<OperandModel, ErrModel>(e@),
        },
{
    match value {
        YamlValue::String(s) => Ok(Operand::Text(s.clone())),
        YamlValue::Bool(b) => Ok(Operand::Text(bool_string(*b))),
        YamlValue::Number(n) => Ok(Operand::Num(yaml_number_value(n.as_str()))),
        YamlValue::Sequence(items) => {
            proof {
                lemma_items_view(items@);
            }
            let ghost iv = items_view(items@);
            let mut out: Vec<String> = Vec::new();
            let mut i: usize = 0;
            while i < items.len()
                invariant
                    i <= items.len(),
                    iv == items_view(items@),
                    iv.len() == items@.len(),
                    forall|j: int| 0 <= j < items@.len() ==> #[trigger] iv[j] == items@[j]@,
                    crate::config::texts(out@) == scalar_texts(iv.take(i as int)),
                decreases items.len() - i,
            {
                assert(iv.take(i + 1).drop_last() =~= iv.take(i as int));
                assert(iv.take(i + 1).last() == items@[i as int]@);
                match value_scalar(&items[i]) {
                    Some(t) => {
                        out.push(t);
                        assert(crate::config::texts(out@) =~= scalar_texts(iv.take(i as int)).push(t@));
                    },
                    None => {},
                }
                i += 1;
            }
            assert(iv.take(items.len() as int) =~= iv);
            Ok(Operand::List(out))
        },
        _ => {
            proof {
                reveal_strlit("value");
                reveal_strlit("a scalar or list (got ");
                reveal_strlit(")");
            }
            let kind = describe(value);
            Err(RuleError::OperandType { op: owned("value"), expected: join_text("a scalar or list (got ", kind.as_str(), ")") })
        },
    }
}

/// The operand of a leaf (see `operand_model`).
fn resolve_operand(leaf: &LeafCondition, data: &RulesData) -> (r: Result<Operand, RuleError>)
    ensures
        match r {
            Ok(o) => operand_model(leaf.field, leaf.op, opt_yaml(leaf.value), opt_text(leaf.reference), data@)
                == Ok::<OperandModel, ErrModel>(o@),
            Err(e) => operand_model(leaf.field, leaf.op, opt_yaml(leaf.value), opt_text(leaf.reference), data@)
                == Err::<OperandModel, ErrModel>(e@),
        },
{
    match &leaf.reference {
        Some(path) => match data.resolve(path.as_str()) {
            Ok(RefValue::List(l)) => Ok(Operand::List(l)),
            Ok(RefValue::Pattern(p)) => Ok(Operand::Pattern(p)),
            Ok(RefValue::Threshold(n)) => Ok(Operand::Num(n)),
            Err(e) => Err(e),
        },
        None => match &leaf.value {
            Some(v) => value_to_operand(v),
            None => Err(RuleError::MissingOperand { field: field_name(leaf.field), op: op_name(leaf.op) }),
        },
    }
}

/// Text ops refuse the `Age` field.
pub fn ensure_text_field(field: Field, op: Op) -> (r: Result<(), RuleError>)
    ensures
        r is Ok <==> field != Field::Age,
        r matches Err(e) ==> e@ == wrong_field(op, "a text"@, field),
{
    if field == Field::Age {
        return Err(RuleError::WrongField { op: op_name(op), expected: owned("a text"), field: field_name(field) });
    }
    Ok(())
}

/// The ordering ops accept only the `Age` field.
pub fn ensure_age_field(field: Field, op: Op) -> (r: Result<(), RuleError>)
    ensures
        r is Ok <==> field == Field::Age,
        r matches Err(e) ==> e@ == wrong_field(op, "a numeric"@, field),
{
    if field != Field::Age {
        return Err(RuleError::WrongField { op: op_name(op), expected: owned("a numeric"), field: field_name(field) });
    }
    Ok(())
}

impl Operand {
    /// The operand as text (see `as_text`).
    pub fn into_text(self, op: Op) -> (r: Result<String, RuleError>)
        ensures
            match r {
                Ok(t) => as_text(op, self@) == Ok::<Seq<char>, ErrModel>(t@),
                Err(e) => as_text(op, self@) == Err::<Seq<char>, ErrModel>(e@),
            },
    {
        match self {
            Operand::Text(s) => Ok(s),
            Operand::Num(n) => Ok(hours_string(n)),
            _ => Err(RuleError::OperandType { op: op_name(op), expected: owned("a text") }),
        }
    }

    /// The operand as a list of texts.
    pub fn into_list(self, op: Op) -> (r: Result<Vec<String>, RuleError>)
        ensures
            match r {
                Ok(l) => self@ == OperandModel::List(crate::config::texts(l@)),
                Err(e) => !(self@ is List) && e@ == ErrModel::OperandType(op_label(op), "a list"@),
            },
    {
        match self {
            Operand::List(l) => Ok(l),
            _ => Err(RuleError::OperandType { op: op_name(op), expected: owned("a list") }),
        }
    }

    /// The operand as a number (see `as_num`).
    pub fn into_num(self, op: Op) -> (r: Result<Num, RuleError>)
        ensures
            match r {
                Ok(n) => as_num(op, self@) == Ok::<Num, ErrModel>(n),
                Err(e) => as_num(op, self@) == Err::<Num, ErrModel>(e@),
            },
    {
        match self {
            Operand::Num(n) => Ok(n),
            Operand::Text(s) => match parse_hours_number(s.as_str()) {
                Some(n) => Ok(n),
                None => Err(RuleError::OperandType { op: op_name(op), expected: owned("a numeric") }),
            },
            _ => Err(RuleError::OperandType { op: op_name(op), expected: owned("a numeric") }),
        }
    }

    /// The operand as a case-insensitive pattern; a text is compiled, and a text
    /// that is no regex is `BadRegex` with the key `(inline Regex)`.
    pub fn into_regex(self, op: Op) -> (r: Result<Pattern, RuleError>)
        requires
            op == Op::Regex,
        ensures
            match r {
                Ok(p) => match self@ {
                    OperandModel::Pattern(s) => p.source() == s,
                    OperandModel::Text(s) => ci_regex_compiles(s) && p.source() == s,
                    _ => false,
                },
                Err(e) => match self@ {
                    OperandModel::Pattern(_) => false,
                    OperandModel::Text(s) => !ci_regex_compiles(s) && e@ == ErrModel::BadRegex("(inline Regex)"@),
                    _ => e@ == ErrModel::OperandType(op_label(op), "a regex"@),
                },
            },
    {
        match self {
            Operand::Pattern(p) => Ok(p),
            Operand::Text(s) => match Pattern::compile(s.as_str()) {
                Ok(p) => Ok(p),
                Err(source) => Err(RuleError::BadRegex { key: owned("(inline Regex)"), source }),
            },
            _ => Err(RuleError::OperandType { op: op_name(op), expected: owned("a regex") }),
        }
    }
}

/// The lower-cased form of each string.
fn lowercase_list(l: Vec<String>) -> (r: Vec<String>)
    ensures
        crate::config::texts(r@) == lowercase_all(crate::config::texts(l@)),
{
    let mut out: Vec<String> = Vec::new();
    let mut i: usize = 0;
    while i < l.len()
        invariant
            i <= l.len(),
            crate::config::texts(out@) == lowercase_all(crate::config::texts(l@)).take(i as int),
        decreases l.len() - i,
    {
        let low = to_lowercase(l[i].as_str());
        let ghost before = out@;
        out.push(low);
        proof {
            let all = lowercase_all(crate::config::texts(l@));
            assert(crate::config::texts(l@)[i as int] == l@[i as int]@);
            assert(all[i as int] == lowercase(l@[i as int]@));
            assert(crate::config::texts(out@) =~= crate::config::texts(before).push(low@));
            assert(all.take(i + 1) =~= all.take(i as int).push(all[i as int]));
        }
        i += 1;
    }
    assert(lowercase_all(crate::config::texts(l@)).take(l.len() as int) =~= lowercase_all(crate::config::texts(l@)));
    out
}

proof fn lemma_compile_seq_err(cs: Seq<Cond>, d: RefsModel, k: int, e: ErrModel)
    requires
        0 <= k <= cs.len(),
        compile_seq(cs.take(k), d) == Err::<Seq<PredModel>, ErrModel>(e),
    ensures
        compile_seq(cs, d) == Err::<Seq<PredModel>, ErrModel>(e),
    decreases cs.len() - k,
{
    if k < cs.len() {
        assert(cs.take(k + 1).drop_last() =~= cs.take(k));
        lemma_compile_seq_err(cs, d, k + 1, e);
    } else {
        assert(cs.take(k) =~= cs);
    }
}

/// Compiles one leaf test (see `operand_model` and `leaf_model`).
fn compile_leaf(leaf: &LeafCondition, data: &RulesData) -> (r: Result<Predicate, RuleError>)
    ensures
        compiled_as(r, compile_model(Cond::Leaf(leaf.field, leaf.op, opt_yaml(leaf.value), opt_text(leaf.reference)), data@)),
{
    let field = leaf.field;
    let op = leaf.op;
    let operand = match resolve_operand(leaf, data) {
        Ok(o) => o,
        Err(e) => return Err(e),
    };
    match op {
        Op::Equals => {
            if let Err(e) = ensure_text_field(field, op) {
                return Err(e);
            }
            match operand.into_text(op) {
                Ok(t) => Ok(Predicate::Equals(field, t)),
                Err(e) => Err(e),
            }
        },
        Op::Includes => {
            if let Err(e) = ensure_text_field(field, op) {
                return Err(e);
            }
            match operand.into_text(op) {
                Ok(t) => Ok(Predicate::Includes(field, to_lowercase(t.as_str()))),
                Err(e) => Err(e),
            }
        },
        Op::EndsWith => {
            if let Err(e) = ensure_text_field(field, op) {
                return Err(e);
            }
            match operand.into_text(op) {
                Ok(t) => Ok(Predicate::EndsWith(field, to_lowercase(t.as_str()))),
                Err(e) => Err(e),
            }
        },
        Op::EndsWithAny => {
            if let Err(e) = ensure_text_field(field, op) {
                return Err(e);
            }
            match operand.into_list(op) {
                Ok(l) => Ok(Predicate::EndsWithAny(field, lowercase_list(l))),
                Err(e) => Err(e),
            }
        },
        Op::Regex => {
            if let Err(e) = ensure_text_field(field, op) {
                return Err(e);
            }
            match operand.into_regex(op) {
                Ok(p) => Ok(Predicate::Matches(field, p)),
                Err(e) => Err(e),
            }
        },
        Op::Gt => {
            if let Err(e) = ensure_age_field(field, op) {
                return Err(e);
            }
            match operand.into_num(op) {
                Ok(n) => Ok(Predicate::Above(n)),
                Err(e) => Err(e),
            }
        },
        Op::Gte => {
            if let Err(e) = ensure_age_field(field, op) {
                return Err(e);
            }
            match operand.into_num(op) {
                Ok(n) => Ok(Predicate::AtLeast(n)),
                Err(e) => Err(e),
            }
        },
    }
}

/// Compiles a list of conditions, stopping at the first error.
fn compile_all(nodes: &Vec<Condition>, data: &RulesData) -> (r: Result<Vec<Predicate>, RuleError>)
    ensures
        match r {
            Ok(v) => compile_seq(conds_view(nodes@), data@) == Ok::<Seq<PredModel>, ErrModel>(preds_view(v@)),
            Err(e) => compile_seq(conds_view(nodes@), data@) == Err::<Seq<PredModel>, ErrModel>(e@),
        },
    decreases nodes, 1int,
{
    proof {
        lemma_conds_view(nodes@);
    }
    let ghost cs = conds_view(nodes@);
    let mut out: Vec<Predicate> = Vec::new();
    let mut i: usize = 0;
    while i < nodes.len()
        invariant
            i <= nodes.len(),
            cs == conds_view(nodes@),
            cs.len() == nodes@.len(),
            forall|j: int| 0 <= j < nodes@.len() ==> #[trigger] cs[j] == cond_view(&nodes@[j]),
            compile_seq(cs.take(i as int), data@) == Ok::<Seq<PredModel>, ErrModel>(preds_view(out@)),
        decreases nodes.len() - i,
    {
        proof {
            assert(decreases_to!(*nodes => nodes@));
            assert(decreases_to!(nodes@ => nodes@[i as int]));
        }
        assert(cs.take(i + 1).drop_last() =~= cs.take(i as int));
        assert(cs.take(i + 1)[i as int] == cs[i as int]);
        match compile_condition(&nodes[i], data) {
            Ok(p) => {
                let ghost before = out@;
                out.push(p);
                assert(out@.drop_last() =~= before);
            },
            Err(e) => {
                proof {
                    lemma_compile_seq_err(cs, data@, i + 1, e@);
                }
                return Err(e);
            },
        }
        i += 1;
    }
    assert(cs.take(nodes.len() as int) =~= cs);
    Ok(out)
}

/// Recursively compiles a condition into a single [`Predicate`] (see
/// `compile_model`): refs and inline regexes are resolved here, once.
pub fn compile_condition(node: &Condition, data: &RulesData) -> (r: Result<Predicate, RuleError>)
    ensures
        compiled_as(r, compile_model(node@, data@)),
    decreases node, 2int,
{
    match node {
        Condition::All { all } => {
            proof {
                assert(decreases_to!(*node => node->all));
            }
            match compile_all(all, data) {
                Ok(subs) => Ok(Predicate::All(subs)),
                Err(e) => Err(e),
            }
        },
        Condition::Any { any } => {
            proof {
                assert(decreases_to!(*node => node->any));
            }
            match compile_all(any, data) {
                Ok(subs) => Ok(Predicate::Any(subs)),
                Err(e) => Err(e),
            }
        },
        Condition::Not { not } => match compile_condition(not, data) {
            Ok(sub) => Ok(Predicate::Not(Box::new(sub))),
            Err(e) => Err(e),
        },
        Condition::Leaf(leaf) => compile_leaf(leaf, data),
    }
}

/// The field a case-insensitive text test reads (`Includes`, `EndsWith`,
/// `EndsWithAny`), if the test is one.
pub open spec fn case_folded_field(p: PredModel) -> Option<Field> {
    match p {
        PredModel::Includes(f, _) => Some(f),
        PredModel::EndsWith(f, _) => Some(f),
        PredModel::EndsWithAny(f, _) => Some(f),
        _ => None,
    }
}

/// Text ops other than `equals` are case-insensitive: two messages whose field
/// texts lower-case alike get the same answer from them.
pub proof fn law_text_ops_ignore_case(p: PredModel, f: Field, m1: MailMessage, m2: MailMessage)
    requires
        case_folded_field(p) == Some(f),
        lowercase(field_text(m1, f)) == lowercase(field_text(m2, f)),
    ensures
        holds(p, m1) == holds(p, m2),
{
}

/// `equals` is exact: it holds exactly when the field's text is the target.
pub proof fn law_equals_is_exact(f: Field, target: Seq<char>, m: MailMessage)
    ensures
        holds(PredModel::Equals(f, target), m) <==> field_text(m, f) == target,
{
}

/// A message older than a threshold is also at least as old as it.
pub proof fn law_older_than_implies_at_least(t: Num, m: MailMessage)
    ensures
        holds(PredModel::Above(t), m) ==> holds(PredModel::AtLeast(t), m),
{
}

/// `not` negates, `all` of nothing holds and `any` of nothing does not.
pub proof fn law_combinators(p: PredModel, m: MailMessage)
    ensures
        holds(PredModel::Not(Box::new(p)), m) == !holds(p, m),
        holds(PredModel::All(Seq::empty()), m),
        !holds(PredModel::Any(Seq::empty()), m),
{
    let none = Seq::<PredModel>::empty();
    assert(all_hold(none, m));
    assert(!any_holds(none, m));
}

/// The text ops compare lower-cased needles: two targets that lower-case alike
/// compile to the same `includes` or `endsWith` test.
pub proof fn law_needles_are_case_folded(f: Field, op: Op, t1: Seq<char>, t2: Seq<char>)
    requires
        op == Op::Includes || op == Op::EndsWith,
        lowercase(t1) == lowercase(t2),
    ensures
        leaf_model(f, op, OperandModel::Text(t1)) == leaf_model(f, op, OperandModel::Text(t2)),
{
}

proof fn lemma_compile_seq(cs: Seq<Cond>, d: RefsModel)
    ensures
        compile_seq(cs, d) is Ok <==> forall|i: int| 0 <= i < cs.len() ==> (#[trigger] compile_model(cs[i], d)) is Ok,
        compile_seq(cs, d) matches Ok(ps) ==> ps.len() == cs.len()
            && forall|i: int| 0 <= i < cs.len() ==> #[trigger] ps[i] == compile_model(cs[i], d)->Ok_0,
    decreases cs.len(),
{
    if cs.len() > 0 {
        let init = cs.drop_last();
        lemma_compile_seq(init, d);
        assert forall|i: int| 0 <= i < init.len() implies #[trigger] init[i] == cs[i] by {}
        if compile_seq(cs, d) is Ok {
            assert forall|i: int| 0 <= i < cs.len() implies (#[trigger] compile_model(cs[i], d)) is Ok by {
                if i < cs.len() - 1 {
                    assert(compile_model(init[i], d) is Ok);
                }
            }
        }
        if forall|i: int| 0 <= i < cs.len() ==> (#[trigger] compile_model(cs[i], d)) is Ok {
            assert forall|i: int| 0 <= i < init.len() implies (#[trigger] compile_model(init[i], d)) is Ok by {
                assert(compile_model(cs[i], d) is Ok);
            }
            assert(compile_model(cs[cs.len() - 1], d) is Ok);
        }
    }
}

/// A combinator compiles exactly when each of its parts does, and its compiled
/// test is the combination of theirs: `all` holds when every part holds (so
/// `all []` holds), `any` when some part holds (so `any []` does not), `not`
/// when its part does not.
pub proof fn law_compile_combinators(cs: Seq<Cond>, c: Cond, d: RefsModel, m: MailMessage)
    ensures
        compile_model(Cond::All(cs), d) is Ok <==> forall|i: int| 0 <= i < cs.len() ==> (#[trigger] compile_model(cs[i], d)) is Ok,
        compile_model(Cond::Any(cs), d) is Ok <==> forall|i: int| 0 <= i < cs.len() ==> (#[trigger] compile_model(cs[i], d)) is Ok,
        compile_model(Cond::Not(Box::new(c)), d) is Ok <==> compile_model(c, d) is Ok,
        compile_model(Cond::All(cs), d) matches Ok(p) ==> (holds(p, m) <==> forall|i: int| 0 <= i < cs.len()
            ==> holds(#[trigger] compile_model(cs[i], d)->Ok_0, m)),
        compile_model(Cond::Any(cs), d) matches Ok(p) ==> (holds(p, m) <==> exists|i: int| 0 <= i < cs.len()
            && holds(#[trigger] compile_model(cs[i], d)->Ok_0, m)),
        compile_model(Cond::Not(Box::new(c)), d) matches Ok(p) ==> (holds(p, m) <==> !holds(compile_model(c, d)->Ok_0, m)),
{
    lemma_compile_seq(cs, d);
    if compile_seq(cs, d) is Ok {
        let ps = compile_seq(cs, d)->Ok_0;
        lemma_all_hold(ps, m);
        lemma_any_holds(ps, m);
        if all_hold(ps, m) {
            assert forall|i: int| 0 <= i < cs.len() implies holds(#[trigger] compile_model(cs[i], d)->Ok_0, m) by {
                assert(holds(ps[i], m));
            }
        }
        if forall|i: int| 0 <= i < cs.len() ==> holds(#[trigger] compile_model(cs[i], d)->Ok_0, m) {
            assert forall|i: int| 0 <= i < ps.len() implies holds(#[trigger] ps[i], m) by {
                assert(holds(compile_model(cs[i], d)->Ok_0, m));
            }
        }
        if any_holds(ps, m) {
            let i = choose|i: int| 0 <= i < ps.len() && holds(#[trigger] ps[i], m);
            assert(holds(compile_model(cs[i], d)->Ok_0, m));
        }
        if exists|i: int| 0 <= i < cs.len() && holds(#[trigger] compile_model(cs[i], d)->Ok_0, m) {
            let i = choose|i: int| 0 <= i < cs.len() && holds(#[trigger] compile_model(cs[i], d)->Ok_0, m);
            assert(holds(ps[i], m));
        }
    }
}

/// One leaf compiles: its operand resolves and the operator accepts it on its field.
pub open spec fn leaf_compiles(f: Field, op: Op, v: Option<Yaml>, r: Option<Seq<char>>, d: RefsModel) -> bool {
    match operand_model(f, op, v, r, d) {
        Ok(o) => leaf_model(f, op, o) is Ok,
        Err(_) => false,
    }
}

/// Every leaf of a condition compiles.
pub open spec fn leaves_compile(c: Cond, d: RefsModel) -> bool
    decreases c, 0int,
{
    match c {
        Cond::All(cs) => {
            proof {
                assert(decreases_to!(c => c->All_0));
            }
            leaves_compile_seq(cs, d)
        },
        Cond::Any(cs) => {
            proof {
                assert(decreases_to!(c => c->Any_0));
            }
            leaves_compile_seq(cs, d)
        },
        Cond::Not(b) => leaves_compile(*b, d),
        Cond::Leaf(f, op, v, r) => leaf_compiles(f, op, v, r, d),
    }
}

/// Every leaf of every condition of a list compiles.
pub open spec fn leaves_compile_seq(cs: Seq<Cond>, d: RefsModel) -> bool
    decreases cs, 0int,
{
    if cs.len() == 0 {
        true
    } else {
        proof {
            assert(decreases_to!(cs => cs[cs.len() - 1]));
        }
        leaves_compile_seq(cs.drop_last(), d) && leaves_compile(cs[cs.len() - 1], d)
    }
}

proof fn lemma_leaves_compile(c: Cond, d: RefsModel)
    ensures
        compile_model(c, d) is Ok <==> leaves_compile(c, d),
    decreases c, 1int,
{
    match c {
        Cond::All(cs) => {
            assert(decreases_to!(c => c->All_0));
            lemma_leaves_compile_seq(cs, d);
        },
        Cond::Any(cs) => {
            assert(decreases_to!(c => c->Any_0));
            lemma_leaves_compile_seq(cs, d);
        },
        Cond::Not(b) => {
            lemma_leaves_compile(*b, d);
        },
        Cond::Leaf(..) => {},
    }
}

proof fn lemma_leaves_compile_seq(cs: Seq<Cond>, d: RefsModel)
    ensures
        compile_seq(cs, d) is Ok <==> leaves_compile_seq(cs, d),
    decreases cs, 1int,
{
    if cs.len() > 0 {
        assert(decreases_to!(cs => cs[cs.len() - 1]));
        lemma_leaves_compile_seq(cs.drop_last(), d);
        lemma_leaves_compile(cs[cs.len() - 1], d);
    }
}

/// Compiling a condition fails exactly when one of its leaves fails to compile:
/// a condition compiles when every leaf (however deeply nested under `all`,
/// `any` and `not`) does.
pub proof fn law_compile_fails_only_at_a_leaf(c: Cond, d: RefsModel)
    ensures
        compile_model(c, d) is Ok <==> leaves_compile(c, d),
{
    lemma_leaves_compile(c, d);
}

/// `endsWithAny` is case-insensitive in its list as in the field: the suffixes
/// it compiles to are the list entries lower-cased, one for one; two lists whose
/// entries lower-case alike compile to the same test; and the test holds of a
/// message exactly when its lower-cased field text ends with some lower-cased
/// entry.
pub proof fn law_ends_with_any_folds_case(f: Field, l1: Seq<Seq<char>>, l2: Seq<Seq<char>>, m: MailMessage)
    requires
        f != Field::Age,
    ensures
        leaf_model(f, Op::EndsWithAny, OperandModel::List(l1)) matches Ok(PredModel::EndsWithAny(g, ss))
            && g == f && ss.len() == l1.len()
            && forall|i: int| 0 <= i < l1.len() ==> #[trigger] ss[i] == lowercase(l1[i]),
        holds(leaf_model(f, Op::EndsWithAny, OperandModel::List(l1))->Ok_0, m)
            <==> exists|i: int| 0 <= i < l1.len() && is_suffix_of(lowercase(#[trigger] l1[i]), lowercase(field_text(m, f))),
        l1.len() == l2.len() && (forall|i: int| 0 <= i < l1.len() ==> lowercase(#[trigger] l1[i]) == lowercase(l2[i]))
            ==> leaf_model(f, Op::EndsWithAny, OperandModel::List(l1)) == leaf_model(f, Op::EndsWithAny, OperandModel::List(l2)),
{
    let s1 = lowercase_all(l1);
    let s2 = lowercase_all(l2);
    let t = lowercase(field_text(m, f));
    if ends_with_one_of(s1, t) {
        let i = choose|i: int| 0 <= i < s1.len() && is_suffix_of(#[trigger] s1[i], t);
        assert(is_suffix_of(lowercase(l1[i]), t));
    }
    if exists|i: int| 0 <= i < l1.len() && is_suffix_of(lowercase(#[trigger] l1[i]), t) {
        let i = choose|i: int| 0 <= i < l1.len() && is_suffix_of(lowercase(#[trigger] l1[i]), t);
        assert(is_suffix_of(s1[i], t));
    }
    if l1.len() == l2.len() && (forall|i: int| 0 <= i < l1.len() ==> lowercase(#[trigger] l1[i]) == lowercase(l2[i])) {
        assert(s1 =~= s2);
    }
}

/// What each leaf op tests, on a text field and a literal text `t`: `equals`
/// compares exactly (case-sensitively), `includes` and `endsWith` compare the
/// lower-cased field with the lower-cased `t`, and `regex` matches `t`
/// case-insensitively; on the age, `>` and `>=` compare the age in seconds,
/// scaled to nanoseconds, with a finite threshold. Text ops refuse the age and
/// the ordering ops refuse every other field.
pub proof fn law_leaf_ops(f: Field, t: Seq<char>, v: i128, m: MailMessage)
    requires
        f != Field::Age,
    ensures
        leaf_model(f, Op::Equals, OperandModel::Text(t)) is Ok,
        leaf_model(f, Op::Includes, OperandModel::Text(t)) is Ok,
        leaf_model(f, Op::EndsWith, OperandModel::Text(t)) is Ok,
        holds(leaf_model(f, Op::Equals, OperandModel::Text(t))->Ok_0, m) <==> field_text(m, f) == t,
        holds(leaf_model(f, Op::Includes, OperandModel::Text(t))->Ok_0, m) <==> occurs_in(lowercase(t), lowercase(field_text(m, f))),
        holds(leaf_model(f, Op::EndsWith, OperandModel::Text(t))->Ok_0, m) <==> is_suffix_of(lowercase(t), lowercase(field_text(m, f))),
        leaf_model(f, Op::Regex, OperandModel::Text(t)) is Ok <==> ci_regex_compiles(t),
        ci_regex_compiles(t) ==> (holds(leaf_model(f, Op::Regex, OperandModel::Text(t))->Ok_0, m) <==> ci_regex_matches(t, field_text(m, f))),
        holds(leaf_model(Field::Age, Op::Gt, OperandModel::Num(Num::Finite(v)))->Ok_0, m) <==> m.age_seconds * 1_000_000_000 > v,
        holds(leaf_model(Field::Age, Op::Gte, OperandModel::Num(Num::Finite(v)))->Ok_0, m) <==> m.age_seconds * 1_000_000_000 >= v,
        leaf_model(Field::Age, Op::Equals, OperandModel::Text(t)) is Err,
        leaf_model(Field::Age, Op::Includes, OperandModel::Text(t)) is Err,
        leaf_model(f, Op::Gt, OperandModel::Num(Num::Finite(v))) is Err,
        leaf_model(f, Op::Gte, OperandModel::Num(Num::Finite(v))) is Err,
{
}

} // verus!
