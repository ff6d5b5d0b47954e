//! The rules document: shared base rules plus optional per-account overrides,
//! compiled into ready-to-run [`RuleSet`]s.

use vstd::prelude::*;

use super::{ErrModel, RuleError};
use super::classifier::{Rule, rules_view};
use super::data::{RawRefs, RefsModel, RulesData, refs_result};
use super::dsl::{Cond, Condition, PredModel, compile_condition, compile_model};
use crate::message::Decision;
use crate::pattern::Pattern;
use crate::yaml::{LayeredDocument, Yaml, YamlValue, block_for, merge, split_base, split_blocks};

verus! {

/// One declarative rule entry: `{ name, when, then }`.
#[derive(Debug)]
pub struct RawRule {
    pub name: String,
    pub when: Condition,
    pub decision: Decision,
}

/// The base shape of a rules file (the `accounts:` map is split off before this).
#[derive(Debug, Default)]
pub struct RawRulesFile {
    pub refs: RawRefs,
    pub classify: Vec<RawRule>,
    pub cleanup: Vec<RawRule>,
}

/// The model of a rule entry: its name, its condition and its decision.
pub open spec fn raw_rule_view(r: RawRule) -> (Seq<char>, Cond, Decision) {
    (r.name@, r.when@, r.decision)
}

/// The models of a list of rule entries.
pub open spec fn raw_rules_view(rs: Seq<RawRule>) -> Seq<(Seq<char>, Cond, Decision)> {
    rs.map_values(|r: RawRule| raw_rule_view(r))
}

/// What a list of rule entries compiles to against the refs: the first error
/// met, else every rule in order.
pub open spec fn compile_rules_model(
    rs: Seq<(Seq<char>, Cond, Decision)>,
    d: RefsModel,
) -> Result<Seq<(Seq<char>, PredModel, Decision)>, ErrModel>
    decreases rs.len(),
{
    if rs.len() == 0 {
        Ok(Seq::empty())
    } else {
        match compile_rules_model(rs.drop_last(), d) {
            Err(e) => Err(e),
            Ok(done) => match compile_model(rs.last().1, d) {
                Ok(p) => Ok(done.push((rs.last().0, p, rs.last().2))),
                Err(e) => Err(e),
            },
        }
    }
}

/// A compiled rule bundle: the unread-path rules, the cleanup rules for
/// already-read mail, and the source of the `expiry` pattern if one is defined.
pub open spec fn ruleset_result(raw: RawRulesFile) -> Result<
    (Seq<(Seq<char>, PredModel, Decision)>, Seq<(Seq<char>, PredModel, Decision)>, Option<Seq<char>>),
    ErrModel,
> {
    match refs_result(raw.refs) {
        Err(e) => Err(e),
        Ok(d) => match compile_rules_model(raw_rules_view(raw.classify@), d) {
            Err(e) => Err(e),
            Ok(classify) => match compile_rules_model(raw_rules_view(raw.cleanup@), d) {
                Err(e) => Err(e),
                Ok(cleanup) => Ok((classify, cleanup, d.pattern_source("expiry"@))),
            },
        },
    }
}

/// A compiled, ready-to-run rule bundle for one account (or the shared base).
pub struct RuleSet {
    /// Unread-path rules.
    pub classify: Vec<Rule>,
    /// Cleanup prune rules for already-read mail.
    pub cleanup: Vec<Rule>,
    /// The compiled `expiry` pattern, if defined.
    pub expiry_pattern: Option<Pattern>,
}

impl View for RuleSet {
    type V = (Seq<(Seq<char>, PredModel, Decision)>, Seq<(Seq<char>, PredModel, Decision)>, Option<Seq<char>>);

    open spec fn view(&self) -> Self::V {
        (rules_view(self.classify@), rules_view(self.cleanup@), match self.expiry_pattern {
            Some(p) => Some(p.source()),
            None => None,
        })
    }
}

proof fn lemma_compile_rules_err(rs: Seq<(Seq<char>, Cond, Decision)>, d: RefsModel, k: int, e: ErrModel)
    requires
        0 <= k <= rs.len(),
        compile_rules_model(rs.take(k), d) == Err::<Seq<(Seq<char>, PredModel, Decision)>, ErrModel>(e),
    ensures
        compile_rules_model(rs, d) == Err::<Seq<(Seq<char>, PredModel, Decision)>, ErrModel>(e),
    decreases rs.len() - k,
{
    if k < rs.len() {
        assert(rs.take(k + 1).drop_last() =~= rs.take(k));
        lemma_compile_rules_err(rs, d, k + 1, e);
    } else {
        assert(rs.take(k) =~= rs);
    }
}

/// Compiles rule entries in order, stopping at the first error.
fn compile_rules(raw: &Vec<RawRule>, data: &RulesData) -> (r: Result<Vec<Rule>, RuleError>)
    ensures
        match r {
            Ok(v) => compile_rules_model(raw_rules_view(raw@), data@) == Ok::<Seq<(Seq<char>, PredModel, Decision)>, ErrModel>(rules_view(v@)),
            Err(e) => compile_rules_model(raw_rules_view(raw@), data@) == Err::<Seq<(Seq<char>, PredModel, Decision)>, ErrModel>(e@),
        },
{
    let ghost rs = raw_rules_view(raw@);
    let mut out: Vec<Rule> = Vec::new();
    let mut i: usize = 0;
    assert(rs.take(0) =~= Seq::<(Seq<char>, Cond, Decision)>::empty());
    assert(rules_view(out@) =~= Seq::<(Seq<char>, PredModel, Decision)>::empty());
    while i < raw.len()
        invariant
            i <= raw.len(),
            rs == raw_rules_view(raw@),
            compile_rules_model(rs.take(i as int), data@) == Ok::<Seq<(Seq<char>, PredModel, Decision)>, ErrModel>(rules_view(out@)),
        decreases raw.len() - i,
    {
        assert(rs.take(i + 1).drop_last() =~= rs.take(i as int));
        assert(rs.take(i + 1).last() == raw_rule_view(raw@[i as int]));
        match compile_condition(&raw[i].when, data) {
            Ok(when) => {
                let name = raw[i].name.clone();
                let ghost before = out@;
                out.push(Rule { name, when, decision: raw[i].decision });
                assert(rules_view(out@) =~= rules_view(before).push(rules_view(out@).last()));
            },
            Err(e) => {
                proof {
                    lemma_compile_rules_err(rs, data@, i + 1, e@);
                }
                return Err(e);
            },
        }
        i += 1;
    }
    assert(rs.take(raw.len() as int) =~= rs);
    Ok(out)
}

impl RuleSet {
    /// Compiles a rules file into executable rules (see `ruleset_result`).
    pub fn compile(raw: &RawRulesFile) -> (r: Result<RuleSet, RuleError>)
        ensures
            match r {
                Ok(set) => ruleset_result(*raw) == Ok::<<RuleSet as View>::V, ErrModel>(set@),
                Err(e) => ruleset_result(*raw) == Err::<<RuleSet as View>::V, ErrModel>(e@),
            },
    {
        let data = match RulesData::from_refs(&raw.refs) {
            Ok(d) => d,
            Err(e) => return Err(e),
        };
        let classify = match compile_rules(&raw.classify, &data) {
            Ok(v) => v,
            Err(e) => return Err(e),
        };
        let cleanup = match compile_rules(&raw.cleanup, &data) {
            Ok(v) => v,
            Err(e) => return Err(e),
        };
        let expiry_pattern = data.pattern("expiry");
        Ok(RuleSet { classify, cleanup, expiry_pattern })
    }
}

/// A loaded rules document: the shared base plus per-account override blocks.
/// Each account's rules are the base with its `accounts.<id>` block deep-merged on
/// top (objects merge; arrays and scalars replace).
pub struct RulesDocument {
    pub document: LayeredDocument,
}

impl RulesDocument {
    /// Splits a parsed rules document into its base and its `accounts:` blocks.
    pub fn from_yaml_value(value: YamlValue) -> (r: RulesDocument)
        ensures
            r.document.base_view() == split_base(value@),
            r.document.blocks_view() == split_blocks(value@),
    {
        RulesDocument { document: LayeredDocument::from_value(value) }
    }

    /// Reads a rules text: its base and its `accounts:` blocks. It fails, with the
    /// YAML error, exactly when the text is not a YAML document.
    pub fn from_yaml_str(text: &str) -> (r: Result<RulesDocument, RuleError>)
        ensures
            r is Ok <==> crate::yaml::yaml_parses(text@),
            r matches Ok(d) ==> d.read_from(crate::yaml::yaml_parsed(text@)),
            r matches Err(e) ==> e is Yaml,
    {
        match crate::yaml::parse_yaml(text) {
            Ok(value) => Ok(RulesDocument::from_yaml_value(value)),
            Err(e) => Err(RuleError::Yaml(e)),
        }
    }

    /// The document was read from the parsed file `v`.
    pub open spec fn read_from(&self, v: Yaml) -> bool {
        &&& self.document.base_view() == split_base(v)
        &&& self.document.blocks_view() == split_blocks(v)
    }

    /// The effective rules document for one account (or the shared base when
    /// `account` is `None` or has no override block); it is read into a
    /// `RawRulesFile` and compiled with `RuleSet::compile`.
    pub fn merged_for(&self, account: Option<&str>) -> (r: YamlValue)
        ensures
            r@ == match account {
                Some(id) => match block_for(self.document.blocks_view(), id@) {
                    Some(block) => merge(self.document.base_view(), block),
                    None => self.document.base_view(),
                },
                None => self.document.base_view(),
            },
    {
        self.document.merged_for(account)
    }
}

} // verus!
