//! First-match-wins rule execution.

use vstd::prelude::*;

use super::dsl::{PredModel, Predicate, holds};
use crate::message::{Classifier, Decision, MailMessage, Verdict};
use crate::text::owned;

verus! {

/// A single ordered rule. The first rule whose `when` condition matches wins and
/// its decision is applied.
pub struct Rule {
    /// Short identifier, surfaced as the decision reason.
    pub name: String,
    pub when: Predicate,
    pub decision: Decision,
}

/// The model of a rule: its name, its compiled condition and its decision.
pub open spec fn rule_view(r: Rule) -> (Seq<char>, PredModel, Decision) {
    (r.name@, r.when@, r.decision)
}

/// The reason given when no rule matches.
pub open spec fn no_match_reason() -> Seq<char> {
    "no rule matched"@
}

/// The verdict of an ordered list of rules on a message: the decision and name
/// of the first rule whose condition holds, else `Keep` with `no_match_reason`.
pub open spec fn verdict_of(rules: Seq<(Seq<char>, PredModel, Decision)>, m: MailMessage) -> (Decision, Seq<char>)
    decreases rules.len(),
{
    if rules.len() == 0 {
        (Decision::Keep, no_match_reason())
    } else if holds(rules[0].1, m) {
        (rules[0].2, rules[0].0)
    } else {
        verdict_of(rules.drop_first(), m)
    }
}

/// The models of a list of rules.
pub open spec fn rules_view(rules: Seq<Rule>) -> Seq<(Seq<char>, PredModel, Decision)> {
    rules.map_values(|r: Rule| rule_view(r))
}

/// First match wins: the verdict is that of the first rule whose condition
/// holds, and `Keep` only when none does.
pub proof fn law_first_match_wins(rules: Seq<(Seq<char>, PredModel, Decision)>, m: MailMessage, k: int)
    requires
        0 <= k < rules.len(),
        holds(rules[k].1, m),
        forall|j: int| 0 <= j < k ==> !holds(#[trigger] rules[j].1, m),
    ensures
        verdict_of(rules, m) == (rules[k].2, rules[k].0),
    decreases k,
{
    if k > 0 {
        assert(!holds(rules[0].1, m));
        assert forall|j: int| 0 <= j < k - 1 implies !holds(#[trigger] rules.drop_first()[j].1, m) by {
            assert(rules.drop_first()[j] == rules[j + 1]);
        }
        law_first_match_wins(rules.drop_first(), m, k - 1);
    }
}

/// No rule matches exactly when the verdict is the default `Keep`.
pub proof fn law_default_keep(rules: Seq<(Seq<char>, PredModel, Decision)>, m: MailMessage)
    requires
        forall|j: int| 0 <= j < rules.len() ==> !holds(#[trigger] rules[j].1, m),
    ensures
        verdict_of(rules, m) == (Decision::Keep, no_match_reason()),
    decreases rules.len(),
{
    if rules.len() > 0 {
        assert(!holds(rules[0].1, m));
        assert forall|j: int| 0 <= j < rules.len() - 1 implies !holds(#[trigger] rules.drop_first()[j].1, m) by {
            assert(rules.drop_first()[j] == rules[j + 1]);
        }
        law_default_keep(rules.drop_first(), m);
    }
}

proof fn lemma_verdict_skip(rules: Seq<(Seq<char>, PredModel, Decision)>, m: MailMessage, i: int)
    requires
        0 <= i <= rules.len(),
        forall|j: int| 0 <= j < i ==> !holds(#[trigger] rules[j].1, m),
    ensures
        verdict_of(rules, m) == verdict_of(rules.subrange(i, rules.len() as int), m),
    decreases i,
{
    if i > 0 {
        assert(!holds(rules[0].1, m));
        assert forall|j: int| 0 <= j < i - 1 implies !holds(#[trigger] rules.drop_first()[j].1, m) by {
            assert(rules.drop_first()[j] == rules[j + 1]);
        }
        lemma_verdict_skip(rules.drop_first(), m, i - 1);
        assert(rules.drop_first().subrange(i - 1, rules.len() - 1) =~= rules.subrange(i, rules.len() as int));
    } else {
        assert(rules.subrange(0, rules.len() as int) =~= rules);
    }
}

/// Evaluates rules top-to-bottom; the first match wins, otherwise `Keep`.
pub fn first_match(rules: &[Rule], message: &MailMessage) -> (r: Verdict)
    ensures
        (r.decision, r.reason@) == verdict_of(rules_view(rules@), *message),
{
    let ghost rv = rules_view(rules@);
    let mut i: usize = 0;
    while i < rules.len()
        invariant
            i <= rules.len(),
            rv == rules_view(rules@),
            rv.len() == rules@.len(),
            forall|j: int| 0 <= j < i ==> !holds(#[trigger] rv[j].1, *message),
        decreases rules.len() - i,
    {
        assert(rv[i as int] == rule_view(rules@[i as int]));
        if rules[i].when.eval(message) {
            proof {
                lemma_verdict_skip(rv, *message, i as int);
                assert(rv.subrange(i as int, rv.len() as int)[0] == rv[i as int]);
            }
            return Verdict { decision: rules[i].decision, reason: rules[i].name.clone() };
        }
        i += 1;
    }
    proof {
        law_default_keep(rv, *message);
    }
    Verdict { decision: Decision::Keep, reason: owned("no rule matched") }
}

/// A [`Classifier`] backed by an ordered list of rules.
pub struct RuleClassifier {
    rules: Vec<Rule>,
}

impl RuleClassifier {
    /// The rules, in order.
    pub closed spec fn rules(&self) -> Seq<(Seq<char>, PredModel, Decision)> {
        rules_view(self.rules@)
    }

    pub fn new(rules: Vec<Rule>) -> (r: RuleClassifier)
        ensures
            r.rules() == rules_view(rules@),
    {
        RuleClassifier { rules }
    }
}

impl Classifier for RuleClassifier {
    fn classify(&self, message: &MailMessage) -> (r: Verdict)
        ensures
            (r.decision, r.reason@) == verdict_of(self.rules(), *message),
    {
        first_match(self.rules.as_slice(), message)
    }
}

} // verus!
