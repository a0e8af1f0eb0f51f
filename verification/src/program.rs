//! Ordered rule programs: a sequence of condition-to-output rules plus a
//! default output. The first rule whose condition holds wins; when none
//! matches, the default output is used, so evaluation always ends with a
//! value. The same shape serves the conditional-config manager (outputs are
//! routing choices), the surcharge manager (outputs are surcharge
//! specifications) and rule-based algorithm bodies (outputs are connector
//! lists).

use vstd::prelude::*;

use crate::expression::{eval_expr, evaluate, Attribute, AttributeBag, Expression};

verus! {

/// One rule: when `condition` holds of the transaction's attributes, the
/// program's result is `output`.
#[derive(Debug)]
pub struct Rule<O> {
    pub condition: Expression,
    pub output: O,
}

/// An ordered rule program. Programs are replaced wholesale on upsert;
/// rule order is a user-visible contract.
#[derive(Debug)]
pub struct RuleProgram<O> {
    pub rules: Vec<Rule<O>>,
    pub default_output: O,
}

/// The output of the first rule in `rules` whose condition holds, or
/// `default_output` when none does.
pub open spec fn chosen_output<O>(rules: Seq<Rule<O>>, default_output: O, entries: Seq<Attribute>) -> O
    decreases rules.len(),
{
    if rules.len() == 0 {
        default_output
    } else if eval_expr(rules[0].condition, entries) {
        rules[0].output
    } else {
        chosen_output(rules.drop_first(), default_output, entries)
    }
}

/// What a whole program decides over an attribute bag.
pub open spec fn decide_spec<O>(p: RuleProgram<O>, entries: Seq<Attribute>) -> O {
    chosen_output(p.rules@, p.default_output, entries)
}

/// Evaluates a rule program over a transaction's attribute bag: rules are
/// tried in stored order, the first whose condition holds wins, and the
/// default output terminates the search. Total; never fails.
pub fn decide<'a, O>(p: &'a RuleProgram<O>, bag: &AttributeBag) -> (r: &'a O)
    ensures
        *r == decide_spec(*p, bag.entries@),
{
    let n = p.rules.len();
    let mut i: usize = 0;
    proof {
        assert(p.rules@.skip(0) =~= p.rules@);
    }
    while i < n
        invariant
            n == p.rules@.len(),
            i <= n,
            decide_spec(*p, bag.entries@) == chosen_output(
                p.rules@.skip(i as int),
                p.default_output,
                bag.entries@,
            ),
        decreases n - i,
    {
        proof {
            assert(p.rules@.skip(i as int)[0] == p.rules@[i as int]);
            assert(p.rules@.skip(i as int).drop_first() =~= p.rules@.skip(i + 1));
        }
        if evaluate(&p.rules[i].condition, bag) {
            return &p.rules[i].output;
        }
        i += 1;
    }
    &p.default_output
}

/// Rule precedence: when the conditions of several rules hold, the earliest
/// rule decides. In particular, whenever the first rule's condition holds,
/// the program's result is exactly that rule's output, whatever the later
/// rules and the default output say.
pub proof fn lemma_first_rule_wins<O>(p: RuleProgram<O>, entries: Seq<Attribute>)
    requires
        p.rules@.len() > 0,
        eval_expr(p.rules@[0].condition, entries),
    ensures
        decide_spec(p, entries) == p.rules@[0].output,
{
}

} // verus!
