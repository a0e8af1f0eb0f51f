//! Algorithm bodies and their evaluation. A body is one of three kinds:
//! a fixed priority list of connectors, an embedded rule program whose
//! outputs are connector lists, or a weighted split. Validation happens at
//! creation time; evaluation is total and yields an ordered connector
//! preference list.

use vstd::prelude::*;

use crate::expression::{Attribute, AttributeBag};
use crate::program::{chosen_output, decide, decide_spec, Rule, RuleProgram};
use crate::types::{check_distinct_choices, copy_choices, distinct_choices, ConnectorChoice};

verus! {

/// Lifecycle status of a stored algorithm. At most one algorithm per scope
/// and transaction type is `Active` at any instant.
#[derive(Clone, Copy, PartialEq, Eq, Structural, Debug)]
pub enum AlgorithmStatus {
    Created,
    Active,
    Inactive,
}

/// The kind tag of an algorithm body, kept in dictionary entries so that
/// list views need not load full bodies.
#[derive(Clone, Copy, PartialEq, Eq, Structural, Debug)]
pub enum AlgorithmKind {
    PriorityFallback,
    RuleBased,
    VolumeSplit,
}

/// One connector of a volume split, with its traffic weight.
#[derive(Clone, Copy, PartialEq, Eq, Structural, Debug)]
pub struct WeightedChoice {
    pub choice: ConnectorChoice,
    pub weight: u32,
}

/// The kind-specific payload of a routing algorithm.
#[derive(Debug)]
pub enum AlgorithmBody {
    /// A fixed ordered connector sequence; evaluation yields it unchanged.
    PriorityFallback(Vec<ConnectorChoice>),
    /// An embedded rule program that lets the algorithm itself branch on
    /// transaction attributes, independent of the scope-level conditional
    /// config.
    RuleBased(RuleProgram<Vec<ConnectorChoice>>),
    /// Connectors with traffic weights; evaluation yields them ordered by
    /// weight, heaviest first, ties kept in stored order.
    VolumeSplit(Vec<WeightedChoice>),
}

/// The kind tag of a body.
pub open spec fn body_kind(b: AlgorithmBody) -> AlgorithmKind {
    match b {
        AlgorithmBody::PriorityFallback(_) => AlgorithmKind::PriorityFallback,
        AlgorithmBody::RuleBased(_) => AlgorithmKind::RuleBased,
        AlgorithmBody::VolumeSplit(_) => AlgorithmKind::VolumeSplit,
    }
}

/// Executable form of [`body_kind`].
pub fn kind_of(b: &AlgorithmBody) -> (k: AlgorithmKind)
    ensures
        k == body_kind(*b),
{
    match b {
        AlgorithmBody::PriorityFallback(_) => AlgorithmKind::PriorityFallback,
        AlgorithmBody::RuleBased(_) => AlgorithmKind::RuleBased,
        AlgorithmBody::VolumeSplit(_) => AlgorithmKind::VolumeSplit,
    }
}

/// A well-formed priority list: non-empty, with no repeated connector.
pub open spec fn valid_priority_list(s: Seq<ConnectorChoice>) -> bool {
    s.len() > 0 && distinct_choices(s)
}

/// A well-formed volume split: non-empty, with a positive total weight
/// (weights are unsigned, so that means some weight is positive).
pub open spec fn valid_split(s: Seq<WeightedChoice>) -> bool {
    s.len() > 0 && exists|i: int| 0 <= i < s.len() && s[i].weight > 0
}

/// Body validation, applied once at creation time. A rule-based body must
/// yield a well-formed priority list out of every rule and of its default.
pub open spec fn valid_body(b: AlgorithmBody) -> bool {
    match b {
        AlgorithmBody::PriorityFallback(list) => valid_priority_list(list@),
        AlgorithmBody::RuleBased(p) => valid_priority_list(p.default_output@) && forall|i: int|
            0 <= i < p.rules@.len() ==> valid_priority_list(p.rules@[i].output@),
        AlgorithmBody::VolumeSplit(w) => valid_split(w@),
    }
}

/// Executable form of [`valid_priority_list`].
pub fn check_priority_list(v: &Vec<ConnectorChoice>) -> (r: bool)
    ensures
        r == valid_priority_list(v@),
{
    v.len() > 0 && check_distinct_choices(v)
}

/// Executable form of [`valid_body`].
#[verifier::loop_isolation(false)]
pub fn validate_body(b: &AlgorithmBody) -> (r: bool)
    ensures
        r == valid_body(*b),
{
    match b {
        AlgorithmBody::PriorityFallback(list) => check_priority_list(list),
        AlgorithmBody::RuleBased(p) => {
            if !check_priority_list(&p.default_output) {
                return false;
            }
            let n = p.rules.len();
            let mut i: usize = 0;
            while i < n
                invariant
                    n == p.rules@.len(),
                    i <= n,
                    forall|j: int| 0 <= j < i ==> valid_priority_list(p.rules@[j].output@),
                    valid_priority_list(p.default_output@),
                decreases n - i,
            {
                if !check_priority_list(&p.rules[i].output) {
                    proof {
                        assert(!valid_priority_list(p.rules@[i as int].output@));
                    }
                    return false;
                }
                i += 1;
            }
            true
        },
        AlgorithmBody::VolumeSplit(w) => {
            if w.len() == 0 {
                return false;
            }
            let n = w.len();
            let mut i: usize = 0;
            while i < n
                invariant
                    n == w@.len(),
                    i <= n,
                    forall|j: int| 0 <= j < i ==> w@[j].weight == 0,
                decreases n - i,
            {
                if w[i].weight > 0 {
                    proof {
                        assert(0 <= i < w@.len() && w@[i as int].weight > 0);
                    }
                    return true;
                }
                i += 1;
            }
            false
        },
    }
}

/// The index of the first element of greatest weight.
pub open spec fn first_max_index(s: Seq<WeightedChoice>) -> int
    decreases s.len(),
{
    if s.len() <= 1 {
        0
    } else {
        let m = 1 + first_max_index(s.drop_first());
        if 0 <= m < s.len() && s[0].weight >= s[m].weight {
            0
        } else {
            m
        }
    }
}

/// `first_max_index` lies in bounds, no element outweighs it, and every
/// earlier element weighs strictly less.
pub proof fn lemma_first_max_index(s: Seq<WeightedChoice>)
    requires
        s.len() > 0,
    ensures
        0 <= first_max_index(s) < s.len(),
        forall|j: int| 0 <= j < s.len() ==> (#[trigger] s[j].weight) <= s[first_max_index(s)].weight,
        forall|j: int| 0 <= j < first_max_index(s) ==> (#[trigger] s[j].weight) < s[first_max_index(s)].weight,
    decreases s.len(),
{
    if s.len() > 1 {
        let d = s.drop_first();
        lemma_first_max_index(d);
        let md = first_max_index(d);
        assert(d[md] == s[1 + md]);
        assert forall|j: int| 0 <= j < s.len() implies (#[trigger] s[j].weight)
            <= s[first_max_index(s)].weight by {
            if j >= 1 {
                assert(d[j - 1] == s[j]);
                assert(d[j - 1].weight <= d[md].weight);
            }
        }
        assert forall|j: int| 0 <= j < first_max_index(s) implies (#[trigger] s[j].weight)
            < s[first_max_index(s)].weight by {
            if j >= 1 {
                assert(d[j - 1] == s[j]);
                assert(d[j - 1].weight < d[md].weight);
            }
        }
    }
}

/// The connectors of a weighted split, ordered by weight, heaviest first;
/// elements of equal weight keep their stored order.
pub open spec fn weight_order(s: Seq<WeightedChoice>) -> Seq<ConnectorChoice>
    decreases s.len(),
{
    if s.len() == 0 {
        Seq::empty()
    } else {
        let m = first_max_index(s);
        if 0 <= m < s.len() {
            seq![s[m].choice] + weight_order(s.remove(m))
        } else {
            Seq::empty()
        }
    }
}

/// The weight ordering keeps every element: its length equals the split's.
pub proof fn lemma_weight_order_len(s: Seq<WeightedChoice>)
    ensures
        weight_order(s).len() == s.len(),
    decreases s.len(),
{
    if s.len() > 0 {
        lemma_first_max_index(s);
        lemma_weight_order_len(s.remove(first_max_index(s)));
    }
}

/// Executable form of [`first_max_index`].
fn index_of_first_max(v: &Vec<WeightedChoice>) -> (r: usize)
    requires
        v@.len() > 0,
    ensures
        r as int == first_max_index(v@),
        r < v@.len(),
{
    let mut best: usize = 0;
    let mut j: usize = 1;
    while j < v.len()
        invariant
            0 < v@.len(),
            best < j,
            j <= v@.len(),
            forall|k: int| 0 <= k < j ==> v@[k].weight <= v@[best as int].weight,
            forall|k: int| 0 <= k < best ==> v@[k].weight < v@[best as int].weight,
        decreases v@.len() - j,
    {
        if v[j].weight > v[best].weight {
            best = j;
        }
        j += 1;
    }
    proof {
        lemma_first_max_index(v@);
        let m = first_max_index(v@);
        if (best as int) < m {
            assert(v@[best as int].weight < v@[m].weight);
            assert(v@[m].weight <= v@[best as int].weight);
            assert(false);
        } else if m < best as int {
            assert(v@[m].weight < v@[best as int].weight);
            assert(v@[best as int].weight <= v@[m].weight);
            assert(false);
        }
    }
    best
}

/// Copies a weighted split element by element.
fn copy_weighted(v: &Vec<WeightedChoice>) -> (r: Vec<WeightedChoice>)
    ensures
        r@ == v@,
{
    let mut out: Vec<WeightedChoice> = Vec::new();
    let mut i: usize = 0;
    while i < v.len()
        invariant
            i <= v@.len(),
            out@ == v@.subrange(0, i as int),
        decreases v@.len() - i,
    {
        out.push(v[i]);
        i += 1;
        assert(out@ =~= v@.subrange(0, i as int));
    }
    assert(v@.subrange(0, v@.len() as int) =~= v@);
    out
}

/// Evaluates a volume split: emits the connectors ordered by weight,
/// heaviest first, ties kept in stored order.
fn evaluate_split(v: &Vec<WeightedChoice>) -> (r: Vec<ConnectorChoice>)
    ensures
        r@ == weight_order(v@),
{
    let mut rest: Vec<WeightedChoice> = copy_weighted(v);
    let mut out: Vec<ConnectorChoice> = Vec::new();
    proof {
        assert(Seq::<ConnectorChoice>::empty() + weight_order(v@) =~= weight_order(v@));
    }
    while rest.len() > 0
        invariant
            weight_order(v@) == out@ + weight_order(rest@),
        decreases rest@.len(),
    {
        let ghost rest_old = rest@;
        let ghost out_old = out@;
        let m = index_of_first_max(&rest);
        let c = rest[m].choice;
        proof {
            lemma_first_max_index(rest_old);
            assert(weight_order(rest_old) == seq![rest_old[m as int].choice] + weight_order(
                rest_old.remove(m as int),
            ));
        }
        rest.remove(m);
        out.push(c);
        proof {
            assert(out@ + weight_order(rest@) =~= out_old + weight_order(rest_old));
        }
    }
    proof {
        assert(out@ + weight_order(rest@) =~= out@);
    }
    out
}

/// What an algorithm body yields for a transaction's attribute bag.
pub open spec fn eval_body(b: AlgorithmBody, entries: Seq<Attribute>) -> Seq<ConnectorChoice> {
    match b {
        AlgorithmBody::PriorityFallback(list) => list@,
        AlgorithmBody::RuleBased(p) => decide_spec(p, entries)@,
        AlgorithmBody::VolumeSplit(w) => weight_order(w@),
    }
}

/// Evaluates an algorithm body over a transaction's attribute bag: a
/// priority list is yielded unchanged, a rule-based body through its
/// program, a volume split in weight order. Total; never fails.
pub fn evaluate_body(b: &AlgorithmBody, bag: &AttributeBag) -> (r: Vec<ConnectorChoice>)
    ensures
        r@ == eval_body(*b, bag.entries@),
{
    match b {
        AlgorithmBody::PriorityFallback(list) => copy_choices(list),
        AlgorithmBody::RuleBased(p) => {
            let chosen = decide(p, bag);
            copy_choices(chosen)
        },
        AlgorithmBody::VolumeSplit(w) => evaluate_split(w),
    }
}

/// A rule program's result is one of its rule outputs or its default.
proof fn lemma_chosen_output_member<O>(rules: Seq<Rule<O>>, default_output: O, entries: Seq<Attribute>)
    ensures
        chosen_output(rules, default_output, entries) == default_output || exists|i: int|
            0 <= i < rules.len() && chosen_output(rules, default_output, entries) == rules[i].output,
    decreases rules.len(),
{
    if rules.len() > 0 && !crate::expression::eval_expr(rules[0].condition, entries) {
        lemma_chosen_output_member(rules.drop_first(), default_output, entries);
        let c = chosen_output(rules, default_output, entries);
        if c != default_output {
            let j = choose|j: int|
                0 <= j < rules.drop_first().len() && c == rules.drop_first()[j].output;
            assert(c == rules[j + 1].output);
        }
    }
}

/// Validation pays off at evaluation time: a valid body yields a non-empty
/// connector list for every attribute bag.
pub proof fn lemma_valid_body_eval_non_empty(b: AlgorithmBody, entries: Seq<Attribute>)
    requires
        valid_body(b),
    ensures
        eval_body(b, entries).len() > 0,
{
    match b {
        AlgorithmBody::PriorityFallback(_) => {},
        AlgorithmBody::RuleBased(p) => {
            lemma_chosen_output_member(p.rules@, p.default_output, entries);
        },
        AlgorithmBody::VolumeSplit(w) => {
            lemma_weight_order_len(w@);
        },
    }
}

} // verus!
