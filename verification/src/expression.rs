//! The expression engine: a recursive boolean condition tree evaluated over
//! a typed attribute bag. Evaluation is pure, total and deterministic; an
//! unresolvable attribute or a comparison against a literal of mismatched
//! type yields `false` rather than an error, so rule evaluation always
//! terminates with a definite decision.

use vstd::prelude::*;

verus! {

/// A literal value, and also the value of one attribute of a transaction:
/// a number, free text, an enumeration tag, or a boolean flag.
#[derive(Clone, Debug)]
pub enum Literal {
    Number(i64),
    Text(String),
    Tag(String),
    Flag(bool),
}

/// One named attribute of a transaction.
#[derive(Debug)]
pub struct Attribute {
    pub name: String,
    pub value: Literal,
}

/// The typed attribute bag of one transaction. When a name occurs twice,
/// the first entry is authoritative.
#[derive(Debug)]
pub struct AttributeBag {
    pub entries: Vec<Attribute>,
}

/// A comparison operator of an expression leaf.
#[derive(Clone, Copy, PartialEq, Eq, Structural, Debug)]
pub enum CompareOp {
    Eq,
    Ne,
    Lt,
    Le,
    Gt,
    Ge,
}

/// A boolean condition tree over a transaction's attributes.
///
/// `Compare` and `Within` are the leaves; `Within` is set membership
/// (`negated` turns it into non-membership). The ordering operators apply
/// to numbers only; anything else compares unequal types and yields false.
#[derive(Debug)]
pub enum Expression {
    Compare { attribute: String, op: CompareOp, literal: Literal },
    Within { attribute: String, negated: bool, literals: Vec<Literal> },
    And(Box<Expression>, Box<Expression>),
    Or(Box<Expression>, Box<Expression>),
    Not(Box<Expression>),
}

/// Whether two literals carry the same type of value.
pub open spec fn same_literal_type(a: Literal, b: Literal) -> bool {
    match (a, b) {
        (Literal::Number(_), Literal::Number(_)) => true,
        (Literal::Text(_), Literal::Text(_)) => true,
        (Literal::Tag(_), Literal::Tag(_)) => true,
        (Literal::Flag(_), Literal::Flag(_)) => true,
        _ => false,
    }
}

/// Literal equality: same type of value, and the values themselves equal.
pub open spec fn literal_eq_spec(a: Literal, b: Literal) -> bool {
    match (a, b) {
        (Literal::Number(x), Literal::Number(y)) => x == y,
        (Literal::Text(x), Literal::Text(y)) => x@ == y@,
        (Literal::Tag(x), Literal::Tag(y)) => x@ == y@,
        (Literal::Flag(x), Literal::Flag(y)) => x == y,
        _ => false,
    }
}

/// Executable form of [`literal_eq_spec`].
pub fn literal_eq(a: &Literal, b: &Literal) -> (r: bool)
    ensures
        r == literal_eq_spec(*a, *b),
{
    match (a, b) {
        (Literal::Number(x), Literal::Number(y)) => *x == *y,
        (Literal::Text(x), Literal::Text(y)) => *x == *y,
        (Literal::Tag(x), Literal::Tag(y)) => *x == *y,
        (Literal::Flag(x), Literal::Flag(y)) => *x == *y,
        _ => false,
    }
}

/// What one comparison leaf means: ordering applies to numbers only, and a
/// mismatch of types yields false for every operator, inequality included.
pub open spec fn compare_spec(v: Literal, op: CompareOp, lit: Literal) -> bool {
    match op {
        CompareOp::Eq => literal_eq_spec(v, lit),
        CompareOp::Ne => same_literal_type(v, lit) && !literal_eq_spec(v, lit),
        CompareOp::Lt => v is Number && lit is Number && v->Number_0 < lit->Number_0,
        CompareOp::Le => v is Number && lit is Number && v->Number_0 <= lit->Number_0,
        CompareOp::Gt => v is Number && lit is Number && v->Number_0 > lit->Number_0,
        CompareOp::Ge => v is Number && lit is Number && v->Number_0 >= lit->Number_0,
    }
}

/// Executable form of [`compare_spec`].
pub fn compare(v: &Literal, op: CompareOp, lit: &Literal) -> (r: bool)
    ensures
        r == compare_spec(*v, op, *lit),
{
    match op {
        CompareOp::Eq => literal_eq(v, lit),
        CompareOp::Ne => match (v, lit) {
            (Literal::Number(_), Literal::Number(_))
            | (Literal::Text(_), Literal::Text(_))
            | (Literal::Tag(_), Literal::Tag(_))
            | (Literal::Flag(_), Literal::Flag(_)) => !literal_eq(v, lit),
            _ => false,
        },
        CompareOp::Lt => match (v, lit) {
            (Literal::Number(x), Literal::Number(y)) => *x < *y,
            _ => false,
        },
        CompareOp::Le => match (v, lit) {
            (Literal::Number(x), Literal::Number(y)) => *x <= *y,
            _ => false,
        },
        CompareOp::Gt => match (v, lit) {
            (Literal::Number(x), Literal::Number(y)) => *x > *y,
            _ => false,
        },
        CompareOp::Ge => match (v, lit) {
            (Literal::Number(x), Literal::Number(y)) => *x >= *y,
            _ => false,
        },
    }
}

/// The value of the first attribute named `name`, if any.
pub open spec fn lookup_spec(entries: Seq<Attribute>, name: Seq<char>) -> Option<Literal>
    decreases entries.len(),
{
    if entries.len() == 0 {
        None
    } else if entries[0].name@ == name {
        Some(entries[0].value)
    } else {
        lookup_spec(entries.drop_first(), name)
    }
}

/// Executable form of [`lookup_spec`].
pub fn lookup<'a>(bag: &'a AttributeBag, name: &String) -> (r: Option<&'a Literal>)
    ensures
        match r {
            Some(v) => lookup_spec(bag.entries@, name@) == Some(*v),
            None => lookup_spec(bag.entries@, name@) is None,
        },
{
    let n = bag.entries.len();
    let mut i: usize = 0;
    proof {
        assert(bag.entries@.skip(0) =~= bag.entries@);
    }
    while i < n
        invariant
            n == bag.entries@.len(),
            i <= n,
            lookup_spec(bag.entries@, name@) == lookup_spec(bag.entries@.skip(i as int), name@),
        decreases n - i,
    {
        if bag.entries[i].name == *name {
            proof {
                assert(bag.entries@.skip(i as int)[0] == bag.entries@[i as int]);
            }
            return Some(&bag.entries[i].value);
        }
        proof {
            assert(bag.entries@.skip(i as int)[0] == bag.entries@[i as int]);
            assert(bag.entries@.skip(i as int).drop_first() =~= bag.entries@.skip(i + 1));
        }
        i += 1;
    }
    proof {
        assert(bag.entries@.skip(n as int).len() == 0);
    }
    None
}

/// Whether `v` equals some element of `lits`.
pub open spec fn member_spec(v: Literal, lits: Seq<Literal>) -> bool {
    exists|i: int| 0 <= i < lits.len() && literal_eq_spec(v, lits[i])
}

/// Executable form of [`member_spec`].
pub fn member(v: &Literal, lits: &Vec<Literal>) -> (r: bool)
    ensures
        r == member_spec(*v, lits@),
{
    let n = lits.len();
    let mut i: usize = 0;
    while i < n
        invariant
            n == lits@.len(),
            i <= n,
            forall|j: int| 0 <= j < i ==> !literal_eq_spec(*v, lits@[j]),
        decreases n - i,
    {
        if literal_eq(v, &lits[i]) {
            return true;
        }
        i += 1;
    }
    false
}

/// What a whole condition tree means over an attribute bag. An absent
/// attribute makes its leaf false; `Within` with `negated` asks that the
/// attribute be present and equal to no listed literal.
pub open spec fn eval_expr(e: Expression, entries: Seq<Attribute>) -> bool
    decreases e,
{
    match e {
        Expression::Compare { attribute, op, literal } => match lookup_spec(entries, attribute@) {
            Some(v) => compare_spec(v, op, literal),
            None => false,
        },
        Expression::Within { attribute, negated, literals } => match lookup_spec(
            entries,
            attribute@,
        ) {
            Some(v) => if negated {
                !member_spec(v, literals@)
            } else {
                member_spec(v, literals@)
            },
            None => false,
        },
        Expression::And(a, b) => eval_expr(*a, entries) && eval_expr(*b, entries),
        Expression::Or(a, b) => eval_expr(*a, entries) || eval_expr(*b, entries),
        Expression::Not(a) => !eval_expr(*a, entries),
    }
}

/// Evaluates a condition tree over a transaction's attribute bag.
/// Short-circuits `And`/`Or`; never fails.
pub fn evaluate(e: &Expression, bag: &AttributeBag) -> (r: bool)
    ensures
        r == eval_expr(*e, bag.entries@),
    decreases *e,
{
    match e {
        Expression::Compare { attribute, op, literal } => match lookup(bag, attribute) {
            Some(v) => compare(v, *op, literal),
            None => false,
        },
        Expression::Within { attribute, negated, literals } => match lookup(bag, attribute) {
            Some(v) => if *negated {
                !member(v, literals)
            } else {
                member(v, literals)
            },
            None => false,
        },
        Expression::And(a, b) => evaluate(a, bag) && evaluate(b, bag),
        Expression::Or(a, b) => evaluate(a, bag) || evaluate(b, bag),
        Expression::Not(a) => !evaluate(a, bag),
    }
}

} // verus!
