use routing_engine::algorithm::{validate_body, AlgorithmBody, WeightedChoice};
use routing_engine::engine::Engine;
use routing_engine::expression::{
    evaluate, Attribute, AttributeBag, CompareOp, Expression, Literal,
};
use routing_engine::program::{decide, Rule, RuleProgram};
use routing_engine::types::{
    ConnectorChoice, RoutingError, Scope, SurchargeSpec, TransactionType,
};

fn merchant(id: u64) -> Scope {
    Scope::Merchant { merchant_id: id }
}

fn cc(connector: u64) -> ConnectorChoice {
    ConnectorChoice { connector, sub_label: None }
}

fn bag(entries: Vec<(&str, Literal)>) -> AttributeBag {
    AttributeBag {
        entries: entries
            .into_iter()
            .map(|(name, value)| Attribute { name: String::from(name), value })
            .collect(),
    }
}

fn amount_is(op: CompareOp, n: i64) -> Expression {
    Expression::Compare { attribute: String::from("amount"), op, literal: Literal::Number(n) }
}

#[test]
fn comparison_operators_on_numbers() {
    let b = bag(vec![("amount", Literal::Number(100))]);
    assert!(evaluate(&amount_is(CompareOp::Eq, 100), &b));
    assert!(!evaluate(&amount_is(CompareOp::Eq, 99), &b));
    assert!(evaluate(&amount_is(CompareOp::Ne, 99), &b));
    assert!(!evaluate(&amount_is(CompareOp::Ne, 100), &b));
    assert!(evaluate(&amount_is(CompareOp::Lt, 101), &b));
    assert!(evaluate(&amount_is(CompareOp::Le, 100), &b));
    assert!(evaluate(&amount_is(CompareOp::Gt, 99), &b));
    assert!(evaluate(&amount_is(CompareOp::Ge, 100), &b));
    assert!(!evaluate(&amount_is(CompareOp::Lt, 100), &b));
}

#[test]
fn unresolvable_attribute_makes_the_leaf_false_not_an_error() {
    let b = bag(vec![]);
    assert!(!evaluate(&amount_is(CompareOp::Eq, 100), &b));
    // and through Not it flips: the decision is always definite
    assert!(evaluate(&Expression::Not(Box::new(amount_is(CompareOp::Eq, 100))), &b));
}

#[test]
fn mismatched_literal_type_compares_false_even_for_not_equal() {
    let b = bag(vec![("amount", Literal::Text(String::from("100")))]);
    assert!(!evaluate(&amount_is(CompareOp::Eq, 100), &b));
    assert!(!evaluate(&amount_is(CompareOp::Ne, 100), &b));
    assert!(!evaluate(&amount_is(CompareOp::Lt, 200), &b));
}

#[test]
fn and_or_not_combine_leaves() {
    let b = bag(vec![
        ("amount", Literal::Number(50)),
        ("card", Literal::Tag(String::from("visa"))),
    ]);
    let card_is_visa = Expression::Compare {
        attribute: String::from("card"),
        op: CompareOp::Eq,
        literal: Literal::Tag(String::from("visa")),
    };
    let both = Expression::And(
        Box::new(amount_is(CompareOp::Lt, 100)),
        Box::new(card_is_visa),
    );
    assert!(evaluate(&both, &b));
    let either = Expression::Or(
        Box::new(amount_is(CompareOp::Gt, 100)),
        Box::new(Expression::Not(Box::new(amount_is(CompareOp::Gt, 100)))),
    );
    assert!(evaluate(&either, &b));
}

#[test]
fn within_checks_set_membership() {
    let b = bag(vec![("country", Literal::Text(String::from("DE")))]);
    let within = Expression::Within {
        attribute: String::from("country"),
        negated: false,
        literals: vec![
            Literal::Text(String::from("US")),
            Literal::Text(String::from("DE")),
        ],
    };
    assert!(evaluate(&within, &b));
    let not_within = Expression::Within {
        attribute: String::from("country"),
        negated: true,
        literals: vec![Literal::Text(String::from("US"))],
    };
    assert!(evaluate(&not_within, &b));
    // an absent attribute fails both forms
    let empty = bag(vec![]);
    assert!(!evaluate(&within, &empty));
    assert!(!evaluate(&not_within, &empty));
}

#[test]
fn flag_and_tag_literals_compare_by_value() {
    let b = bag(vec![("recurring", Literal::Flag(true))]);
    let is_recurring = Expression::Compare {
        attribute: String::from("recurring"),
        op: CompareOp::Eq,
        literal: Literal::Flag(true),
    };
    assert!(evaluate(&is_recurring, &b));
    // a Tag never equals a Text of the same characters
    let tagged = bag(vec![("country", Literal::Tag(String::from("US")))]);
    let text_compare = Expression::Compare {
        attribute: String::from("country"),
        op: CompareOp::Eq,
        literal: Literal::Text(String::from("US")),
    };
    assert!(!evaluate(&text_compare, &tagged));
}

#[test]
fn duplicate_attribute_names_resolve_to_the_first_entry() {
    let b = bag(vec![
        ("amount", Literal::Number(1)),
        ("amount", Literal::Number(2)),
    ]);
    assert!(evaluate(&amount_is(CompareOp::Eq, 1), &b));
    assert!(!evaluate(&amount_is(CompareOp::Eq, 2), &b));
}

#[test]
fn program_defaults_when_no_rule_matches() {
    let program: RuleProgram<u64> = RuleProgram {
        rules: vec![Rule { condition: amount_is(CompareOp::Gt, 1000), output: 1 }],
        default_output: 2,
    };
    let low = bag(vec![("amount", Literal::Number(10))]);
    assert_eq!(*decide(&program, &low), 2);
    let high = bag(vec![("amount", Literal::Number(2000))]);
    assert_eq!(*decide(&program, &high), 1);
}

#[test]
fn body_validation_accepts_and_rejects() {
    assert!(!validate_body(&AlgorithmBody::PriorityFallback(Vec::new())));
    assert!(!validate_body(&AlgorithmBody::PriorityFallback(vec![cc(1), cc(1)])));
    assert!(validate_body(&AlgorithmBody::PriorityFallback(vec![cc(1), cc(2)])));
    assert!(!validate_body(&AlgorithmBody::VolumeSplit(Vec::new())));
    assert!(!validate_body(&AlgorithmBody::VolumeSplit(vec![WeightedChoice {
        choice: cc(1),
        weight: 0,
    }])));
    assert!(validate_body(&AlgorithmBody::VolumeSplit(vec![WeightedChoice {
        choice: cc(1),
        weight: 5,
    }])));
    // a rule-based body with an empty default output is malformed
    assert!(!validate_body(&AlgorithmBody::RuleBased(RuleProgram {
        rules: Vec::new(),
        default_output: Vec::new(),
    })));
}

#[test]
fn create_rejects_malformed_bodies_with_validation_error() {
    let mut engine = Engine::new();
    let r = engine.create_algorithm(
        merchant(30),
        TransactionType::Payment,
        String::from("bad"),
        String::new(),
        AlgorithmBody::PriorityFallback(Vec::new()),
    );
    assert_eq!(r, Err(RoutingError::ValidationError));
}

#[test]
fn create_rejects_an_overlong_name() {
    let mut engine = Engine::new();
    let long_name: String = std::iter::repeat('x').take(65).collect();
    let r = engine.create_algorithm(
        merchant(31),
        TransactionType::Payment,
        long_name,
        String::new(),
        AlgorithmBody::PriorityFallback(vec![cc(1)]),
    );
    assert_eq!(r, Err(RoutingError::NameTooLong));
    // 64 characters is still within the platform limit
    let ok_name: String = std::iter::repeat('x').take(64).collect();
    let r = engine.create_algorithm(
        merchant(31),
        TransactionType::Payment,
        ok_name,
        String::new(),
        AlgorithmBody::PriorityFallback(vec![cc(1)]),
    );
    assert!(r.is_ok());
}

#[test]
fn surcharge_program_decides_and_defaults_to_none() {
    let mut engine = Engine::new();
    let scope = merchant(32);
    // absent a program, no surcharge and never an error
    assert_eq!(
        engine.decide_surcharge(scope, &bag(vec![])),
        SurchargeSpec::NoSurcharge
    );
    let program = RuleProgram {
        rules: vec![Rule {
            condition: amount_is(CompareOp::Ge, 10000),
            output: SurchargeSpec::Rate { basis_points: 150 },
        }],
        default_output: SurchargeSpec::NoSurcharge,
    };
    engine.upsert_surcharge_config(scope, program).unwrap();
    assert_eq!(
        engine.decide_surcharge(scope, &bag(vec![("amount", Literal::Number(20000))])),
        SurchargeSpec::Rate { basis_points: 150 }
    );
    assert_eq!(
        engine.decide_surcharge(scope, &bag(vec![("amount", Literal::Number(5))])),
        SurchargeSpec::NoSurcharge
    );
}

#[test]
fn program_retrieve_upsert_delete_lifecycle() {
    let mut engine = Engine::new();
    let scope = merchant(33);
    assert_eq!(
        engine.retrieve_conditional_config(scope).unwrap_err(),
        RoutingError::NotFound
    );
    let program = RuleProgram {
        rules: Vec::new(),
        default_output: routing_engine::types::RoutingOutput::UseDefaultFallback,
    };
    engine.upsert_conditional_config(scope, program).unwrap();
    let got = engine.retrieve_conditional_config(scope).unwrap();
    assert_eq!(got.rules.len(), 0);
    engine.delete_conditional_config(scope).unwrap();
    assert_eq!(
        engine.retrieve_conditional_config(scope).unwrap_err(),
        RoutingError::NotFound
    );
    assert_eq!(
        engine.delete_conditional_config(scope),
        Err(RoutingError::NotFound)
    );
    // the surcharge manager mirrors the lifecycle
    assert_eq!(
        engine.retrieve_surcharge_config(scope).unwrap_err(),
        RoutingError::NotFound
    );
    let sp = RuleProgram { rules: Vec::new(), default_output: SurchargeSpec::NoSurcharge };
    engine.upsert_surcharge_config(scope, sp).unwrap();
    assert!(engine.retrieve_surcharge_config(scope).is_ok());
    engine.delete_surcharge_config(scope).unwrap();
    assert_eq!(
        engine.delete_surcharge_config(scope),
        Err(RoutingError::NotFound)
    );
}

#[test]
fn explicit_use_default_sentinel_routes_by_fallback() {
    let mut engine = Engine::new();
    let scope = merchant(34);
    // a linked algorithm exists, but the program's sentinel bypasses it
    let id = engine
        .create_algorithm(
            scope,
            TransactionType::Payment,
            String::from("linked"),
            String::new(),
            AlgorithmBody::PriorityFallback(vec![cc(1)]),
        )
        .unwrap();
    engine.link_algorithm(scope, TransactionType::Payment, id).unwrap();
    engine
        .update_default_fallback(scope, TransactionType::Payment, vec![cc(2)])
        .unwrap();
    let program = RuleProgram {
        rules: Vec::new(),
        default_output: routing_engine::types::RoutingOutput::UseDefaultFallback,
    };
    engine.upsert_conditional_config(scope, program).unwrap();
    let routed = engine
        .decide_routing(scope, TransactionType::Payment, &bag(vec![]))
        .unwrap();
    assert_eq!(routed, vec![cc(2)]);
}

#[test]
fn sub_labels_distinguish_connector_choices() {
    let mut engine = Engine::new();
    let scope = merchant(35);
    let a = ConnectorChoice { connector: 1, sub_label: Some(1) };
    let b = ConnectorChoice { connector: 1, sub_label: Some(2) };
    // same connector, different sub-accounts: a valid, duplicate-free list
    engine
        .update_default_fallback(scope, TransactionType::Payment, vec![a, b])
        .unwrap();
    let routed = engine
        .decide_routing(scope, TransactionType::Payment, &bag(vec![]))
        .unwrap();
    assert_eq!(routed, vec![a, b]);
}

#[test]
fn payment_and_payout_configurations_are_independent() {
    let mut engine = Engine::new();
    let scope = merchant(36);
    engine
        .update_default_fallback(scope, TransactionType::Payment, vec![cc(1)])
        .unwrap();
    engine
        .update_default_fallback(scope, TransactionType::Payout, vec![cc(2)])
        .unwrap();
    assert_eq!(
        engine.decide_routing(scope, TransactionType::Payment, &bag(vec![])).unwrap(),
        vec![cc(1)]
    );
    assert_eq!(
        engine.decide_routing(scope, TransactionType::Payout, &bag(vec![])).unwrap(),
        vec![cc(2)]
    );
    // linking a payout algorithm under the payment transaction type fails
    let id = engine
        .create_algorithm(
            scope,
            TransactionType::Payout,
            String::from("payout only"),
            String::new(),
            AlgorithmBody::PriorityFallback(vec![cc(3)]),
        )
        .unwrap();
    assert_eq!(
        engine.link_algorithm(scope, TransactionType::Payment, id),
        Err(RoutingError::NotFound)
    );
}

#[test]
fn fixed_amount_surcharge_is_decided_exactly() {
    let mut engine = Engine::new();
    let scope = merchant(37);
    let program = RuleProgram {
        rules: vec![Rule {
            condition: amount_is(CompareOp::Lt, 100),
            output: SurchargeSpec::FixedAmount { amount: 25 },
        }],
        default_output: SurchargeSpec::NoSurcharge,
    };
    engine.upsert_surcharge_config(scope, program).unwrap();
    assert_eq!(
        engine.decide_surcharge(scope, &bag(vec![("amount", Literal::Number(40))])),
        SurchargeSpec::FixedAmount { amount: 25 }
    );
}
