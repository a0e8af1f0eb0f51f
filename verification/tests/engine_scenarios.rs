use routing_engine::algorithm::{AlgorithmBody, AlgorithmKind, AlgorithmStatus, WeightedChoice};
use routing_engine::engine::Engine;
use routing_engine::expression::{AttributeBag, CompareOp, Expression, Literal};
use routing_engine::locks::LockKey;
use routing_engine::program::{Rule, RuleProgram};
use routing_engine::types::{ConnectorChoice, RoutingError, RoutingOutput, Scope, TransactionType};

fn merchant(id: u64) -> Scope {
    Scope::Merchant { merchant_id: id }
}

fn cc(connector: u64) -> ConnectorChoice {
    ConnectorChoice { connector, sub_label: None }
}

fn empty_bag() -> AttributeBag {
    AttributeBag { entries: Vec::new() }
}

fn country_bag(country: &str) -> AttributeBag {
    AttributeBag {
        entries: vec![routing_engine::expression::Attribute {
            name: String::from("country"),
            value: Literal::Text(String::from(country)),
        }],
    }
}

#[test]
fn linked_priority_algorithm_routes_in_order() {
    // scope S, txn Payment: create a priority algorithm [c1, c2], link it,
    // and decide with an empty attribute bag
    let mut engine = Engine::new();
    let scope = merchant(1);
    let id = engine
        .create_algorithm(
            scope,
            TransactionType::Payment,
            String::from("primary"),
            String::from("main priority list"),
            AlgorithmBody::PriorityFallback(vec![cc(1), cc(2)]),
        )
        .unwrap();
    engine.link_algorithm(scope, TransactionType::Payment, id).unwrap();
    let routed = engine.decide_routing(scope, TransactionType::Payment, &empty_bag()).unwrap();
    assert_eq!(routed, vec![cc(1), cc(2)]);
}

#[test]
fn fallback_routes_when_nothing_is_linked() {
    // scope with no program and no link: the fallback list is authoritative
    let mut engine = Engine::new();
    let scope = merchant(2);
    engine
        .update_default_fallback(scope, TransactionType::Payment, vec![cc(3)])
        .unwrap();
    let routed = engine.decide_routing(scope, TransactionType::Payment, &empty_bag()).unwrap();
    assert_eq!(routed, vec![cc(3)]);
}

#[test]
fn conditional_config_picks_algorithm_by_country() {
    let mut engine = Engine::new();
    let scope = merchant(3);
    let a1 = engine
        .create_algorithm(
            scope,
            TransactionType::Payment,
            String::from("us-route"),
            String::new(),
            AlgorithmBody::PriorityFallback(vec![cc(10)]),
        )
        .unwrap();
    let a2 = engine
        .create_algorithm(
            scope,
            TransactionType::Payment,
            String::from("rest-of-world"),
            String::new(),
            AlgorithmBody::PriorityFallback(vec![cc(20)]),
        )
        .unwrap();
    let program = RuleProgram {
        rules: vec![Rule {
            condition: Expression::Compare {
                attribute: String::from("country"),
                op: CompareOp::Eq,
                literal: Literal::Text(String::from("US")),
            },
            output: RoutingOutput::UseAlgorithm { algorithm_id: a1 },
        }],
        default_output: RoutingOutput::UseAlgorithm { algorithm_id: a2 },
    };
    engine.upsert_conditional_config(scope, program).unwrap();

    let us = engine.decide_routing(scope, TransactionType::Payment, &country_bag("US")).unwrap();
    assert_eq!(us, vec![cc(10)]);
    let fr = engine.decide_routing(scope, TransactionType::Payment, &country_bag("FR")).unwrap();
    assert_eq!(fr, vec![cc(20)]);
}

#[test]
fn empty_fallback_update_is_rejected_and_changes_nothing() {
    let mut engine = Engine::new();
    let scope = merchant(4);
    engine
        .update_default_fallback(scope, TransactionType::Payment, vec![cc(7), cc(8)])
        .unwrap();
    let r = engine.update_default_fallback(scope, TransactionType::Payment, Vec::new());
    assert_eq!(r, Err(RoutingError::ValidationError));
    let snapshot = engine.retrieve_active_config(scope, TransactionType::Payment);
    assert_eq!(snapshot.default_fallback, vec![cc(7), cc(8)]);
}

#[test]
fn duplicate_fallback_update_is_rejected() {
    let mut engine = Engine::new();
    let scope = merchant(4);
    let r = engine.update_default_fallback(scope, TransactionType::Payment, vec![cc(7), cc(7)]);
    assert_eq!(r, Err(RoutingError::ValidationError));
}

#[test]
fn unlink_twice_reports_nothing_linked_and_moves_nothing() {
    let mut engine = Engine::new();
    let scope = merchant(5);
    let id = engine
        .create_algorithm(
            scope,
            TransactionType::Payment,
            String::from("solo"),
            String::new(),
            AlgorithmBody::PriorityFallback(vec![cc(1)]),
        )
        .unwrap();
    engine.link_algorithm(scope, TransactionType::Payment, id).unwrap();
    assert_eq!(engine.unlink_algorithm(scope, TransactionType::Payment), Ok(()));
    let after_first = engine.retrieve_active_config(scope, TransactionType::Payment);
    assert_eq!(
        engine.unlink_algorithm(scope, TransactionType::Payment),
        Err(RoutingError::NothingLinked)
    );
    let after_second = engine.retrieve_active_config(scope, TransactionType::Payment);
    assert_eq!(after_first.linked_algorithm_id, None);
    assert_eq!(after_second.linked_algorithm_id, None);
    assert_eq!(after_first.default_fallback, after_second.default_fallback);
}

#[test]
fn linking_a_second_algorithm_demotes_the_first() {
    let mut engine = Engine::new();
    let scope = merchant(6);
    let first = engine
        .create_algorithm(
            scope,
            TransactionType::Payment,
            String::from("first"),
            String::new(),
            AlgorithmBody::PriorityFallback(vec![cc(1)]),
        )
        .unwrap();
    let second = engine
        .create_algorithm(
            scope,
            TransactionType::Payment,
            String::from("second"),
            String::new(),
            AlgorithmBody::PriorityFallback(vec![cc(2)]),
        )
        .unwrap();
    engine.link_algorithm(scope, TransactionType::Payment, first).unwrap();
    engine.link_algorithm(scope, TransactionType::Payment, second).unwrap();
    assert_eq!(engine.get_algorithm(scope, first).unwrap().status, AlgorithmStatus::Inactive);
    assert_eq!(engine.get_algorithm(scope, second).unwrap().status, AlgorithmStatus::Active);
    let snapshot = engine.retrieve_active_config(scope, TransactionType::Payment);
    assert_eq!(snapshot.linked_algorithm_id, Some(second));
}

#[test]
fn create_then_get_round_trips_every_field() {
    let mut engine = Engine::new();
    let scope = merchant(7);
    let id = engine
        .create_algorithm(
            scope,
            TransactionType::Payout,
            String::from("weekly payouts"),
            String::from("payout routing"),
            AlgorithmBody::PriorityFallback(vec![cc(4), cc(5)]),
        )
        .unwrap();
    let record = engine.get_algorithm(scope, id).unwrap();
    assert_eq!(record.id, id);
    assert_eq!(record.name, "weekly payouts");
    assert_eq!(record.description, "payout routing");
    assert_eq!(record.scope, scope);
    assert_eq!(record.transaction_type, TransactionType::Payout);
    assert_eq!(record.status, AlgorithmStatus::Created);
    match &record.body {
        AlgorithmBody::PriorityFallback(list) => assert_eq!(list, &vec![cc(4), cc(5)]),
        _ => panic!("wrong body kind"),
    }
    let listed = engine.list_algorithms(scope, TransactionType::Payout, 0, 10);
    assert_eq!(listed.len(), 1);
    assert_eq!(listed[0].id, id);
    assert_eq!(listed[0].name, "weekly payouts");
    assert_eq!(listed[0].kind, AlgorithmKind::PriorityFallback);
}

#[test]
fn list_pages_newest_first() {
    let mut engine = Engine::new();
    let scope = merchant(8);
    let mut ids = Vec::new();
    for n in 0..5u64 {
        let id = engine
            .create_algorithm(
                scope,
                TransactionType::Payment,
                format!("algo-{}", n),
                String::new(),
                AlgorithmBody::PriorityFallback(vec![cc(n + 1)]),
            )
            .unwrap();
        ids.push(id);
    }
    let page = engine.list_algorithms(scope, TransactionType::Payment, 1, 2);
    assert_eq!(page.len(), 2);
    assert_eq!(page[0].id, ids[3]);
    assert_eq!(page[1].id, ids[2]);
    let all = engine.list_algorithms(scope, TransactionType::Payment, 0, 100);
    assert_eq!(all.len(), 5);
    assert!(all[0].created_at > all[1].created_at);
    let past_end = engine.list_algorithms(scope, TransactionType::Payment, 7, 3);
    assert_eq!(past_end.len(), 0);
}

#[test]
fn volume_split_routes_by_weight_descending() {
    let mut engine = Engine::new();
    let scope = merchant(9);
    let id = engine
        .create_algorithm(
            scope,
            TransactionType::Payment,
            String::from("split"),
            String::new(),
            AlgorithmBody::VolumeSplit(vec![
                WeightedChoice { choice: cc(1), weight: 30 },
                WeightedChoice { choice: cc(2), weight: 70 },
                WeightedChoice { choice: cc(3), weight: 30 },
            ]),
        )
        .unwrap();
    engine.link_algorithm(scope, TransactionType::Payment, id).unwrap();
    let routed = engine.decide_routing(scope, TransactionType::Payment, &empty_bag()).unwrap();
    // heaviest first; the two 30-weight entries keep their stored order
    assert_eq!(routed, vec![cc(2), cc(1), cc(3)]);
}

#[test]
fn rule_based_algorithm_branches_on_attributes() {
    let mut engine = Engine::new();
    let scope = merchant(10);
    let body = AlgorithmBody::RuleBased(RuleProgram {
        rules: vec![Rule {
            condition: Expression::Compare {
                attribute: String::from("country"),
                op: CompareOp::Eq,
                literal: Literal::Text(String::from("US")),
            },
            output: vec![cc(11), cc(12)],
        }],
        default_output: vec![cc(13)],
    });
    let id = engine
        .create_algorithm(scope, TransactionType::Payment, String::from("rb"), String::new(), body)
        .unwrap();
    engine.link_algorithm(scope, TransactionType::Payment, id).unwrap();
    let us = engine.decide_routing(scope, TransactionType::Payment, &country_bag("US")).unwrap();
    assert_eq!(us, vec![cc(11), cc(12)]);
    let de = engine.decide_routing(scope, TransactionType::Payment, &country_bag("DE")).unwrap();
    assert_eq!(de, vec![cc(13)]);
}

#[test]
fn first_matching_rule_wins_over_later_rules_and_default() {
    let mut engine = Engine::new();
    let scope = merchant(11);
    let mut make = |name: &str, connector: u64| {
        engine
            .create_algorithm(
                scope,
                TransactionType::Payment,
                String::from(name),
                String::new(),
                AlgorithmBody::PriorityFallback(vec![cc(connector)]),
            )
            .unwrap()
    };
    let a1 = make("r1", 1);
    let a2 = make("r2", 2);
    let a3 = make("dflt", 3);
    // both rule conditions hold of every bag
    let always = |out: RoutingOutput| Rule {
        condition: Expression::Compare {
            attribute: String::from("country"),
            op: CompareOp::Eq,
            literal: Literal::Text(String::from("US")),
        },
        output: out,
    };
    let program = RuleProgram {
        rules: vec![
            always(RoutingOutput::UseAlgorithm { algorithm_id: a1 }),
            always(RoutingOutput::UseAlgorithm { algorithm_id: a2 }),
        ],
        default_output: RoutingOutput::UseAlgorithm { algorithm_id: a3 },
    };
    engine.upsert_conditional_config(scope, program).unwrap();
    let routed = engine.decide_routing(scope, TransactionType::Payment, &country_bag("US")).unwrap();
    assert_eq!(routed, vec![cc(1)]);
}

#[test]
fn stale_algorithm_reference_degrades_to_fallback() {
    let mut engine = Engine::new();
    let scope = merchant(12);
    engine
        .update_default_fallback(scope, TransactionType::Payment, vec![cc(9)])
        .unwrap();
    // the program names an algorithm id that does not exist
    let program = RuleProgram {
        rules: Vec::new(),
        default_output: RoutingOutput::UseAlgorithm { algorithm_id: 424242 },
    };
    engine.upsert_conditional_config(scope, program).unwrap();
    let routed = engine.decide_routing(scope, TransactionType::Payment, &empty_bag()).unwrap();
    assert_eq!(routed, vec![cc(9)]);
}

#[test]
fn exhausted_tiers_fail_with_no_routing_destination() {
    let engine = Engine::new();
    let scope = merchant(13);
    let r = engine.decide_routing(scope, TransactionType::Payment, &empty_bag());
    assert_eq!(r, Err(RoutingError::NoRoutingDestination));
}

#[test]
fn held_scope_lock_blocks_mutation_until_released() {
    let mut engine = Engine::new();
    let scope = merchant(14);
    let key = LockKey::Activation { scope, transaction_type: TransactionType::Payment };
    engine.acquire_scope_lock(key).unwrap();
    let blocked = engine.update_default_fallback(scope, TransactionType::Payment, vec![cc(1)]);
    assert_eq!(blocked, Err(RoutingError::ConcurrentModification));
    // a second acquire of the held key is refused too
    assert_eq!(engine.acquire_scope_lock(key), Err(RoutingError::ConcurrentModification));
    engine.release_scope_lock(key);
    engine
        .update_default_fallback(scope, TransactionType::Payment, vec![cc(1)])
        .unwrap();
}

#[test]
fn foreign_scope_cannot_get_or_link_another_merchants_algorithm() {
    let mut engine = Engine::new();
    let owner = merchant(15);
    let intruder = merchant(16);
    let id = engine
        .create_algorithm(
            owner,
            TransactionType::Payment,
            String::from("private"),
            String::new(),
            AlgorithmBody::PriorityFallback(vec![cc(1)]),
        )
        .unwrap();
    assert_eq!(engine.get_algorithm(intruder, id).unwrap_err(), RoutingError::NotFound);
    assert_eq!(
        engine.link_algorithm(intruder, TransactionType::Payment, id),
        Err(RoutingError::NotFound)
    );
    assert_eq!(engine.get_algorithm(intruder, 999).unwrap_err(), RoutingError::NotFound);
}

#[test]
fn merchant_scope_owns_its_profiles_records() {
    let mut engine = Engine::new();
    let profile = Scope::Profile { merchant_id: 17, profile_id: 1 };
    let whole_merchant = merchant(17);
    let id = engine
        .create_algorithm(
            profile,
            TransactionType::Payment,
            String::from("profile algo"),
            String::new(),
            AlgorithmBody::PriorityFallback(vec![cc(1)]),
        )
        .unwrap();
    assert!(engine.get_algorithm(whole_merchant, id).is_ok());
    let other_profile = Scope::Profile { merchant_id: 17, profile_id: 2 };
    assert_eq!(engine.get_algorithm(other_profile, id).unwrap_err(), RoutingError::NotFound);
}
