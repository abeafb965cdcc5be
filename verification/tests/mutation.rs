use envoy_filters::admin::{add_rule_request, update_rule_request, AdminError};
use envoy_filters::mutation::{convert_rule_config, wildcard_match, MutationEngine};
use envoy_filters::proto::{
    FieldCondition, FieldMutation, MutationRule, ProcessMessageRequest, ProtoField, RuleMatch,
    CONDITION_OP_CONTAINS, CONDITION_OP_EQUALS, CONDITION_OP_EXISTS, CONDITION_OP_NOT_EQUALS,
    CONDITION_OP_NOT_EXISTS, DIRECTION_REQUEST, DIRECTION_RESPONSE, DIRECTION_UNSPECIFIED,
    FIELD_TYPE_FIXED32, FIELD_TYPE_FIXED64, FIELD_TYPE_LENGTH_DELIMITED, FIELD_TYPE_VARINT,
    MUTATION_OP_ADD, MUTATION_OP_REMOVE, MUTATION_OP_SET, RESPONSE_ACTION_CONTINUE,
    RESPONSE_ACTION_MUTATE_FIELDS, RESPONSE_ACTION_REJECT, RESPONSE_ACTION_REPLACE_BODY,
};
use envoy_filters::proto_encode::encode_varint;
use envoy_filters::service_config::{
    FieldConditionConfig, MatchConfig, MutationConfig, RuleConfig, ServiceConfig,
};
use uuid::Uuid;

fn make_request(
    service: &str,
    method: &str,
    direction: i32,
    fields: Vec<ProtoField>,
) -> ProcessMessageRequest {
    ProcessMessageRequest {
        service_name: service.to_string(),
        method_name: method.to_string(),
        direction,
        raw_body: Vec::new(),
        decoded_fields: fields,
    }
}

fn make_rule(
    name: &str,
    services: Vec<&str>,
    methods: Vec<&str>,
    direction: i32,
    action: i32,
    mutations: Vec<FieldMutation>,
) -> MutationRule {
    MutationRule {
        id: Uuid::new_v4().to_string(),
        name: name.to_string(),
        match_criteria: Some(RuleMatch {
            services: services.into_iter().map(String::from).collect(),
            methods: methods.into_iter().map(String::from).collect(),
            direction,
            field_conditions: Vec::new(),
        }),
        action,
        mutations,
        replace_body: Vec::new(),
        priority: 0,
        enabled: true,
    }
}

fn field(number: u32, raw: Vec<u8>) -> ProtoField {
    ProtoField { field_number: number, field_type: 0, raw_value: raw, display_value: String::new() }
}

fn add_mutation(number: u32) -> FieldMutation {
    FieldMutation {
        operation: MUTATION_OP_ADD,
        field_number: number,
        field_type: FIELD_TYPE_VARINT,
        value: encode_varint(1),
    }
}

#[test]
fn test_no_rules_returns_continue() {
    let engine = MutationEngine::new();
    let req = make_request("svc", "method", 1, Vec::new());
    let resp = engine.evaluate(&req);
    assert_eq!(resp.action, RESPONSE_ACTION_CONTINUE);
}

#[test]
fn test_matching_rule_applies_mutations() {
    let mut engine = MutationEngine::new();
    engine.add_rule(make_rule(
        "test",
        vec!["*"],
        vec!["*"],
        DIRECTION_UNSPECIFIED,
        RESPONSE_ACTION_MUTATE_FIELDS,
        vec![FieldMutation {
            operation: MUTATION_OP_ADD,
            field_number: 100,
            field_type: FIELD_TYPE_LENGTH_DELIMITED,
            value: b"injected".to_vec(),
        }],
    ));

    let req = make_request("mypackage.Service", "GetUser", DIRECTION_REQUEST, Vec::new());
    let resp = engine.evaluate(&req);
    assert_eq!(resp.action, RESPONSE_ACTION_MUTATE_FIELDS);
    assert_eq!(resp.mutations.len(), 1);
    assert_eq!(resp.mutations[0].field_number, 100);
}

#[test]
fn test_direction_filter() {
    let mut engine = MutationEngine::new();
    engine.add_rule(make_rule(
        "request-only",
        vec!["*"],
        vec!["*"],
        DIRECTION_REQUEST,
        RESPONSE_ACTION_MUTATE_FIELDS,
        vec![FieldMutation {
            operation: MUTATION_OP_ADD,
            field_number: 50,
            field_type: FIELD_TYPE_VARINT,
            value: encode_varint(1),
        }],
    ));

    // Should match request
    let req = make_request("svc", "m", DIRECTION_REQUEST, Vec::new());
    let resp = engine.evaluate(&req);
    assert_eq!(resp.mutations.len(), 1);

    // Should not match response
    let req = make_request("svc", "m", DIRECTION_RESPONSE, Vec::new());
    let resp = engine.evaluate(&req);
    assert!(resp.mutations.is_empty());
}

#[test]
fn test_service_wildcard_match() {
    let mut engine = MutationEngine::new();
    engine.add_rule(make_rule(
        "mypackage-only",
        vec!["mypackage.*"],
        vec!["*"],
        DIRECTION_UNSPECIFIED,
        RESPONSE_ACTION_MUTATE_FIELDS,
        vec![FieldMutation {
            operation: MUTATION_OP_ADD,
            field_number: 10,
            field_type: FIELD_TYPE_VARINT,
            value: encode_varint(1),
        }],
    ));

    let req = make_request("mypackage.UserService", "Get", 1, Vec::new());
    let resp = engine.evaluate(&req);
    assert_eq!(resp.mutations.len(), 1);

    let req = make_request("other.Service", "Get", 1, Vec::new());
    let resp = engine.evaluate(&req);
    assert!(resp.mutations.is_empty());
}

#[test]
fn test_reject_stops_evaluation() {
    let mut engine = MutationEngine::new();
    engine.add_rule(make_rule("reject", vec!["*"], vec!["*"], 0, RESPONSE_ACTION_REJECT, Vec::new()));
    engine.add_rule(make_rule(
        "add-field",
        vec!["*"],
        vec!["*"],
        0,
        RESPONSE_ACTION_MUTATE_FIELDS,
        vec![FieldMutation {
            operation: MUTATION_OP_ADD,
            field_number: 1,
            field_type: 0,
            value: encode_varint(1),
        }],
    ));

    let req = make_request("svc", "m", 1, Vec::new());
    let resp = engine.evaluate(&req);
    assert_eq!(resp.action, RESPONSE_ACTION_REJECT);
    assert!(resp.mutations.is_empty());
}

#[test]
fn test_add_and_remove_rule() {
    let mut engine = MutationEngine::new();
    let id = engine.add_rule(make_rule("temp", vec!["*"], vec!["*"], 0, RESPONSE_ACTION_REJECT, Vec::new()));
    assert_eq!(engine.list_rules().len(), 1);

    let removed = engine.remove_rule(&id);
    assert!(removed);
    assert!(engine.list_rules().is_empty());
}

#[test]
fn test_field_condition_exists() {
    let mut engine = MutationEngine::new();
    let mut rule = make_rule(
        "if-field-1-exists",
        vec!["*"],
        vec!["*"],
        0,
        RESPONSE_ACTION_MUTATE_FIELDS,
        vec![FieldMutation {
            operation: MUTATION_OP_ADD,
            field_number: 99,
            field_type: FIELD_TYPE_LENGTH_DELIMITED,
            value: b"matched".to_vec(),
        }],
    );
    if let Some(ref mut mc) = rule.match_criteria {
        mc.field_conditions.push(FieldCondition {
            field_number: 1,
            operator: CONDITION_OP_EXISTS,
            value: Vec::new(),
        });
    }
    engine.add_rule(rule);

    // With field 1 present
    let req = make_request(
        "svc",
        "m",
        1,
        vec![ProtoField {
            field_number: 1,
            field_type: 0,
            raw_value: encode_varint(42),
            display_value: "42".to_string(),
        }],
    );
    let resp = engine.evaluate(&req);
    assert_eq!(resp.mutations.len(), 1);

    // Without field 1
    let req = make_request("svc", "m", 1, Vec::new());
    let resp = engine.evaluate(&req);
    assert!(resp.mutations.is_empty());
}

#[test]
fn wildcard_patterns() {
    assert!(wildcard_match("mypackage.*", "mypackage.UserService"));
    assert!(wildcard_match("*", ""));
    assert!(wildcard_match("Get", "Get"));
    assert!(!wildcard_match("Get", "GetUser"));
    assert!(!wildcard_match("a*", "b"));
}

#[test]
fn rules_are_evaluated_by_descending_priority() {
    let mut engine = MutationEngine::new();
    let mut low = make_rule("low", vec![], vec![], 0, RESPONSE_ACTION_MUTATE_FIELDS, vec![add_mutation(1)]);
    low.priority = 1;
    let mut high = make_rule("high", vec![], vec![], 0, RESPONSE_ACTION_MUTATE_FIELDS, vec![add_mutation(2)]);
    high.priority = 5;
    engine.add_rule(low);
    engine.add_rule(high);
    let names: Vec<String> = engine.list_rules().iter().map(|r| r.name.clone()).collect();
    assert_eq!(names, vec!["high".to_string(), "low".to_string()]);
    let resp = engine.evaluate(&make_request("svc", "m", 1, Vec::new()));
    assert_eq!(resp.mutations[0].field_number, 2);
    assert_eq!(resp.mutations[1].field_number, 1);
    assert_eq!(
        resp.headers_to_add,
        vec![("x-proto-mutations-applied".to_string(), "2".to_string())]
    );
}

#[test]
fn equal_priorities_keep_insertion_order() {
    let mut engine = MutationEngine::new();
    engine.add_rule(make_rule("a", vec![], vec![], 0, RESPONSE_ACTION_CONTINUE, Vec::new()));
    engine.add_rule(make_rule("b", vec![], vec![], 0, RESPONSE_ACTION_CONTINUE, Vec::new()));
    engine.add_rule(make_rule("c", vec![], vec![], 0, RESPONSE_ACTION_CONTINUE, Vec::new()));
    let names: Vec<String> = engine.list_rules().iter().map(|r| r.name.clone()).collect();
    assert_eq!(names, vec!["a".to_string(), "b".to_string(), "c".to_string()]);
}

#[test]
fn replace_body_stops_evaluation_and_carries_the_body() {
    let mut engine = MutationEngine::new();
    engine.add_rule(make_rule("m", vec![], vec![], 0, RESPONSE_ACTION_MUTATE_FIELDS, vec![add_mutation(3)]));
    let mut replace = make_rule("r", vec![], vec![], 0, RESPONSE_ACTION_REPLACE_BODY, Vec::new());
    replace.replace_body = b"xyz".to_vec();
    engine.add_rule(replace);
    engine.add_rule(make_rule("later", vec![], vec![], 0, RESPONSE_ACTION_MUTATE_FIELDS, vec![add_mutation(4)]));
    let resp = engine.evaluate(&make_request("svc", "m", 1, Vec::new()));
    assert_eq!(resp.action, RESPONSE_ACTION_REPLACE_BODY);
    assert_eq!(resp.replaced_body, b"xyz".to_vec());
    assert_eq!(resp.mutations.len(), 1);
    assert_eq!(resp.mutations[0].field_number, 3);
}

#[test]
fn disabled_rules_and_rules_without_criteria() {
    let mut engine = MutationEngine::new();
    let mut off = make_rule("off", vec![], vec![], 0, RESPONSE_ACTION_REJECT, Vec::new());
    off.enabled = false;
    engine.add_rule(off);
    let mut all = make_rule("all", vec![], vec![], 0, RESPONSE_ACTION_MUTATE_FIELDS, vec![add_mutation(8)]);
    all.match_criteria = None;
    engine.add_rule(all);
    let resp = engine.evaluate(&make_request("any", "thing", 2, Vec::new()));
    assert_eq!(resp.action, RESPONSE_ACTION_MUTATE_FIELDS);
    assert_eq!(resp.mutations.len(), 1);
}

#[test]
fn method_lists_restrict_matches() {
    let mut engine = MutationEngine::new();
    engine.add_rule(make_rule("get", vec![], vec!["Get*", "List"], 0, RESPONSE_ACTION_REJECT, Vec::new()));
    assert_eq!(engine.evaluate(&make_request("s", "GetUser", 1, Vec::new())).action, RESPONSE_ACTION_REJECT);
    assert_eq!(engine.evaluate(&make_request("s", "List", 1, Vec::new())).action, RESPONSE_ACTION_REJECT);
    assert_eq!(engine.evaluate(&make_request("s", "Delete", 1, Vec::new())).action, RESPONSE_ACTION_CONTINUE);
}

fn condition_rule(operator: i32, value: &[u8]) -> MutationEngine {
    let mut engine = MutationEngine::new();
    let mut rule = make_rule("c", vec![], vec![], 0, RESPONSE_ACTION_REJECT, Vec::new());
    if let Some(ref mut mc) = rule.match_criteria {
        mc.field_conditions.push(FieldCondition { field_number: 2, operator, value: value.to_vec() });
    }
    engine.add_rule(rule);
    engine
}

fn rejects(engine: &MutationEngine, fields: Vec<ProtoField>) -> bool {
    engine.evaluate(&make_request("s", "m", 1, fields)).action == RESPONSE_ACTION_REJECT
}

#[test]
fn field_condition_operators() {
    let e = condition_rule(CONDITION_OP_NOT_EXISTS, b"");
    assert!(rejects(&e, vec![field(1, vec![1])]));
    assert!(!rejects(&e, vec![field(2, vec![1])]));

    let e = condition_rule(CONDITION_OP_EQUALS, b"ab");
    assert!(rejects(&e, vec![field(2, b"ab".to_vec())]));
    assert!(!rejects(&e, vec![field(2, b"abc".to_vec())]));
    assert!(!rejects(&e, Vec::new()));
    // the first field with the number is the one compared
    assert!(!rejects(&e, vec![field(2, b"x".to_vec()), field(2, b"ab".to_vec())]));

    let e = condition_rule(CONDITION_OP_NOT_EQUALS, b"ab");
    assert!(rejects(&e, Vec::new()));
    assert!(rejects(&e, vec![field(2, b"x".to_vec())]));
    assert!(!rejects(&e, vec![field(2, b"ab".to_vec())]));

    let e = condition_rule(CONDITION_OP_CONTAINS, b"ell");
    assert!(rejects(&e, vec![field(2, b"hello".to_vec())]));
    assert!(!rejects(&e, vec![field(2, b"help".to_vec())]));
    assert!(!rejects(&e, Vec::new()));

    // bytes that are not UTF-8 are searched as a byte sequence
    let e = condition_rule(CONDITION_OP_CONTAINS, &[0xff, 0x01]);
    assert!(rejects(&e, vec![field(2, vec![0, 0xff, 0x01, 2])]));
    assert!(!rejects(&e, vec![field(2, vec![0xff, 0x02])]));

    // an unknown operator always holds
    let e = condition_rule(42, b"");
    assert!(rejects(&e, Vec::new()));
}

#[test]
fn evaluation_panics_only_on_empty_byte_search() {
    let e = condition_rule(CONDITION_OP_CONTAINS, &[]);
    assert!(e.evaluation_panics(&make_request("s", "m", 1, vec![field(2, vec![0xff])])));
    assert!(!e.evaluation_panics(&make_request("s", "m", 1, vec![field(2, b"text".to_vec())])));
    assert!(!e.evaluation_panics(&make_request("s", "m", 1, Vec::new())));
}

#[test]
fn add_rule_keeps_a_given_identifier_and_invents_a_uuid_otherwise() {
    let mut engine = MutationEngine::new();
    let mut rule = make_rule("named", vec![], vec![], 0, RESPONSE_ACTION_CONTINUE, Vec::new());
    rule.id = "my-id".to_string();
    assert_eq!(engine.add_rule(rule), "my-id");
    let mut rule = make_rule("anon", vec![], vec![], 0, RESPONSE_ACTION_CONTINUE, Vec::new());
    rule.id = String::new();
    let id = engine.add_rule(rule);
    assert_eq!(id.len(), 36);
    assert_eq!(id.as_bytes()[14], b'4');
    assert!(Uuid::parse_str(&id).is_ok());
    assert!(!engine.remove_rule("unknown"));
    assert!(engine.remove_rule("my-id"));
    assert_eq!(engine.list_rules().len(), 1);
}

#[test]
fn update_rule_replaces_a_known_rule_and_resorts() {
    let mut engine = MutationEngine::new();
    let mut a = make_rule("a", vec![], vec![], 0, RESPONSE_ACTION_CONTINUE, Vec::new());
    a.id = "a".to_string();
    let mut b = make_rule("b", vec![], vec![], 0, RESPONSE_ACTION_CONTINUE, Vec::new());
    b.id = "b".to_string();
    engine.add_rule(a);
    engine.add_rule(b);
    let mut b2 = make_rule("b2", vec![], vec![], 0, RESPONSE_ACTION_CONTINUE, Vec::new());
    b2.id = "b".to_string();
    b2.priority = 10;
    assert!(engine.update_rule(b2));
    let names: Vec<String> = engine.list_rules().iter().map(|r| r.name.clone()).collect();
    assert_eq!(names, vec!["b2".to_string(), "a".to_string()]);
    let mut c = make_rule("c", vec![], vec![], 0, RESPONSE_ACTION_CONTINUE, Vec::new());
    c.id = "c".to_string();
    assert!(!engine.update_rule(c));
    assert_eq!(engine.list_rules().len(), 2);
}

#[test]
fn dynamic_values_are_resolved() {
    let mut engine = MutationEngine::new();
    engine.add_rule(make_rule(
        "dyn",
        vec![],
        vec![],
        0,
        RESPONSE_ACTION_MUTATE_FIELDS,
        vec![
            FieldMutation { operation: MUTATION_OP_SET, field_number: 1, field_type: FIELD_TYPE_LENGTH_DELIMITED, value: b"$uuid".to_vec() },
            FieldMutation { operation: MUTATION_OP_SET, field_number: 2, field_type: FIELD_TYPE_LENGTH_DELIMITED, value: b"$timestamp".to_vec() },
            FieldMutation { operation: MUTATION_OP_SET, field_number: 3, field_type: FIELD_TYPE_VARINT, value: b"$timestamp".to_vec() },
            FieldMutation { operation: MUTATION_OP_REMOVE, field_number: 4, field_type: 0, value: b"plain".to_vec() },
        ],
    ));
    let resp = engine.evaluate(&make_request("s", "m", 1, Vec::new()));
    assert_eq!(resp.mutations.len(), 4);
    let id = String::from_utf8(resp.mutations[0].value.clone()).unwrap();
    assert!(Uuid::parse_str(&id).is_ok());
    let text = String::from_utf8(resp.mutations[1].value.clone()).unwrap();
    let secs: u64 = text.parse().unwrap();
    assert!(secs > 1_600_000_000);
    let (stamp, used) = envoy_filters::proto_decode::read_varint(&resp.mutations[2].value).unwrap();
    assert_eq!(used, resp.mutations[2].value.len());
    assert!(stamp >= secs && stamp <= secs + 60);
    assert_eq!(resp.mutations[3].value, b"plain".to_vec());
    assert_eq!(resp.mutations[3].operation, MUTATION_OP_REMOVE);
}

fn rule_config(action: &str, priority: i32) -> RuleConfig {
    RuleConfig {
        name: format!("{}-{}", action, priority),
        match_criteria: MatchConfig {
            services: vec!["*".to_string()],
            methods: Vec::new(),
            direction: "request".to_string(),
            field_conditions: vec![FieldConditionConfig {
                field_number: 3,
                operator: "not_equals".to_string(),
                value: Some("x".to_string()),
            }],
        },
        action: action.to_string(),
        mutations: vec![
            MutationConfig {
                operation: "add".to_string(),
                field_number: 5,
                field_type: "varint".to_string(),
                value: Some("300".to_string()),
                value_source: "static".to_string(),
            },
            MutationConfig {
                operation: "bogus".to_string(),
                field_number: 6,
                field_type: "fixed32".to_string(),
                value: Some("not a number".to_string()),
                value_source: "static".to_string(),
            },
            MutationConfig {
                operation: "remove".to_string(),
                field_number: 7,
                field_type: "fixed64".to_string(),
                value: Some("+1".to_string()),
                value_source: "static".to_string(),
            },
            MutationConfig {
                operation: "set".to_string(),
                field_number: 8,
                field_type: "string".to_string(),
                value: None,
                value_source: "uuid".to_string(),
            },
        ],
        replace_body: Some("eHl6".to_string()),
        priority,
        enabled: true,
    }
}

#[test]
fn rule_configs_convert_to_rules() {
    let rule = convert_rule_config(&rule_config("mutate_fields", 3));
    assert_eq!(rule.name, "mutate_fields-3");
    assert_eq!(rule.action, RESPONSE_ACTION_MUTATE_FIELDS);
    assert!(Uuid::parse_str(&rule.id).is_ok());
    assert_eq!(rule.replace_body, b"xyz".to_vec());
    let mc = rule.match_criteria.as_ref().unwrap();
    assert_eq!(mc.direction, DIRECTION_REQUEST);
    assert_eq!(mc.field_conditions[0].operator, CONDITION_OP_NOT_EQUALS);
    assert_eq!(mc.field_conditions[0].value, b"x".to_vec());
    assert_eq!(rule.mutations[0].operation, MUTATION_OP_ADD);
    assert_eq!(rule.mutations[0].field_type, FIELD_TYPE_VARINT);
    assert_eq!(rule.mutations[0].value, vec![0xAC, 0x02]);
    assert_eq!(rule.mutations[1].operation, MUTATION_OP_SET);
    assert_eq!(rule.mutations[1].field_type, FIELD_TYPE_FIXED32);
    assert_eq!(rule.mutations[1].value, vec![0, 0, 0, 0]);
    assert_eq!(rule.mutations[2].operation, MUTATION_OP_REMOVE);
    assert_eq!(rule.mutations[2].field_type, FIELD_TYPE_FIXED64);
    assert_eq!(rule.mutations[2].value, vec![1, 0, 0, 0, 0, 0, 0, 0]);
    assert_eq!(rule.mutations[3].field_type, FIELD_TYPE_LENGTH_DELIMITED);
    assert_eq!(rule.mutations[3].value, b"$uuid".to_vec());
    assert_eq!(convert_rule_config(&rule_config("what", 0)).action, RESPONSE_ACTION_CONTINUE);
    assert_eq!(convert_rule_config(&rule_config("reject", 0)).action, RESPONSE_ACTION_REJECT);
    assert_eq!(convert_rule_config(&rule_config("replace_body", 0)).action, RESPONSE_ACTION_REPLACE_BODY);
}

#[test]
fn engine_from_config_sorts_rules_by_priority() {
    let config = ServiceConfig {
        listen_addr: "0.0.0.0:1".to_string(),
        rules: vec![rule_config("reject", 1), rule_config("mutate_fields", 9), rule_config("continue", 1)],
    };
    let engine = MutationEngine::from_config(&config);
    let names: Vec<String> = engine.list_rules().iter().map(|r| r.name.clone()).collect();
    assert_eq!(names, vec!["mutate_fields-9".to_string(), "reject-1".to_string(), "continue-1".to_string()]);
    let resp = engine.evaluate(&make_request("svc", "m", DIRECTION_REQUEST, Vec::new()));
    assert_eq!(resp.action, RESPONSE_ACTION_REJECT);
    assert_eq!(resp.mutations.len(), 4);
    // response direction matches none of the rules
    let resp = engine.evaluate(&make_request("svc", "m", DIRECTION_RESPONSE, Vec::new()));
    assert_eq!(resp.action, RESPONSE_ACTION_CONTINUE);
    assert!(resp.headers_to_add.is_empty());
}

#[test]
fn admin_requests_without_a_rule_are_refused() {
    let mut engine = MutationEngine::new();
    let refused = add_rule_request(&mut engine, None);
    assert!(matches!(refused, Err(AdminError::RuleRequired)));
    assert_eq!(refused.unwrap_err().message(), "rule is required");
    assert!(matches!(update_rule_request(&mut engine, None), Err(AdminError::RuleRequired)));
    assert!(engine.list_rules().is_empty());

    let mut rule = make_rule("r", vec![], vec![], 0, RESPONSE_ACTION_REJECT, Vec::new());
    rule.id = "rid".to_string();
    assert_eq!(add_rule_request(&mut engine, Some(rule)).unwrap(), "rid");
    let mut changed = make_rule("r2", vec![], vec![], 0, RESPONSE_ACTION_CONTINUE, Vec::new());
    changed.id = "rid".to_string();
    assert!(update_rule_request(&mut engine, Some(changed)).unwrap());
    assert_eq!(engine.list_rules()[0].name, "r2");
    let mut missing = make_rule("m", vec![], vec![], 0, RESPONSE_ACTION_CONTINUE, Vec::new());
    missing.id = "nope".to_string();
    assert!(!update_rule_request(&mut engine, Some(missing)).unwrap());
}

#[test]
fn replacement_body_that_is_not_base64_is_taken_as_text() {
    let mut cfg = rule_config("replace_body", 0);
    cfg.replace_body = Some("not base64!".to_string());
    assert_eq!(convert_rule_config(&cfg).replace_body, b"not base64!".to_vec());
    cfg.replace_body = None;
    assert!(convert_rule_config(&cfg).replace_body.is_empty());
}

#[test]
fn timestamp_values_by_field_type() {
    assert_eq!(envoy_filters::mutation::timestamp_bytes(FIELD_TYPE_VARINT, 300), vec![0xAC, 0x02]);
    assert_eq!(envoy_filters::mutation::timestamp_bytes(FIELD_TYPE_LENGTH_DELIMITED, 1700000000), b"1700000000".to_vec());
    assert_eq!(envoy_filters::mutation::timestamp_bytes(FIELD_TYPE_FIXED64, 0), b"0".to_vec());
}

#[test]
fn removing_and_updating_keep_priority_order() {
    let mut engine = MutationEngine::new();
    for (name, priority) in [("a", 3), ("b", 1), ("c", 2), ("d", 3)] {
        let mut r = make_rule(name, vec![], vec![], 0, RESPONSE_ACTION_CONTINUE, Vec::new());
        r.id = name.to_string();
        r.priority = priority;
        engine.add_rule(r);
    }
    let names = |e: &MutationEngine| e.list_rules().iter().map(|r| r.name.clone()).collect::<Vec<String>>();
    assert_eq!(names(&engine), vec!["a", "d", "c", "b"]);
    assert!(engine.remove_rule("d"));
    assert_eq!(names(&engine), vec!["a", "c", "b"]);
    let mut b = make_rule("b", vec![], vec![], 0, RESPONSE_ACTION_CONTINUE, Vec::new());
    b.id = "b".to_string();
    b.priority = 9;
    assert!(engine.update_rule(b));
    assert_eq!(names(&engine), vec!["b", "a", "c"]);
}

#[test]
fn response_headers_have_distinct_names() {
    let mut engine = MutationEngine::new();
    engine.add_rule(make_rule("a", vec![], vec![], 0, RESPONSE_ACTION_MUTATE_FIELDS, vec![add_mutation(1)]));
    engine.add_rule(make_rule("b", vec![], vec![], 0, RESPONSE_ACTION_MUTATE_FIELDS, vec![add_mutation(2)]));
    let resp = engine.evaluate(&make_request("s", "m", 1, Vec::new()));
    assert_eq!(resp.headers_to_add.len(), 1);
    assert_eq!(resp.headers_to_add[0].1, "2");
}
