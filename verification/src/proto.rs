//! Messages and enum values of the proto_mutation.v1 service.

use vstd::prelude::*;

verus! {

// --- ResponseAction ---
pub const RESPONSE_ACTION_CONTINUE: i32 = 0;
pub const RESPONSE_ACTION_MUTATE_FIELDS: i32 = 1;
pub const RESPONSE_ACTION_REPLACE_BODY: i32 = 2;
pub const RESPONSE_ACTION_REJECT: i32 = 3;

// --- Direction ---
pub const DIRECTION_UNSPECIFIED: i32 = 0;
pub const DIRECTION_REQUEST: i32 = 1;
pub const DIRECTION_RESPONSE: i32 = 2;

// --- MutationOp ---
pub const MUTATION_OP_SET: i32 = 0;
pub const MUTATION_OP_ADD: i32 = 1;
pub const MUTATION_OP_REMOVE: i32 = 2;

// --- FieldType ---
pub const FIELD_TYPE_VARINT: i32 = 0;
pub const FIELD_TYPE_FIXED64: i32 = 1;
pub const FIELD_TYPE_LENGTH_DELIMITED: i32 = 2;
pub const FIELD_TYPE_FIXED32: i32 = 5;

// --- ConditionOp ---
pub const CONDITION_OP_EXISTS: i32 = 0;
pub const CONDITION_OP_NOT_EXISTS: i32 = 1;
pub const CONDITION_OP_EQUALS: i32 = 2;
pub const CONDITION_OP_NOT_EQUALS: i32 = 3;
pub const CONDITION_OP_CONTAINS: i32 = 4;

/// A decoded field as the filter sends it.
#[derive(Debug)]
pub struct ProtoField {
    pub field_number: u32,
    pub field_type: i32,
    pub raw_value: Vec<u8>,
    pub display_value: String,
}

/// A message sent for processing.
#[derive(Debug)]
pub struct ProcessMessageRequest {
    pub service_name: String,
    pub method_name: String,
    pub direction: i32,
    pub raw_body: Vec<u8>,
    pub decoded_fields: Vec<ProtoField>,
}

/// A change to one field of a message.
#[derive(Debug)]
pub struct FieldMutation {
    pub operation: i32,
    pub field_number: u32,
    pub field_type: i32,
    pub value: Vec<u8>,
}

/// No key occurs twice among the entries: the entries make up a map.
pub open spec fn distinct_keys(h: Seq<(Seq<char>, Seq<char>)>) -> bool {
    forall|i: int, j: int| 0 <= i < j < h.len() ==> (#[trigger] h[i]).0 != (#[trigger] h[j]).0
}

/// The answer to a ProcessMessageRequest.
#[derive(Debug)]
pub struct ProcessMessageResponse {
    pub action: i32,
    pub mutations: Vec<FieldMutation>,
    pub replaced_body: Vec<u8>,
    /// The entries of a map from header name to value: no name occurs twice
    /// (see `distinct_keys`).
    pub headers_to_add: Vec<(String, String)>,
}

/// A condition on a field of the message.
#[derive(Debug)]
pub struct FieldCondition {
    pub field_number: u32,
    pub operator: i32,
    pub value: Vec<u8>,
}

/// The messages that a rule applies to.
#[derive(Debug)]
pub struct RuleMatch {
    pub services: Vec<String>,
    pub methods: Vec<String>,
    pub direction: i32,
    pub field_conditions: Vec<FieldCondition>,
}

/// A mutation rule.
#[derive(Debug)]
pub struct MutationRule {
    pub id: String,
    pub name: String,
    pub match_criteria: Option<RuleMatch>,
    pub action: i32,
    pub mutations: Vec<FieldMutation>,
    pub replace_body: Vec<u8>,
    pub priority: i32,
    pub enabled: bool,
}

// ---------------------------------------------------------------------------
// Mathematical content
// ---------------------------------------------------------------------------

pub struct SpecProtoField {
    pub field_number: u32,
    pub field_type: i32,
    pub raw_value: Seq<u8>,
    pub display_value: Seq<char>,
}

pub struct SpecProcessMessageRequest {
    pub service_name: Seq<char>,
    pub method_name: Seq<char>,
    pub direction: i32,
    pub raw_body: Seq<u8>,
    pub decoded_fields: Seq<SpecProtoField>,
}

pub struct SpecFieldMutation {
    pub operation: i32,
    pub field_number: u32,
    pub field_type: i32,
    pub value: Seq<u8>,
}

pub struct SpecProcessMessageResponse {
    pub action: i32,
    pub mutations: Seq<SpecFieldMutation>,
    pub replaced_body: Seq<u8>,
    pub headers_to_add: Seq<(Seq<char>, Seq<char>)>,
}

pub struct SpecFieldCondition {
    pub field_number: u32,
    pub operator: i32,
    pub value: Seq<u8>,
}

pub struct SpecRuleMatch {
    pub services: Seq<Seq<char>>,
    pub methods: Seq<Seq<char>>,
    pub direction: i32,
    pub field_conditions: Seq<SpecFieldCondition>,
}

pub struct SpecMutationRule {
    pub id: Seq<char>,
    pub name: Seq<char>,
    pub match_criteria: Option<SpecRuleMatch>,
    pub action: i32,
    pub mutations: Seq<SpecFieldMutation>,
    pub replace_body: Seq<u8>,
    pub priority: i32,
    pub enabled: bool,
}

impl DeepView for ProtoField {
    type V = SpecProtoField;

    open spec fn deep_view(&self) -> SpecProtoField {
        SpecProtoField {
            field_number: self.field_number,
            field_type: self.field_type,
            raw_value: self.raw_value@,
            display_value: self.display_value@,
        }
    }
}

impl DeepView for ProcessMessageRequest {
    type V = SpecProcessMessageRequest;

    open spec fn deep_view(&self) -> SpecProcessMessageRequest {
        SpecProcessMessageRequest {
            service_name: self.service_name@,
            method_name: self.method_name@,
            direction: self.direction,
            raw_body: self.raw_body@,
            decoded_fields: self.decoded_fields.deep_view(),
        }
    }
}

impl DeepView for FieldMutation {
    type V = SpecFieldMutation;

    open spec fn deep_view(&self) -> SpecFieldMutation {
        SpecFieldMutation {
            operation: self.operation,
            field_number: self.field_number,
            field_type: self.field_type,
            value: self.value@,
        }
    }
}

impl DeepView for ProcessMessageResponse {
    type V = SpecProcessMessageResponse;

    open spec fn deep_view(&self) -> SpecProcessMessageResponse {
        SpecProcessMessageResponse {
            action: self.action,
            mutations: self.mutations.deep_view(),
            replaced_body: self.replaced_body@,
            headers_to_add: self.headers_to_add.deep_view(),
        }
    }
}

impl DeepView for FieldCondition {
    type V = SpecFieldCondition;

    open spec fn deep_view(&self) -> SpecFieldCondition {
        SpecFieldCondition {
            field_number: self.field_number,
            operator: self.operator,
            value: self.value@,
        }
    }
}

impl DeepView for RuleMatch {
    type V = SpecRuleMatch;

    open spec fn deep_view(&self) -> SpecRuleMatch {
        SpecRuleMatch {
            services: self.services.deep_view(),
            methods: self.methods.deep_view(),
            direction: self.direction,
            field_conditions: self.field_conditions.deep_view(),
        }
    }
}

impl DeepView for MutationRule {
    type V = SpecMutationRule;

    open spec fn deep_view(&self) -> SpecMutationRule {
        SpecMutationRule {
            id: self.id@,
            name: self.name@,
            match_criteria: match self.match_criteria {
                Some(m) => Some(m.deep_view()),
                None => None,
            },
            action: self.action,
            mutations: self.mutations.deep_view(),
            replace_body: self.replace_body@,
            priority: self.priority,
            enabled: self.enabled,
        }
    }
}

// ---------------------------------------------------------------------------
// Copies with the same content
// ---------------------------------------------------------------------------

/// A copy of a list of strings with the same content.
pub fn copy_strings(v: &Vec<String>) -> (r: Vec<String>)
    ensures
        r.deep_view() == v.deep_view(),
{
    let mut r: Vec<String> = Vec::new();
    let mut i: usize = 0;
    while i < v.len()
        invariant
            i <= v.len(),
            r.deep_view() =~= v.deep_view().take(i as int),
        decreases v.len() - i,
    {
        let ghost before = r.deep_view();
        let x = v[i].clone();
        r.push(x);
        assert(r.deep_view() =~= before.push(v.deep_view()[i as int]));
        assert(v.deep_view().take(i + 1) =~= v.deep_view().take(i as int).push(v.deep_view()[i as int]));
        i = i + 1;
    }
    assert(v.deep_view().take(v.len() as int) =~= v.deep_view());
    r
}

impl FieldMutation {
    /// A copy with the same content.
    pub fn duplicate(&self) -> (r: FieldMutation)
        ensures
            r.deep_view() == self.deep_view(),
    {
        FieldMutation {
            operation: self.operation,
            field_number: self.field_number,
            field_type: self.field_type,
            value: self.value.clone(),
        }
    }
}

/// A copy of a list of mutations with the same content.
pub fn copy_mutations(v: &Vec<FieldMutation>) -> (r: Vec<FieldMutation>)
    ensures
        r.deep_view() == v.deep_view(),
{
    let mut r: Vec<FieldMutation> = Vec::new();
    let mut i: usize = 0;
    while i < v.len()
        invariant
            i <= v.len(),
            r.deep_view() =~= v.deep_view().take(i as int),
        decreases v.len() - i,
    {
        let ghost before = r.deep_view();
        let x = v[i].duplicate();
        r.push(x);
        assert(r.deep_view() =~= before.push(v.deep_view()[i as int]));
        assert(v.deep_view().take(i + 1) =~= v.deep_view().take(i as int).push(v.deep_view()[i as int]));
        i = i + 1;
    }
    assert(v.deep_view().take(v.len() as int) =~= v.deep_view());
    r
}

impl FieldCondition {
    /// A copy with the same content.
    pub fn duplicate(&self) -> (r: FieldCondition)
        ensures
            r.deep_view() == self.deep_view(),
    {
        FieldCondition {
            field_number: self.field_number,
            operator: self.operator,
            value: self.value.clone(),
        }
    }
}

impl RuleMatch {
    /// A copy with the same content.
    pub fn duplicate(&self) -> (r: RuleMatch)
        ensures
            r.deep_view() == self.deep_view(),
    {
        let mut conditions: Vec<FieldCondition> = Vec::new();
        let mut i: usize = 0;
        while i < self.field_conditions.len()
            invariant
                i <= self.field_conditions.len(),
                conditions.deep_view() =~= self.field_conditions.deep_view().take(i as int),
            decreases self.field_conditions.len() - i,
        {
            let ghost before = conditions.deep_view();
            let ghost all = self.field_conditions.deep_view();
            let x = self.field_conditions[i].duplicate();
            conditions.push(x);
            assert(conditions.deep_view() =~= before.push(all[i as int]));
            assert(all.take(i + 1) =~= all.take(i as int).push(all[i as int]));
            i = i + 1;
        }
        assert(self.field_conditions.deep_view().take(self.field_conditions.len() as int)
            =~= self.field_conditions.deep_view());
        RuleMatch {
            services: copy_strings(&self.services),
            methods: copy_strings(&self.methods),
            direction: self.direction,
            field_conditions: conditions,
        }
    }
}

impl MutationRule {
    /// A copy with the same content.
    pub fn duplicate(&self) -> (r: MutationRule)
        ensures
            r.deep_view() == self.deep_view(),
    {
        MutationRule {
            id: self.id.clone(),
            name: self.name.clone(),
            match_criteria: match &self.match_criteria {
                Some(m) => Some(m.duplicate()),
                None => None,
            },
            action: self.action,
            mutations: copy_mutations(&self.mutations),
            replace_body: self.replace_body.clone(),
            priority: self.priority,
            enabled: self.enabled,
        }
    }
}

} // verus!
