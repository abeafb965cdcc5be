//! Configuration of the mutation service: listen address and rules.

use vstd::prelude::*;

verus! {

/// The service configuration.
#[derive(Debug)]
pub struct ServiceConfig {
    /// Address to listen on
    pub listen_addr: String,
    /// Mutation rules to load at startup
    pub rules: Vec<RuleConfig>,
}

/// A rule as configured.
#[derive(Debug)]
pub struct RuleConfig {
    /// Human-readable rule name
    pub name: String,
    /// Matching criteria
    pub match_criteria: MatchConfig,
    /// Action to take: "continue", "mutate_fields", "replace_body", "reject"
    pub action: String,
    /// Mutations to apply
    pub mutations: Vec<MutationConfig>,
    /// Replacement body (base64-encoded, for replace_body action)
    pub replace_body: Option<String>,
    /// Rule priority (higher = evaluated first)
    pub priority: i32,
    /// Whether the rule is active
    pub enabled: bool,
}

/// The messages that a configured rule applies to.
#[derive(Debug)]
pub struct MatchConfig {
    /// gRPC service patterns (empty or ["*"] = all)
    pub services: Vec<String>,
    /// gRPC method patterns (empty or ["*"] = all)
    pub methods: Vec<String>,
    /// Direction: "request", "response", or "both" (default)
    pub direction: String,
    /// Optional field conditions
    pub field_conditions: Vec<FieldConditionConfig>,
}

/// A configured condition on a field.
#[derive(Debug)]
pub struct FieldConditionConfig {
    pub field_number: u32,
    /// Operator: "exists", "not_exists", "equals", "not_equals", "contains"
    pub operator: String,
    /// Value to compare (interpreted based on context)
    pub value: Option<String>,
}

/// A configured mutation.
#[derive(Debug)]
pub struct MutationConfig {
    /// Operation: "set", "add", "remove"
    pub operation: String,
    /// Target protobuf field number
    pub field_number: u32,
    /// Wire type: "varint", "fixed64", "length_delimited", "fixed32"
    pub field_type: String,
    /// Value as a string (interpreted based on field_type):
    ///   - varint: parsed as integer
    ///   - length_delimited: used as UTF-8 string bytes
    ///   - fixed32: parsed as u32
    ///   - fixed64: parsed as u64
    pub value: Option<String>,
    /// Value source for dynamic values: "static" (default), "uuid", "timestamp"
    pub value_source: String,
}

pub fn default_listen_addr() -> (s: String)
    ensures
        s@ == "0.0.0.0:50051"@,
{
    String::from_str("0.0.0.0:50051")
}

pub fn default_action() -> (s: String)
    ensures
        s@ == "mutate_fields"@,
{
    String::from_str("mutate_fields")
}

pub fn default_direction() -> (s: String)
    ensures
        s@ == "both"@,
{
    String::from_str("both")
}

pub fn default_true() -> (b: bool)
    ensures
        b,
{
    true
}

pub fn default_field_type() -> (s: String)
    ensures
        s@ == "length_delimited"@,
{
    String::from_str("length_delimited")
}

pub fn default_value_source() -> (s: String)
    ensures
        s@ == "static"@,
{
    String::from_str("static")
}

impl Default for ServiceConfig {
    fn default() -> (c: Self)
        ensures
            c.listen_addr@ == "0.0.0.0:50051"@,
            c.rules@.len() == 0,
    {
        ServiceConfig { listen_addr: default_listen_addr(), rules: Vec::new() }
    }
}

impl Default for MatchConfig {
    fn default() -> (c: Self)
        ensures
            c.services@.len() == 0,
            c.methods@.len() == 0,
            c.direction@.len() == 0,
            c.field_conditions@.len() == 0,
    {
        MatchConfig {
            services: Vec::new(),
            methods: Vec::new(),
            direction: String::new(),
            field_conditions: Vec::new(),
        }
    }
}

} // verus!
