//! The decisions of the rule administration service: which requests are
//! refused, and what an accepted one does to the engine.

use vstd::prelude::*;
use crate::mutation::{find_rule, is_uuid_text, sort_by_priority, with_id, MutationEngine};
use crate::proto::MutationRule;

verus! {

/// Why an administration request is refused.
#[derive(Debug)]
pub enum AdminError {
    /// The request carries no rule.
    RuleRequired,
}

impl AdminError {
    /// The text that the refusal is answered with.
    pub fn message(&self) -> (s: String)
        ensures
            self is RuleRequired ==> s@ == "rule is required"@,
    {
        match self {
            AdminError::RuleRequired => String::from_str("rule is required"),
        }
    }
}

/// Add the rule that a request carries and return its identifier; a request
/// without a rule is refused and changes nothing.
pub fn add_rule_request(engine: &mut MutationEngine, rule: Option<MutationRule>) -> (r: Result<String, AdminError>)
    ensures
        match rule {
            None => r matches Err(AdminError::RuleRequired) && final(engine)@ == old(engine)@,
            Some(added) => r matches Ok(id) && {
                &&& added.id@.len() != 0 ==> id@ == added.id@
                &&& added.id@.len() == 0 ==> is_uuid_text(id@)
                &&& final(engine)@ == sort_by_priority(
                    old(engine)@.push(with_id(added.deep_view(), id@)),
                )
            },
        },
{
    match rule {
        None => Err(AdminError::RuleRequired),
        Some(added) => Ok(engine.add_rule(added)),
    }
}

/// Replace the rule with the identifier of the rule that a request carries,
/// and tell whether there was one; a request without a rule is refused and
/// changes nothing.
pub fn update_rule_request(engine: &mut MutationEngine, rule: Option<MutationRule>) -> (r: Result<bool, AdminError>)
    ensures
        match rule {
            None => r matches Err(AdminError::RuleRequired) && final(engine)@ == old(engine)@,
            Some(updated) => r matches Ok(found) && match find_rule(old(engine)@, updated.id@, 0) {
                Some(i) => found && final(engine)@ == sort_by_priority(
                    old(engine)@.update(i as int, updated.deep_view()),
                ),
                None => !found && final(engine)@ == old(engine)@,
            },
        },
{
    match rule {
        None => Err(AdminError::RuleRequired),
        Some(updated) => Ok(engine.update_rule(updated)),
    }
}

} // verus!
