//! `wf_infer`: runs a rule.

use vstd::prelude::*;
use vstd::string::*;

use crate::guest::{describes, never_constructed, never_constructed_text, one_function, unknown_function,
    unknown_function_text, FunctionDescriptor};
use crate::infer::engine::{begun, literal_of, next, require_literal, text_view, Rule, Stage};
use crate::host::{Reply, Request};
use crate::rdf::Term;
use crate::text::{same, views};

verus! {

pub const COMPONENT: &'static str = "wf_infer";

/// The rule's text among the arguments of a call.
pub fn rule_text(args: &Vec<Term>) -> (r: Result<String, String>)
    ensures
        text_view(r) == literal_of(views(args@), "wf_infer"@),
{
    require_literal(args, "wf_infer")
}

/// The first request of a run.
pub fn begin(rule: &Rule) -> (r: (Stage, Request))
    ensures
        (r.0@, r.1@) == begun(COMPONENT@, *rule),
{
    crate::infer::engine::begin(COMPONENT, rule)
}

/// Moves a run on with the host's reply.
pub fn step(rule: &Rule, stage: Stage, reply: Reply) -> (r: (Stage, Request))
    ensures
        (r.0@, r.1@) == next(COMPONENT@, *rule, stage@, reply@),
{
    crate::infer::engine::step(COMPONENT, rule, stage, reply)
}

// ---------------------------------------------------------------------------
// The component
// ---------------------------------------------------------------------------

pub fn register() -> (r: Vec<FunctionDescriptor>)
    ensures
        r@.len() == 1,
        describes(r@[0], "wf_infer"@, 1),
{
    one_function("wf_infer", 1)
}

/// Whether the component offers the function.
pub fn offers(name: &str) -> (r: Result<(), String>)
    ensures
        r is Ok <==> name@ == "wf_infer"@,
        r matches Err(e) ==> e@ == unknown_function_text(COMPONENT@, name@),
{
    if same(name, "wf_infer") {
        Ok(())
    } else {
        Err(unknown_function(COMPONENT, name))
    }
}

/// The state of an aggregate. The component has none, so none is ever made.
pub struct UnreachableState;

impl UnreachableState {
    pub fn step(&self, args: Vec<Term>) -> (r: Result<(), String>)
        ensures
            r matches Err(e) && e@ == never_constructed_text(COMPONENT@),
    {
        Err(never_constructed(COMPONENT))
    }

    pub fn finish(&self) -> (r: Result<Term, String>)
        ensures
            r matches Err(e) && e@ == never_constructed_text(COMPONENT@),
    {
        Err(never_constructed(COMPONENT))
    }
}

} // verus!
