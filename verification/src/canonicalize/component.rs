//! `wf_canonicalize` as a component: its argument, and what it makes of the
//! responses of the servers behind the sweeps.

use vstd::prelude::*;
use vstd::string::*;

use crate::canonicalize::run::COMPONENT;
use crate::guest::{describes, never_constructed, never_constructed_text, one_function, unknown_function,
    unknown_function_text, FunctionDescriptor};
use crate::host::{first_literal, first_text};
use crate::number::{decimal_of, decimal_usize};
use crate::rdf::Term;
use crate::text::{same, views};

verus! {

/// The configuration's text among the arguments of a call.
pub fn config_text(args: &Vec<Term>) -> (r: Result<String, String>)
    ensures
        match (first_literal(views(args@)), r) {
            (Some(text), Ok(s)) => s@ == text,
            (None, Err(e)) => e@ == "wf_canonicalize: first arg must be a config-json string literal"@,
            _ => false,
        },
{
    match first_text(args) {
        Some(text) => Ok(text),
        None => Err("wf_canonicalize: first arg must be a config-json string literal".to_owned()),
    }
}

/// The body of a response that succeeded; a status outside of 200 to 299 is an
/// error, told after a prefix.
pub open spec fn body_of(prefix: Seq<char>, status: u16, url: Seq<char>, body: Seq<char>) -> Result<
    Seq<char>,
    Seq<char>,
> {
    if 200 <= status < 300 {
        Ok(body)
    } else {
        Err(prefix + decimal_of(status as nat) + " from "@ + url)
    }
}

pub open spec fn text_view(r: Result<String, String>) -> Result<Seq<char>, Seq<char>> {
    match r {
        Ok(text) => Ok(text@),
        Err(e) => Err(e@),
    }
}

fn check_status(prefix: &str, status: u16, url: &str, body: String) -> (r: Result<String, String>)
    ensures
        text_view(r) == body_of(prefix@, status, url@, body@),
{
    if 200 <= status && status < 300 {
        Ok(body)
    } else {
        Err(prefix.to_owned().concat(&decimal_usize(status as usize)).concat(" from ").concat(url))
    }
}

/// The body of a response to a bulk request.
pub fn bulk_reply(status: u16, url: &str, body: String) -> (r: Result<String, String>)
    ensures
        text_view(r) == body_of("http-callbacks: non-2xx status "@, status, url@, body@),
{
    check_status("http-callbacks: non-2xx status ", status, url, body)
}

/// The body of a response to a scan.
pub fn scan_reply(status: u16, url: &str, body: String) -> (r: Result<String, String>)
    ensures
        text_view(r) == body_of("sirix POST /query: non-2xx status "@, status, url@, body@),
{
    check_status("sirix POST /query: non-2xx status ", status, url, body)
}

// ---------------------------------------------------------------------------
// The component
// ---------------------------------------------------------------------------

pub fn register() -> (r: Vec<FunctionDescriptor>)
    ensures
        r@.len() == 1,
        describes(r@[0], "urn:webfunction:canonicalize"@, 1),
{
    one_function("urn:webfunction:canonicalize", 1)
}

/// Whether the component offers the function.
pub fn offers(name: &str) -> (r: Result<(), String>)
    ensures
        r is Ok <==> name@ == "urn:webfunction:canonicalize"@,
        r matches Err(e) ==> e@ == unknown_function_text(COMPONENT@, name@),
{
    if same(name, "urn:webfunction:canonicalize") {
        Ok(())
    } else {
        Err(unknown_function(COMPONENT, name))
    }
}

/// The state of an aggregate. The component has none, so none is ever made.
pub struct UnreachableState;

impl UnreachableState {
    pub fn step(&self, args: Vec<Term>) -> (r: Result<(), String>)
        ensures
            r matches Err(e) && e@ == never_constructed_text(COMPONENT@),
    {
        Err(never_constructed(COMPONENT))
    }

    pub fn finish(&self) -> (r: Result<Term, String>)
        ensures
            r matches Err(e) && e@ == never_constructed_text(COMPONENT@),
    {
        Err(never_constructed(COMPONENT))
    }
}

} // verus!
