//! Reading an IP address out of command output: either the first
//! interface address of an `ip` listing, or a public-address lookup's
//! plain-text answer.

use vstd::prelude::*;
use vstd::string::StrSliceExecFns;
use crate::text::{trim_spec, trimmed};

verus! {

/// Where an address is looked up: a local interface by name, or the
/// public address seen from outside.
#[derive(Debug, Clone, PartialEq, Eq)]
pub enum IPSource {
    Private(String),
    Public,
}

/// What the interface-address pattern captures in a text: the first
/// capture of `.*inet[6]? ([0-9\./]*)`, a function of the text alone.
pub uninterp spec fn inet_match(s: Seq<char>) -> Option<Seq<char>>;

/// Relies on regex::Regex::captures with the fixed interface-address
/// pattern `.*inet[6]? ([0-9\./]*)`: the captured address text, a function
/// of the input text alone.
#[verifier::external_body]
fn capture_inet(s: &str) -> (r: Option<String>)
    ensures
        (r is Some) == (inet_match(s@) is Some),
        r is Some ==> r->0@ == inet_match(s@)->0,
{
    let re = match regex::Regex::new(".*inet[6]? ([0-9\\./]*)") {
        Ok(re) => re,
        Err(_) => return None,
    };
    let caps = re.captures(s)?;
    Some(caps.get(1)?.as_str().to_string())
}

/// The address a raw lookup output holds.  For a local interface the
/// output is trimmed and the interface-address pattern applied; for the
/// public lookup the trimmed text itself is the address, and an empty
/// answer means none was found.
pub fn get_ip(src: &IPSource, raw: &str) -> (r: Option<String>)
    ensures
        match src {
            IPSource::Private(_) => {
                &&& (r is Some) == (inet_match(trim_spec(raw@)) is Some)
                &&& (r is Some ==> r->0@ == inet_match(trim_spec(raw@))->0)
            },
            IPSource::Public => {
                &&& (r is Some) == (trim_spec(raw@).len() > 0)
                &&& (r is Some ==> r->0@ == trim_spec(raw@))
            },
        },
{
    let t = trimmed(raw);
    match src {
        IPSource::Private(_) => capture_inet(t.as_str()),
        IPSource::Public => {
            if t.as_str().unicode_len() == 0 {
                None
            } else {
                Some(t)
            }
        },
    }
}

} // verus!
