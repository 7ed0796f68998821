//! Which output a display is.

use vstd::prelude::*;
use vstd::string::*;

use crate::text;

verus! {

/// The identifier that is derived from a name in the DNS namespace, as a
/// number.
pub uninterp spec fn dns_uuid(name: Seq<char>) -> u128;

/// Calls `uuid::Uuid::new_v5` with the DNS namespace and the bytes of `name`.
///
/// Claims that the identifier depends on the name alone.
#[verifier::external_body]
fn new_v5(name: &str) -> (r: u128)
    ensures
        r == dns_uuid(name@),
{
    uuid::Uuid::new_v5(&uuid::Uuid::NAMESPACE_DNS, name.as_bytes()).as_u128()
}

/// The identifier that the display of the output `name` has.
pub fn output_name_uuid(name: &str) -> (r: u128)
    ensures
        r == dns_uuid(name@),
{
    new_v5(name)
}

/// Which of the outputs has an identifier, given the outputs' identifiers: of
/// several the last.
pub fn matching_output(uuids: &Vec<u128>, wanted: u128) -> (r: Option<usize>)
    ensures
        match r {
            Some(i) => {
                &&& i < uuids@.len()
                &&& uuids@[i as int] == wanted
                &&& forall|k: int| i < k < uuids@.len() ==> uuids@[k] != wanted
            },
            None => !uuids@.contains(wanted),
        },
{
    let mut i: usize = uuids.len();
    while i > 0
        invariant
            i <= uuids@.len(),
            forall|k: int| i <= k < uuids@.len() ==> uuids@[k] != wanted,
        decreases i,
    {
        i = i - 1;
        if uuids[i] == wanted {
            return Some(i);
        }
    }
    None
}

/// The output that a display with the identifier `wanted` is.
pub fn output_of_display(names: &Vec<String>, wanted: u128) -> (r: Option<usize>)
    ensures
        match r {
            Some(i) => {
                &&& i < names@.len()
                &&& dns_uuid(names@[i as int]@) == wanted
                &&& forall|k: int|
                    i < k < names@.len() ==> dns_uuid((#[trigger] names@[k])@) != wanted
            },
            None => forall|k: int|
                0 <= k < names@.len() ==> dns_uuid((#[trigger] names@[k])@) != wanted,
        },
{
    let mut uuids: Vec<u128> = Vec::new();
    let mut i: usize = 0;
    while i < names.len()
        invariant
            i <= names@.len(),
            uuids@.len() == i,
            forall|k: int| 0 <= k < i ==> uuids@[k] == dns_uuid((#[trigger] names@[k])@),
        decreases names.len() - i,
    {
        uuids.push(output_name_uuid(names[i].as_str()));
        i = i + 1;
    }
    let r = matching_output(&uuids, wanted);
    proof {
        if r is None {
            assert forall|k: int| 0 <= k < names@.len() implies dns_uuid((#[trigger] names@[k])@)
                != wanted by {
                assert(uuids@.contains(uuids@[k]));
            }
        }
    }
    r
}

/// Where the width of the output `name` stands in the list of outputs: of
/// several entries of that name the last counts.
pub fn width_entry(names: &Vec<String>, name: &str) -> (r: Option<usize>)
    ensures
        match r {
            Some(i) => {
                &&& i < names@.len()
                &&& names@[i as int]@ == name@
                &&& forall|k: int| i < k < names@.len() ==> (#[trigger] names@[k])@ != name@
            },
            None => forall|k: int| 0 <= k < names@.len() ==> (#[trigger] names@[k])@ != name@,
        },
{
    let mut i: usize = names.len();
    while i > 0
        invariant
            i <= names@.len(),
            forall|k: int| i <= k < names@.len() ==> (#[trigger] names@[k])@ != name@,
        decreases i,
    {
        i = i - 1;
        if text::str_eq(names[i].as_str(), name) {
            return Some(i);
        }
    }
    None
}

} // verus!
