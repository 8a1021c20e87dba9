//! Components of a SEQUENCE that may be left out: `DEFAULT` and `OPTIONAL`.
//! Each reads the children from index `i` and gives the index after what it took.
use vstd::prelude::*;

use crate::der::{copy_vec, models, DerError, DerResult, Element, SpannedElement, SpannedModel};

verus! {

/// A `BOOLEAN DEFAULT d` at `i`: the value, `d` where it is absent.
pub open spec fn boolean_default(cs: Seq<SpannedModel>, i: int, d: bool) -> (bool, int) {
    if 0 <= i < cs.len() && cs[i].elem is Boolean {
        (cs[i].elem->Boolean_0, i + 1)
    } else {
        (d, i)
    }
}

/// An `OCTET STRING OPTIONAL` at `i`.
pub open spec fn octet_string_optional(cs: Seq<SpannedModel>, i: int) -> (Option<Seq<u8>>, int) {
    if 0 <= i < cs.len() && cs[i].elem is OctetString {
        (Some(cs[i].elem->OctetString_0), i + 1)
    } else {
        (None, i)
    }
}

/// A `NULL` that must stand at `i`.
pub open spec fn null_field(cs: Seq<SpannedModel>, i: int) -> Option<int> {
    if 0 <= i < cs.len() && cs[i].elem is Null {
        Some(i + 1)
    } else {
        None
    }
}

pub fn boolean_default_at(children: &[SpannedElement], i: usize, d: bool) -> (r: (bool, usize))
    ensures
        (r.0, r.1 as int) == boolean_default(models(children@), i as int, d),
{
    if i < children.len() {
        match &children[i].elem {
            Element::Boolean(b) => {
                return (*b, i + 1);
            },
            _ => {},
        }
    }
    (d, i)
}

pub fn octet_string_optional_at(children: &[SpannedElement], i: usize) -> (r: (Option<Vec<u8>>, usize))
    ensures
        ({
            let (o, j) = octet_string_optional(models(children@), i as int);
            &&& r.1 == j
            &&& match o {
                Some(v) => r.0 matches Some(x) && x@ == v,
                None => r.0 is None,
            }
        }),
{
    if i < children.len() {
        match &children[i].elem {
            Element::OctetString(v) => {
                return (Some(copy_vec(v)), i + 1);
            },
            _ => {},
        }
    }
    (None, i)
}

pub fn null_at(children: &[SpannedElement], i: usize) -> (r: DerResult<usize>)
    ensures
        match null_field(models(children@), i as int) {
            Some(j) => r == Ok::<usize, DerError>(j as usize),
            None => r == Err::<usize, DerError>(DerError::InvalidValue),
        },
{
    if i < children.len() {
        match &children[i].elem {
            Element::Null => {
                return Ok(i + 1);
            },
            _ => {},
        }
    }
    Err(DerError::InvalidValue)
}

} // verus!
