//! X.509 values decoded from a DER tree.
use vstd::prelude::*;

use crate::der::{copy_vec, DerError, DerResult, Element, ElementModel};

pub mod alg_id;
pub mod bitstring;
pub mod cert;
pub mod check;

pub use bitstring::BitString;

verus! {

broadcast use crate::der::lemma_children_view;

/// A type decoded from one DER element.
pub trait FromElem: Sized + View {
    /// The decoded value of an element with model `e`: `Ok(None)` where the
    /// element is not of this type at all.
    spec fn spec_from_elem_opt(e: ElementModel) -> DerResult<Option<Self::V>>;

    fn from_elem_opt(elem: &Element) -> (r: DerResult<Option<Self>>)
        ensures
            match Self::spec_from_elem_opt(elem@) {
                Ok(Some(v)) => r matches Ok(Some(x)) && x@ == v,
                Ok(None) => r matches Ok(None),
                Err(e) => r matches Err(x) && x == e,
            },
    ;

    /// As `from_elem_opt`, with an element of another type refused.
    fn from_elem(elem: &Element) -> (r: DerResult<Self>)
        ensures
            match Self::spec_from_elem_opt(elem@) {
                Ok(Some(v)) => r matches Ok(x) && x@ == v,
                Ok(None) => r matches Err(x) && x == DerError::InvalidValue,
                Err(e) => r matches Err(x) && x == e,
            },
    {
        match Self::from_elem_opt(elem) {
            Ok(Some(v)) => Ok(v),
            Ok(None) => Err(DerError::InvalidValue),
            Err(e) => Err(e),
        }
    }
}

impl FromElem for bool {
    open spec fn spec_from_elem_opt(e: ElementModel) -> DerResult<Option<bool>> {
        match e {
            ElementModel::Boolean(b) => Ok(Some(b)),
            _ => Ok(None),
        }
    }

    fn from_elem_opt(elem: &Element) -> (r: DerResult<Option<bool>>) {
        match elem {
            Element::Boolean(b) => Ok(Some(*b)),
            _ => Ok(None),
        }
    }
}

impl FromElem for BitString {
    open spec fn spec_from_elem_opt(e: ElementModel) -> DerResult<Option<(u8, Seq<u8>)>> {
        match e {
            ElementModel::BitString(u, d) => Ok(Some((u, d))),
            _ => Ok(None),
        }
    }

    fn from_elem_opt(elem: &Element) -> (r: DerResult<Option<BitString>>) {
        match elem {
            Element::BitString(u, d) => Ok(Some(BitString::new(*u, copy_vec(d)))),
            _ => Ok(None),
        }
    }
}

/// An OBJECT IDENTIFIER, as its arcs.
#[derive(Debug)]
pub struct Oid {
    pub value: Vec<u64>,
}

impl View for Oid {
    type V = Seq<u64>;

    open spec fn view(&self) -> Seq<u64> {
        self.value@
    }
}

impl Oid {
    pub fn new(value: Vec<u64>) -> (r: Oid)
        ensures
            r@ == value@,
    {
        Oid { value }
    }
}

impl PartialEq for Oid {
    fn eq(&self, o: &Oid) -> (r: bool)
        ensures
            r == (self@ == o@),
    {
        if self.value.len() != o.value.len() {
            return false;
        }
        let mut i: usize = 0;
        while i < self.value.len()
            invariant
                i <= self.value.len() == o.value.len(),
                forall|j: int| 0 <= j < i ==> self.value@[j] == o.value@[j],
            decreases self.value.len() - i,
        {
            if self.value[i] != o.value[i] {
                return false;
            }
            i = i + 1;
        }
        assert(self@ =~= o@);
        true
    }
}

impl vstd::std_specs::cmp::PartialEqSpecImpl for Oid {
    open spec fn obeys_eq_spec() -> bool {
        true
    }

    open spec fn eq_spec(&self, o: &Oid) -> bool {
        self@ == o@
    }
}

impl FromElem for Oid {
    open spec fn spec_from_elem_opt(e: ElementModel) -> DerResult<Option<Seq<u64>>> {
        match e {
            ElementModel::ObjectIdentifier(a) => Ok(Some(a)),
            _ => Ok(None),
        }
    }

    fn from_elem_opt(elem: &Element) -> (r: DerResult<Option<Oid>>) {
        match elem {
            Element::ObjectIdentifier(a) => Ok(Some(Oid::new(copy_vec(a)))),
            _ => Ok(None),
        }
    }
}

} // verus!
