use vstd::prelude::*;

use crate::der::{children_view, DerError, DerResult, Element, ElementModel};
use crate::x509::{FromElem, Oid};

verus! {

broadcast use crate::der::lemma_children_view;

/// An AlgorithmIdentifier. Its parameters are not kept.
#[derive(Debug)]
pub struct AlgId {
    pub alg: Oid,
}

impl View for AlgId {
    type V = Seq<u64>;

    open spec fn view(&self) -> Seq<u64> {
        self.alg@
    }
}

impl AlgId {
    pub fn new(alg: Oid) -> (r: AlgId)
        ensures
            r@ == alg@,
    {
        AlgId { alg }
    }
}

impl PartialEq for AlgId {
    fn eq(&self, o: &AlgId) -> (r: bool)
        ensures
            r == (self@ == o@),
    {
        self.alg == o.alg
    }
}

impl vstd::std_specs::cmp::PartialEqSpecImpl for AlgId {
    open spec fn obeys_eq_spec() -> bool {
        true
    }

    open spec fn eq_spec(&self, o: &AlgId) -> bool {
        self@ == o@
    }
}

impl FromElem for AlgId {
    /// `SEQUENCE { algorithm OBJECT IDENTIFIER, parameters ANY OPTIONAL }`.
    open spec fn spec_from_elem_opt(e: ElementModel) -> DerResult<Option<Seq<u64>>> {
        match e {
            ElementModel::Sequence(cs) => if 1 <= cs.len() <= 2 && cs[0].elem is ObjectIdentifier {
                Ok(Some(cs[0].elem->ObjectIdentifier_0))
            } else {
                Err(DerError::InvalidValue)
            },
            _ => Ok(None),
        }
    }

    fn from_elem_opt(elem: &Element) -> (r: DerResult<Option<AlgId>>) {
        match elem {
            Element::Sequence(children) => {
                assert(elem@ == ElementModel::Sequence(children_view(children)));
                if children.len() == 0 || children.len() > 2 {
                    return Err(DerError::InvalidValue);
                }
                let alg: Oid = match Oid::from_elem(&children[0].elem) {
                    Ok(a) => a,
                    Err(e) => {
                        return Err(e);
                    },
                };
                Ok(Some(AlgId { alg }))
            },
            _ => Ok(None),
        }
    }
}

} // verus!
