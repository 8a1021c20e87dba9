//! An X.509 certificate (RFC 5280) decoded from its DER tree.
use vstd::prelude::*;

use crate::der::{
    children_view, copy_vec, models, parse_element, DerError, DerReader, DerResult, Element,
    ElementModel, SpannedElement, SpannedModel, TagClass,
};
use crate::x509::alg_id::AlgId;
use crate::x509::{BitString, FromElem, Oid};

verus! {

broadcast use crate::der::lemma_children_view, crate::der::lemma_children_models;

/// One attribute of a distinguished name: its type, and its value as it was encoded.
#[derive(Debug)]
pub struct AttributeTypeAndValue {
    pub attr_type: Oid,
    pub attr_value: Element,
}

pub type AttributeModel = (Seq<u64>, ElementModel);

impl View for AttributeTypeAndValue {
    type V = AttributeModel;

    open spec fn view(&self) -> AttributeModel {
        (self.attr_type@, self.attr_value@)
    }
}

/// A non-empty SET OF attributes.
#[derive(Debug)]
pub struct RelativeDistinguishedName {
    pub set: Vec<AttributeTypeAndValue>,
}

impl View for RelativeDistinguishedName {
    type V = Seq<AttributeModel>;

    open spec fn view(&self) -> Seq<AttributeModel> {
        self.set@.map_values(|a: AttributeTypeAndValue| a@)
    }
}

/// A Name: the RDNSequence, its one alternative.
#[derive(Debug)]
pub struct Name {
    pub seq: Vec<RelativeDistinguishedName>,
}

pub type NameModel = Seq<Seq<AttributeModel>>;

impl View for Name {
    type V = NameModel;

    open spec fn view(&self) -> NameModel {
        self.seq@.map_values(|r: RelativeDistinguishedName| r@)
    }
}

/// `SEQUENCE { type OBJECT IDENTIFIER, value ANY }`.
pub open spec fn attribute_of(e: ElementModel) -> Option<AttributeModel> {
    match e {
        ElementModel::Sequence(cs) => if cs.len() == 2 && cs[0].elem is ObjectIdentifier {
            Some((cs[0].elem->ObjectIdentifier_0, cs[1].elem))
        } else {
            None
        },
        _ => None,
    }
}

/// `SET SIZE (1..MAX) OF AttributeTypeAndValue`.
pub open spec fn rdn_of(e: ElementModel) -> Option<Seq<AttributeModel>> {
    match e {
        ElementModel::SetOf(cs) => if cs.len() >= 1 && forall|i: int|
            0 <= i < cs.len() ==> (#[trigger] attribute_of(cs[i].elem)) is Some {
            Some(Seq::new(cs.len(), |i: int| attribute_of(cs[i].elem)->0))
        } else {
            None
        },
        _ => None,
    }
}

/// The RDNs of a Name, from the children of its SEQUENCE.
pub open spec fn name_of(cs: Seq<SpannedModel>) -> Option<NameModel> {
    if forall|i: int| 0 <= i < cs.len() ==> (#[trigger] rdn_of(cs[i].elem)) is Some {
        Some(Seq::new(cs.len(), |i: int| rdn_of(cs[i].elem)->0))
    } else {
        None
    }
}

/// A Name encoded as a SEQUENCE.
pub open spec fn name_elem_of(e: ElementModel) -> Option<NameModel> {
    match e {
        ElementModel::Sequence(cs) => name_of(cs),
        _ => None,
    }
}

fn attribute_from_elem(e: &Element) -> (r: Option<AttributeTypeAndValue>)
    ensures
        match attribute_of(e@) {
            Some(m) => r matches Some(a) && a@ == m,
            None => r is None,
        },
{
    match e {
        Element::Sequence(cs) => {
            assert(e@ == ElementModel::Sequence(children_view(cs)));
            if cs.len() != 2 {
                return None;
            }
            match &cs[0].elem {
                Element::ObjectIdentifier(arcs) => Some(
                    AttributeTypeAndValue {
                        attr_type: Oid::new(copy_vec(arcs)),
                        attr_value: cs[1].elem.deep_clone(),
                    },
                ),
                _ => None,
            }
        },
        _ => None,
    }
}

fn rdn_from_elem(e: &Element) -> (r: Option<RelativeDistinguishedName>)
    ensures
        match rdn_of(e@) {
            Some(m) => r matches Some(x) && x@ == m,
            None => r is None,
        },
{
    match e {
        Element::SetOf(cs) => {
            assert(e@ == ElementModel::SetOf(children_view(cs)));
            let ghost ms = children_view(cs);
            if cs.len() == 0 {
                return None;
            }
            let mut set: Vec<AttributeTypeAndValue> = Vec::new();
            let mut i: usize = 0;
            while i < cs.len()
                invariant
                    i <= cs.len(),
                    ms == children_view(cs),
                    e@ == ElementModel::SetOf(ms),
                    cs.len() >= 1,
                    forall|j: int| 0 <= j < i ==> (#[trigger] attribute_of(ms[j].elem)) is Some,
                    set@.map_values(|a: AttributeTypeAndValue| a@) == Seq::new(
                        i as nat,
                        |j: int| attribute_of(ms[j].elem)->0,
                    ),
                decreases cs.len() - i,
            {
                assert(cs[i as int].elem@ == ms[i as int].elem);
                let ghost before = set@.map_values(|a: AttributeTypeAndValue| a@);
                match attribute_from_elem(&cs[i].elem) {
                    Some(a) => {
                        set.push(a);
                        assert(set@.map_values(|a: AttributeTypeAndValue| a@) =~= before.push(
                            a@,
                        ));
                    },
                    None => {
                        return None;
                    },
                }
                i = i + 1;
                assert(set@.map_values(|a: AttributeTypeAndValue| a@) =~= Seq::new(
                    i as nat,
                    |j: int| attribute_of(ms[j].elem)->0,
                ));
            }
            Some(RelativeDistinguishedName { set })
        },
        _ => None,
    }
}

impl Name {
    /// The Name whose SEQUENCE has these children.
    pub fn from_seq(children: &[SpannedElement]) -> (r: DerResult<Name>)
        ensures
            match name_of(models(children@)) {
                Some(m) => r matches Ok(n) && n@ == m,
                None => r matches Err(e) && e == DerError::InvalidValue,
            },
    {
        let ghost ms = models(children@);
        let mut seq: Vec<RelativeDistinguishedName> = Vec::new();
        let mut i: usize = 0;
        while i < children.len()
            invariant
                i <= children.len(),
                ms == models(children@),
                forall|j: int| 0 <= j < i ==> (#[trigger] rdn_of(ms[j].elem)) is Some,
                seq@.map_values(|r: RelativeDistinguishedName| r@) == Seq::new(
                    i as nat,
                    |j: int| rdn_of(ms[j].elem)->0,
                ),
            decreases children.len() - i,
        {
            assert(children[i as int].elem@ == ms[i as int].elem);
            let ghost before = seq@.map_values(|r: RelativeDistinguishedName| r@);
            match rdn_from_elem(&children[i].elem) {
                Some(rdn) => {
                    seq.push(rdn);
                    assert(seq@.map_values(|r: RelativeDistinguishedName| r@) =~= before.push(
                        rdn@,
                    ));
                },
                None => {
                    return Err(DerError::InvalidValue);
                },
            }
            i = i + 1;
            assert(seq@.map_values(|r: RelativeDistinguishedName| r@) =~= Seq::new(
                i as nat,
                |j: int| rdn_of(ms[j].elem)->0,
            ));
        }
        assert(seq@.map_values(|r: RelativeDistinguishedName| r@) =~= name_of(ms)->0);
        Ok(Name { seq })
    }
}

fn name_from_elem(e: &Element) -> (r: DerResult<Name>)
    ensures
        match name_elem_of(e@) {
            Some(m) => r matches Ok(n) && n@ == m,
            None => r matches Err(x) && x == DerError::InvalidValue,
        },
{
    match e {
        Element::Sequence(cs) => {
            assert(e@ == ElementModel::Sequence(children_view(cs)));
            Name::from_seq(cs.as_slice())
        },
        _ => Err(DerError::InvalidValue),
    }
}

/// The version of the certificate format.
#[derive(Debug, Clone, Copy, PartialEq, Eq, Structural)]
pub enum Version {
    Version1,
    Version2,
    Version3,
}

/// The version that the INTEGER with these bytes names: 0, 1 or 2.
pub open spec fn version_of(integer: Seq<u8>) -> Option<Version> {
    if integer.len() != 1 {
        None
    } else if integer[0] == 0 {
        Some(Version::Version1)
    } else if integer[0] == 1 {
        Some(Version::Version2)
    } else if integer[0] == 2 {
        Some(Version::Version3)
    } else {
        None
    }
}

impl Version {
    pub fn from_integer(integer: &[u8]) -> (r: DerResult<Version>)
        ensures
            match version_of(integer@) {
                Some(v) => r == Ok::<Version, DerError>(v),
                None => r == Err::<Version, DerError>(DerError::InvalidValue),
            },
    {
        if integer.len() != 1 {
            return Err(DerError::InvalidValue);
        }
        if integer[0] == 0 {
            Ok(Version::Version1)
        } else if integer[0] == 1 {
            Ok(Version::Version2)
        } else if integer[0] == 2 {
            Ok(Version::Version3)
        } else {
            Err(DerError::InvalidValue)
        }
    }
}

/// A point in time as encoded: UTCTime, or GeneralizedTime kept as its bytes.
#[derive(Debug)]
pub enum Time {
    UtcTime(Vec<u8>),
    GeneralizedTime(Vec<u8>),
}

pub enum TimeModel {
    UtcTime(Seq<u8>),
    GeneralizedTime(Seq<u8>),
}

impl View for Time {
    type V = TimeModel;

    open spec fn view(&self) -> TimeModel {
        match self {
            Time::UtcTime(v) => TimeModel::UtcTime(v@),
            Time::GeneralizedTime(v) => TimeModel::GeneralizedTime(v@),
        }
    }
}

/// The universal tag number of GeneralizedTime.
pub const GENERALIZED_TIME_TAG: u64 = 24;

pub open spec fn time_of(e: ElementModel) -> Option<TimeModel> {
    match e {
        ElementModel::UtcTime(d) => Some(TimeModel::UtcTime(d)),
        ElementModel::UnknownPrimitive(t, c, d) => if t == GENERALIZED_TIME_TAG && c
            == TagClass::Universal {
            Some(TimeModel::GeneralizedTime(d))
        } else {
            None
        },
        _ => None,
    }
}

impl Time {
    pub fn from_element(elem: &Element) -> (r: DerResult<Time>)
        ensures
            match time_of(elem@) {
                Some(t) => r matches Ok(x) && x@ == t,
                None => r matches Err(e) && e == DerError::InvalidValue,
            },
    {
        match elem {
            Element::UtcTime(d) => Ok(Time::UtcTime(copy_vec(d))),
            Element::UnknownPrimitive(t, c, d) => {
                if *t == GENERALIZED_TIME_TAG && *c == TagClass::Universal {
                    Ok(Time::GeneralizedTime(copy_vec(d)))
                } else {
                    Err(DerError::InvalidValue)
                }
            },
            _ => Err(DerError::InvalidValue),
        }
    }
}

/// `SEQUENCE { notBefore Time, notAfter Time }`.
#[derive(Debug)]
pub struct Validity {
    pub not_before: Time,
    pub not_after: Time,
}

impl View for Validity {
    type V = (TimeModel, TimeModel);

    open spec fn view(&self) -> (TimeModel, TimeModel) {
        (self.not_before@, self.not_after@)
    }
}

pub open spec fn validity_of(cs: Seq<SpannedModel>) -> Option<(TimeModel, TimeModel)> {
    if cs.len() == 2 && time_of(cs[0].elem) is Some && time_of(cs[1].elem) is Some {
        Some((time_of(cs[0].elem)->0, time_of(cs[1].elem)->0))
    } else {
        None
    }
}

pub open spec fn validity_elem_of(e: ElementModel) -> Option<(TimeModel, TimeModel)> {
    match e {
        ElementModel::Sequence(cs) => validity_of(cs),
        _ => None,
    }
}

impl Validity {
    pub fn from_seq(children: &[SpannedElement]) -> (r: DerResult<Validity>)
        ensures
            match validity_of(models(children@)) {
                Some(m) => r matches Ok(v) && v@ == m,
                None => r matches Err(e) && e == DerError::InvalidValue,
            },
    {
        if children.len() != 2 {
            return Err(DerError::InvalidValue);
        }
        let not_before = match Time::from_element(&children[0].elem) {
            Ok(t) => t,
            Err(e) => {
                return Err(e);
            },
        };
        let not_after = match Time::from_element(&children[1].elem) {
            Ok(t) => t,
            Err(e) => {
                return Err(e);
            },
        };
        Ok(Validity { not_before, not_after })
    }
}

fn validity_from_elem(e: &Element) -> (r: DerResult<Validity>)
    ensures
        match validity_elem_of(e@) {
            Some(m) => r matches Ok(v) && v@ == m,
            None => r matches Err(x) && x == DerError::InvalidValue,
        },
{
    match e {
        Element::Sequence(cs) => {
            assert(e@ == ElementModel::Sequence(children_view(cs)));
            Validity::from_seq(cs.as_slice())
        },
        _ => Err(DerError::InvalidValue),
    }
}

/// The algorithm that an AlgorithmIdentifier element names.
pub open spec fn alg_id_of(e: ElementModel) -> Option<Seq<u64>> {
    match AlgId::spec_from_elem_opt(e) {
        Ok(Some(a)) => Some(a),
        _ => None,
    }
}

/// `SEQUENCE { algorithm AlgorithmIdentifier, subjectPublicKey BIT STRING }`.
#[derive(Debug)]
pub struct SubjectPublicKeyInfo {
    pub alg: AlgId,
    pub subject_pub_key: BitString,
}

pub type PublicKeyModel = (Seq<u64>, (u8, Seq<u8>));

impl View for SubjectPublicKeyInfo {
    type V = PublicKeyModel;

    open spec fn view(&self) -> PublicKeyModel {
        (self.alg@, self.subject_pub_key@)
    }
}

pub open spec fn public_key_of(cs: Seq<SpannedModel>) -> Option<PublicKeyModel> {
    if cs.len() == 2 && alg_id_of(cs[0].elem) is Some && cs[1].elem is BitString {
        Some(
            (
                alg_id_of(cs[0].elem)->0,
                (cs[1].elem->BitString_0, cs[1].elem->BitString_1),
            ),
        )
    } else {
        None
    }
}

pub open spec fn public_key_elem_of(e: ElementModel) -> Option<PublicKeyModel> {
    match e {
        ElementModel::Sequence(cs) => public_key_of(cs),
        _ => None,
    }
}

impl SubjectPublicKeyInfo {
    pub fn from_seq(children: &[SpannedElement]) -> (r: DerResult<SubjectPublicKeyInfo>)
        ensures
            match public_key_of(models(children@)) {
                Some(m) => r matches Ok(k) && k@ == m,
                None => r matches Err(e) && e == DerError::InvalidValue,
            },
    {
        if children.len() != 2 {
            return Err(DerError::InvalidValue);
        }
        let alg: AlgId = match AlgId::from_elem(&children[0].elem) {
            Ok(a) => a,
            Err(e) => {
                return Err(e);
            },
        };
        let subject_pub_key = match &children[1].elem {
            Element::BitString(u, d) => BitString::new(*u, copy_vec(d)),
            _ => {
                return Err(DerError::InvalidValue);
            },
        };
        Ok(SubjectPublicKeyInfo { alg, subject_pub_key })
    }
}

fn public_key_from_elem(e: &Element) -> (r: DerResult<SubjectPublicKeyInfo>)
    ensures
        match public_key_elem_of(e@) {
            Some(m) => r matches Ok(k) && k@ == m,
            None => r matches Err(x) && x == DerError::InvalidValue,
        },
{
    match e {
        Element::Sequence(cs) => {
            assert(e@ == ElementModel::Sequence(children_view(cs)));
            SubjectPublicKeyInfo::from_seq(cs.as_slice())
        },
        _ => Err(DerError::InvalidValue),
    }
}

/// `SEQUENCE { extnID OBJECT IDENTIFIER, critical BOOLEAN DEFAULT FALSE, extnValue OCTET STRING }`.
#[derive(Debug)]
pub struct Extension {
    pub extn_id: Oid,
    pub critical: bool,
    pub extn_value: Vec<u8>,
}

pub type ExtensionModel = (Seq<u64>, bool, Seq<u8>);

impl View for Extension {
    type V = ExtensionModel;

    open spec fn view(&self) -> ExtensionModel {
        (self.extn_id@, self.critical, self.extn_value@)
    }
}

pub open spec fn extension_of(e: ElementModel) -> Option<ExtensionModel> {
    match e {
        ElementModel::Sequence(cs) => if cs.len() == 2 && cs[0].elem is ObjectIdentifier
            && cs[1].elem is OctetString {
            Some((cs[0].elem->ObjectIdentifier_0, false, cs[1].elem->OctetString_0))
        } else if cs.len() == 3 && cs[0].elem is ObjectIdentifier && cs[1].elem is Boolean
            && cs[2].elem is OctetString {
            Some((cs[0].elem->ObjectIdentifier_0, cs[1].elem->Boolean_0, cs[2].elem->OctetString_0))
        } else {
            None
        },
        _ => None,
    }
}

fn extension_from_elem(e: &Element) -> (r: Option<Extension>)
    ensures
        match extension_of(e@) {
            Some(m) => r matches Some(x) && x@ == m,
            None => r is None,
        },
{
    match e {
        Element::Sequence(cs) => {
            assert(e@ == ElementModel::Sequence(children_view(cs)));
            if cs.len() < 2 || cs.len() > 3 {
                return None;
            }
            let extn_id = match &cs[0].elem {
                Element::ObjectIdentifier(a) => Oid::new(copy_vec(a)),
                _ => {
                    return None;
                },
            };
            let mut i: usize = 1;
            let mut critical = false;
            if cs.len() == 3 {
                match &cs[1].elem {
                    Element::Boolean(b) => {
                        critical = *b;
                    },
                    _ => {
                        return None;
                    },
                }
                i = 2;
            }
            match &cs[i].elem {
                Element::OctetString(v) => Some(
                    Extension { extn_id, critical, extn_value: copy_vec(v) },
                ),
                _ => None,
            }
        },
        _ => None,
    }
}

/// The decoded fields of a TBSCertificate.
pub struct TbsModel {
    pub version: Version,
    pub serial_number: Seq<u8>,
    pub signature: Seq<u64>,
    pub issuer: NameModel,
    pub validity: (TimeModel, TimeModel),
    pub subject: NameModel,
    pub subject_pub_key_info: PublicKeyModel,
    pub issuer_unique_id: Option<(u8, Seq<u8>)>,
    pub subject_unique_id: Option<(u8, Seq<u8>)>,
    pub extensions: Seq<ExtensionModel>,
}

/// A context-specific constructed element with tag number `n`.
pub open spec fn is_explicit(e: ElementModel, n: u64) -> bool {
    match e {
        ElementModel::UnknownConstructed(t, c, _) => t == n && c == TagClass::ContextSpecific,
        _ => false,
    }
}

/// A context-specific primitive element with tag number `n`.
pub open spec fn is_implicit(e: ElementModel, n: u64) -> bool {
    match e {
        ElementModel::UnknownPrimitive(t, c, _) => t == n && c == TagClass::ContextSpecific,
        _ => false,
    }
}

/// The optional `[0] EXPLICIT Version` at the head: the version and the index after it.
pub open spec fn version_field(cs: Seq<SpannedModel>) -> Option<(Version, int)> {
    if cs.len() >= 1 && is_explicit(cs[0].elem, 0) {
        let inner = cs[0].elem->UnknownConstructed_2;
        if inner.len() == 1 && inner[0].elem is Integer && version_of(
            inner[0].elem->Integer_0,
        ) is Some {
            Some((version_of(inner[0].elem->Integer_0)->0, 1))
        } else {
            None
        }
    } else {
        Some((Version::Version1, 0))
    }
}

/// The content of an implicitly tagged BIT STRING.
pub open spec fn implicit_bit_string(e: ElementModel) -> Option<(u8, Seq<u8>)> {
    match e {
        ElementModel::UnknownPrimitive(_, _, d) => if d.len() >= 1 && d[0] <= 7 {
            Some((d[0], d.drop_first()))
        } else {
            None
        },
        _ => None,
    }
}

/// The optional `[n] IMPLICIT BIT STRING` at index `j`, and the index after it.
pub open spec fn unique_id_at(cs: Seq<SpannedModel>, j: int, n: u64) -> Option<
    (Option<(u8, Seq<u8>)>, int),
> {
    if 0 <= j < cs.len() && is_implicit(cs[j].elem, n) {
        match implicit_bit_string(cs[j].elem) {
            Some(b) => Some((Some(b), j + 1)),
            None => None,
        }
    } else {
        Some((None, j))
    }
}

/// `[3] EXPLICIT SEQUENCE OF Extension`.
pub open spec fn extensions_of(e: ElementModel) -> Option<Seq<ExtensionModel>> {
    if is_explicit(e, 3) && e->UnknownConstructed_2.len() == 1 {
        match e->UnknownConstructed_2[0].elem {
            ElementModel::Sequence(xs) => if forall|k: int|
                0 <= k < xs.len() ==> (#[trigger] extension_of(xs[k].elem)) is Some {
                Some(Seq::new(xs.len(), |k: int| extension_of(xs[k].elem)->0))
            } else {
                None
            },
            _ => None,
        }
    } else {
        None
    }
}

/// The optional extensions at index `j`, and the index after them.
pub open spec fn extensions_at(cs: Seq<SpannedModel>, j: int) -> Option<
    (Seq<ExtensionModel>, int),
> {
    if 0 <= j < cs.len() {
        match extensions_of(cs[j].elem) {
            Some(x) => Some((x, j + 1)),
            None => None,
        }
    } else {
        Some((seq![], j))
    }
}

/// The TBSCertificate whose SEQUENCE has these children.
pub open spec fn tbs_of(cs: Seq<SpannedModel>) -> Option<TbsModel> {
    match version_field(cs) {
        None => None,
        Some((version, i)) => if cs.len() < i + 6 {
            None
        } else {
            let serial = cs[i].elem;
            let signature = alg_id_of(cs[i + 1].elem);
            let issuer = name_elem_of(cs[i + 2].elem);
            let validity = validity_elem_of(cs[i + 3].elem);
            let subject = name_elem_of(cs[i + 4].elem);
            let spki = public_key_elem_of(cs[i + 5].elem);
            match unique_id_at(cs, i + 6, 1) {
                None => None,
                Some((iu, j1)) => match unique_id_at(cs, j1, 2) {
                    None => None,
                    Some((su, j2)) => match extensions_at(cs, j2) {
                        None => None,
                        Some((exts, j3)) => if serial is Integer && signature is Some
                            && issuer is Some && validity is Some && subject is Some
                            && spki is Some && j3 == cs.len() {
                            Some(
                                TbsModel {
                                    version,
                                    serial_number: serial->Integer_0,
                                    signature: signature->0,
                                    issuer: issuer->0,
                                    validity: validity->0,
                                    subject: subject->0,
                                    subject_pub_key_info: spki->0,
                                    issuer_unique_id: iu,
                                    subject_unique_id: su,
                                    extensions: exts,
                                },
                            )
                        } else {
                            None
                        },
                    },
                },
            }
        },
    }
}

/// A TBSCertificate encoded as a SEQUENCE.
pub open spec fn tbs_elem_of(e: ElementModel) -> Option<TbsModel> {
    match e {
        ElementModel::Sequence(cs) => tbs_of(cs),
        _ => None,
    }
}

pub open spec fn bits_view(b: Option<BitString>) -> Option<(u8, Seq<u8>)> {
    match b {
        Some(x) => Some(x@),
        None => None,
    }
}

/// The part of a certificate that its issuer signs.
#[derive(Debug)]
pub struct TbsCertificate {
    pub version: Version,
    pub serial_number: Vec<u8>,
    pub signature: AlgId,
    pub issuer: Name,
    pub validity: Validity,
    pub subject: Name,
    pub subject_pub_key_info: SubjectPublicKeyInfo,
    /// Allowed in versions 2 and 3 only.
    pub issuer_unique_id: Option<BitString>,
    /// Allowed in versions 2 and 3 only.
    pub subject_unique_id: Option<BitString>,
    /// Allowed in version 3 only.
    pub extensions: Vec<Extension>,
}

impl View for TbsCertificate {
    type V = TbsModel;

    open spec fn view(&self) -> TbsModel {
        TbsModel {
            version: self.version,
            serial_number: self.serial_number@,
            signature: self.signature@,
            issuer: self.issuer@,
            validity: self.validity@,
            subject: self.subject@,
            subject_pub_key_info: self.subject_pub_key_info@,
            issuer_unique_id: bits_view(self.issuer_unique_id),
            subject_unique_id: bits_view(self.subject_unique_id),
            extensions: self.extensions@.map_values(|x: Extension| x@),
        }
    }
}

fn version_from(children: &[SpannedElement]) -> (r: Option<(Version, usize)>)
    ensures
        match version_field(models(children@)) {
            Some((v, i)) => r == Some((v, i as usize)),
            None => r is None,
        },
{
    if children.len() == 0 {
        return Some((Version::Version1, 0));
    }
    match &children[0].elem {
        Element::UnknownConstructed(t, c, inner) => {
            if *t != 0 || *c != TagClass::ContextSpecific {
                return Some((Version::Version1, 0));
            }
            assert(children[0].elem@ == ElementModel::UnknownConstructed(
                *t,
                *c,
                children_view(inner),
            ));
            if inner.len() != 1 {
                return None;
            }
            match &inner[0].elem {
                Element::Integer(v) => match Version::from_integer(v.as_slice()) {
                    Ok(version) => Some((version, 1)),
                    Err(_) => None,
                },
                _ => None,
            }
        },
        _ => Some((Version::Version1, 0)),
    }
}

fn unique_id_from(children: &[SpannedElement], j: usize, n: u64) -> (r: Option<
    (Option<BitString>, usize),
>)
    ensures
        match unique_id_at(models(children@), j as int, n) {
            Some((b, k)) => r matches Some((x, y)) && bits_view(x) == b && y == k,
            None => r is None,
        },
{
    if j >= children.len() {
        return Some((None, j));
    }
    match &children[j].elem {
        Element::UnknownPrimitive(t, c, d) => {
            if *t != n || *c != TagClass::ContextSpecific {
                return Some((None, j));
            }
            if d.len() == 0 || d[0] > 7 {
                return None;
            }
            let mut data = copy_vec(d);
            let unused = data.remove(0);
            assert(data@ =~= d@.drop_first());
            Some((Some(BitString::new(unused, data)), j + 1))
        },
        _ => Some((None, j)),
    }
}

fn extensions_from(children: &[SpannedElement], j: usize) -> (r: Option<(Vec<Extension>, usize)>)
    ensures
        match extensions_at(models(children@), j as int) {
            Some((x, k)) => r matches Some((v, y)) && v@.map_values(|e: Extension| e@) == x && y
                == k,
            None => r is None,
        },
{
    if j >= children.len() {
        let v: Vec<Extension> = Vec::new();
        assert(v@.map_values(|e: Extension| e@) =~= seq![]);
        return Some((v, j));
    }
    let xs = match &children[j].elem {
        Element::UnknownConstructed(t, c, inner) => {
            assert(children[j as int].elem@ == ElementModel::UnknownConstructed(
                *t,
                *c,
                children_view(inner),
            ));
            if *t != 3 || *c != TagClass::ContextSpecific || inner.len() != 1 {
                return None;
            }
            match &inner[0].elem {
                Element::Sequence(xs) => {
                    assert(inner[0].elem@ == ElementModel::Sequence(children_view(xs)));
                    xs
                },
                _ => {
                    return None;
                },
            }
        },
        _ => {
            return None;
        },
    };
    let ghost ms = children_view(xs);
    let mut exts: Vec<Extension> = Vec::new();
    let mut k: usize = 0;
    while k < xs.len()
        invariant
            k <= xs.len(),
            ms == children_view(xs),
            j < children@.len(),
            extensions_of(models(children@)[j as int].elem) == (if forall|m: int|
                0 <= m < ms.len() ==> (#[trigger] extension_of(ms[m].elem)) is Some {
                Some(Seq::new(ms.len(), |m: int| extension_of(ms[m].elem)->0))
            } else {
                None::<Seq<ExtensionModel>>
            }),
            forall|m: int| 0 <= m < k ==> (#[trigger] extension_of(ms[m].elem)) is Some,
            exts@.map_values(|e: Extension| e@) == Seq::new(
                k as nat,
                |m: int| extension_of(ms[m].elem)->0,
            ),
        decreases xs.len() - k,
    {
        assert(xs[k as int].elem@ == ms[k as int].elem);
        let ghost before = exts@.map_values(|e: Extension| e@);
        match extension_from_elem(&xs[k].elem) {
            Some(x) => {
                exts.push(x);
                assert(exts@.map_values(|e: Extension| e@) =~= before.push(x@));
            },
            None => {
                return None;
            },
        }
        k = k + 1;
        assert(exts@.map_values(|e: Extension| e@) =~= Seq::new(
            k as nat,
            |m: int| extension_of(ms[m].elem)->0,
        ));
    }
    Some((exts, j + 1))
}

fn tbs_from_elem(e: &Element) -> (r: DerResult<TbsCertificate>)
    ensures
        match tbs_elem_of(e@) {
            Some(m) => r matches Ok(t) && t@ == m,
            None => r matches Err(x) && x == DerError::InvalidValue,
        },
{
    match e {
        Element::Sequence(cs) => {
            assert(e@ == ElementModel::Sequence(children_view(cs)));
            TbsCertificate::from_seq(cs.as_slice())
        },
        _ => Err(DerError::InvalidValue),
    }
}

impl TbsCertificate {
    /// The TBSCertificate whose SEQUENCE has these children.
    pub fn from_seq(children: &[SpannedElement]) -> (r: DerResult<TbsCertificate>)
        ensures
            match tbs_of(models(children@)) {
                Some(m) => r matches Ok(t) && t@ == m,
                None => r matches Err(e) && e == DerError::InvalidValue,
            },
    {
        let (version, i) = match version_from(children) {
            Some(v) => v,
            None => {
                return Err(DerError::InvalidValue);
            },
        };
        if children.len() < i + 6 {
            return Err(DerError::InvalidValue);
        }
        let serial_number = match &children[i].elem {
            Element::Integer(v) => copy_vec(v),
            _ => {
                return Err(DerError::InvalidValue);
            },
        };
        let signature: AlgId = match AlgId::from_elem(&children[i + 1].elem) {
            Ok(a) => a,
            Err(_) => {
                return Err(DerError::InvalidValue);
            },
        };
        let issuer = match name_from_elem(&children[i + 2].elem) {
            Ok(n) => n,
            Err(e) => {
                return Err(e);
            },
        };
        let validity = match validity_from_elem(&children[i + 3].elem) {
            Ok(v) => v,
            Err(e) => {
                return Err(e);
            },
        };
        let subject = match name_from_elem(&children[i + 4].elem) {
            Ok(n) => n,
            Err(e) => {
                return Err(e);
            },
        };
        let subject_pub_key_info = match public_key_from_elem(&children[i + 5].elem) {
            Ok(k) => k,
            Err(e) => {
                return Err(e);
            },
        };
        let (issuer_unique_id, j1) = match unique_id_from(children, i + 6, 1) {
            Some(x) => x,
            None => {
                return Err(DerError::InvalidValue);
            },
        };
        let (subject_unique_id, j2) = match unique_id_from(children, j1, 2) {
            Some(x) => x,
            None => {
                return Err(DerError::InvalidValue);
            },
        };
        let (extensions, j3) = match extensions_from(children, j2) {
            Some(x) => x,
            None => {
                return Err(DerError::InvalidValue);
            },
        };
        if j3 != children.len() {
            return Err(DerError::InvalidValue);
        }
        Ok(
            TbsCertificate {
                version,
                serial_number,
                signature,
                issuer,
                validity,
                subject,
                subject_pub_key_info,
                issuer_unique_id,
                subject_unique_id,
                extensions,
            },
        )
    }
}

/// The decoded fields of a Certificate.
pub struct CertificateModel {
    pub tbs_cert: TbsModel,
    pub sig_alg: Seq<u64>,
    pub sig_val: (u8, Seq<u8>),
}

/// `SEQUENCE { tbsCertificate, signatureAlgorithm, signatureValue BIT STRING }`,
/// the outer algorithm the same as the signed one, the signature whole bytes.
pub open spec fn certificate_of(cs: Seq<SpannedModel>) -> Option<CertificateModel> {
    if cs.len() == 3 && tbs_elem_of(cs[0].elem) is Some && alg_id_of(cs[1].elem) is Some
        && alg_id_of(cs[1].elem)->0 == tbs_elem_of(cs[0].elem)->0.signature
        && cs[2].elem is BitString && cs[2].elem->BitString_0 == 0 {
        Some(
            CertificateModel {
                tbs_cert: tbs_elem_of(cs[0].elem)->0,
                sig_alg: alg_id_of(cs[1].elem)->0,
                sig_val: (cs[2].elem->BitString_0, cs[2].elem->BitString_1),
            },
        )
    } else {
        None
    }
}

/// The certificate that a whole DER buffer encodes, with nothing after it.
pub open spec fn certificate_from_der(data: Seq<u8>) -> DerResult<CertificateModel> {
    match parse_element(data, 0, data.len() as int) {
        Err(e) => Err(e),
        Ok(m) => if m.end != data.len() {
            Err(DerError::InvalidValue)
        } else {
            match m.elem {
                ElementModel::Sequence(cs) => match certificate_of(cs) {
                    Some(c) => Ok(c),
                    None => Err(DerError::InvalidValue),
                },
                _ => Err(DerError::InvalidValue),
            }
        },
    }
}

/// A signed certificate.
#[derive(Debug)]
pub struct Certificate {
    pub tbs_cert: TbsCertificate,
    pub sig_alg: AlgId,
    pub sig_val: BitString,
}

impl View for Certificate {
    type V = CertificateModel;

    open spec fn view(&self) -> CertificateModel {
        CertificateModel { tbs_cert: self.tbs_cert@, sig_alg: self.sig_alg@, sig_val: self.sig_val@ }
    }
}

impl Certificate {
    /// The Certificate whose SEQUENCE has these children.
    pub fn from_seq(children: &[SpannedElement]) -> (r: DerResult<Certificate>)
        ensures
            match certificate_of(models(children@)) {
                Some(m) => r matches Ok(c) && c@ == m,
                None => r matches Err(e) && e == DerError::InvalidValue,
            },
    {
        if children.len() != 3 {
            return Err(DerError::InvalidValue);
        }
        let tbs_cert = match tbs_from_elem(&children[0].elem) {
            Ok(t) => t,
            Err(e) => {
                return Err(e);
            },
        };
        let sig_alg: AlgId = match AlgId::from_elem(&children[1].elem) {
            Ok(a) => a,
            Err(_) => {
                return Err(DerError::InvalidValue);
            },
        };
        if sig_alg != tbs_cert.signature {
            return Err(DerError::InvalidValue);
        }
        let sig_val = match &children[2].elem {
            Element::BitString(u, d) => {
                if *u != 0 {
                    return Err(DerError::InvalidValue);
                }
                BitString::new(*u, copy_vec(d))
            },
            _ => {
                return Err(DerError::InvalidValue);
            },
        };
        Ok(Certificate { tbs_cert, sig_alg, sig_val })
    }
}

/// Decodes a DER certificate that fills `cert` exactly. Which fields each
/// version allows (unique identifiers from version 2, extensions in version
/// 3) is not checked here but by `ValidationContext::check_cert`: a version 1
/// certificate with extensions decodes.
pub fn parse_certificate(cert: &[u8]) -> (r: DerResult<Certificate>)
    ensures
        match certificate_from_der(cert@) {
            Ok(m) => r matches Ok(c) && c@ == m,
            Err(e) => r matches Err(x) && x == e,
        },
{
    let mut reader = DerReader::new(cert, 0);
    let tree = match reader.read_element() {
        Ok(t) => t,
        Err(e) => {
            return Err(e);
        },
    };
    if reader.offset() != cert.len() {
        return Err(DerError::InvalidValue);
    }
    match &tree.elem {
        Element::Sequence(cs) => {
            assert(tree.elem@ == ElementModel::Sequence(children_view(cs)));
            Certificate::from_seq(cs.as_slice())
        },
        _ => Err(DerError::InvalidValue),
    }
}

} // verus!
