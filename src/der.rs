//! A DER reader: turns a byte buffer into a tree of elements, each with the
//! byte span it came from.
use vstd::prelude::*;
use vstd::utf8::{decode_utf8, valid_utf8};

verus! {

broadcast use vstd::std_specs::vec::group_vec_axioms;

/// Why a DER buffer was refused.
#[derive(Debug, Clone, Copy, PartialEq, Eq, Structural)]
pub enum DerError {
    /// The input ended before the element did.
    UnexpectedEnd,
    /// The bytes break a DER rule.
    InvalidValue,
}

pub type DerResult<T> = Result<T, DerError>;

/// The two high bits of an identifier octet.
#[derive(Debug, Clone, Copy, PartialEq, Eq, Structural)]
pub enum TagClass {
    Universal,
    Application,
    ContextSpecific,
    Private,
}

/// A decoded DER value.
#[derive(Debug, PartialEq, Eq)]
pub enum Element {
    Boolean(bool),
    /// Two's complement, big-endian, minimally encoded.
    Integer(Vec<u8>),
    /// Number of unused bits in the last byte, then the bytes.
    BitString(u8, Vec<u8>),
    OctetString(Vec<u8>),
    Null,
    ObjectIdentifier(Vec<u64>),
    Utf8String(String),
    PrintableString(Vec<u8>),
    IA5String(Vec<u8>),
    UtcTime(Vec<u8>),
    Sequence(Vec<SpannedElement>),
    SetOf(Vec<SpannedElement>),
    /// Tag number, class and content of a primitive this reader does not interpret.
    UnknownPrimitive(u64, TagClass, Vec<u8>),
    /// Tag number, class and children of a constructed value this reader does not interpret.
    UnknownConstructed(u64, TagClass, Vec<SpannedElement>),
}

/// An element with the span `[start, end)` of the buffer that encoded it.
/// Two spanned elements are equal when their trees are, wherever they were read.
#[derive(Debug, Eq)]
pub struct SpannedElement {
    pub elem: Element,
    pub start: usize,
    pub end: usize,
}

/// The mathematical value of an `Element`.
pub enum ElementModel {
    Boolean(bool),
    Integer(Seq<u8>),
    BitString(u8, Seq<u8>),
    OctetString(Seq<u8>),
    Null,
    ObjectIdentifier(Seq<u64>),
    Utf8String(Seq<char>),
    PrintableString(Seq<u8>),
    IA5String(Seq<u8>),
    UtcTime(Seq<u8>),
    Sequence(Seq<SpannedModel>),
    SetOf(Seq<SpannedModel>),
    UnknownPrimitive(u64, TagClass, Seq<u8>),
    UnknownConstructed(u64, TagClass, Seq<SpannedModel>),
}

/// The mathematical value of a `SpannedElement`.
pub struct SpannedModel {
    pub elem: ElementModel,
    pub start: int,
    pub end: int,
}

impl View for Element {
    type V = ElementModel;

    open spec fn view(&self) -> ElementModel
        decreases self,
    {
        match self {
            Element::Boolean(b) => ElementModel::Boolean(*b),
            Element::Integer(v) => ElementModel::Integer(v@),
            Element::BitString(u, v) => ElementModel::BitString(*u, v@),
            Element::OctetString(v) => ElementModel::OctetString(v@),
            Element::Null => ElementModel::Null,
            Element::ObjectIdentifier(v) => ElementModel::ObjectIdentifier(v@),
            Element::Utf8String(s) => ElementModel::Utf8String(s@),
            Element::PrintableString(v) => ElementModel::PrintableString(v@),
            Element::IA5String(v) => ElementModel::IA5String(v@),
            Element::UtcTime(v) => ElementModel::UtcTime(v@),
            Element::Sequence(v) => ElementModel::Sequence(children_view(v)),
            Element::SetOf(v) => ElementModel::SetOf(children_view(v)),
            Element::UnknownPrimitive(t, c, v) => ElementModel::UnknownPrimitive(*t, *c, v@),
            Element::UnknownConstructed(t, c, v) => ElementModel::UnknownConstructed(
                *t,
                *c,
                children_view(v),
            ),
        }
    }
}

impl SpannedElement {
    pub fn new(elem: Element, start: usize, end: usize) -> (r: SpannedElement)
        ensures
            r@ == (SpannedModel { elem: elem@, start: start as int, end: end as int }),
    {
        SpannedElement { elem, start, end }
    }
}

/// The models of a list of children, in order.
pub open spec fn children_view(v: &Vec<SpannedElement>) -> Seq<SpannedModel>
    decreases v,
{
    Seq::new(
        v@.len(),
        |i: int|
            if 0 <= i < v.len() {
                SpannedModel {
                    elem: v[i].elem.view(),
                    start: v[i].start as int,
                    end: v[i].end as int,
                }
            } else {
                arbitrary()
            },
    )
}

/// The children's models are the models of the children.
pub broadcast proof fn lemma_children_view(v: &Vec<SpannedElement>)
    ensures
        #[trigger] children_view(v).len() == v.len(),
        forall|i: int| 0 <= i < v.len() ==> #[trigger] children_view(v)[i] == v[i]@,
{
}

/// The models of a slice of elements.
pub open spec fn models(s: Seq<SpannedElement>) -> Seq<SpannedModel> {
    s.map_values(|c: SpannedElement| c@)
}

pub broadcast proof fn lemma_children_models(v: &Vec<SpannedElement>)
    ensures
        #[trigger] children_view(v) == models(v@),
{
    assert(children_view(v) =~= models(v@));
}

impl View for SpannedElement {
    type V = SpannedModel;

    open spec fn view(&self) -> SpannedModel {
        SpannedModel { elem: self.elem@, start: self.start as int, end: self.end as int }
    }
}

// ---------------------------------------------------------------------------
// The encoding, as spec functions over the whole buffer `data`. Every parse
// reads inside a window `[pos, end)`; running past `end` is `UnexpectedEnd`.
// ---------------------------------------------------------------------------

/// Identifier and length octets of one element.
pub struct TlvHeader {
    pub class: TagClass,
    pub constructed: bool,
    pub tag: u64,
    pub content_start: int,
    pub content_end: int,
}

pub open spec fn class_of(b0: u8) -> TagClass {
    if b0 / 64 == 0 {
        TagClass::Universal
    } else if b0 / 64 == 1 {
        TagClass::Application
    } else if b0 / 64 == 2 {
        TagClass::ContextSpecific
    } else {
        TagClass::Private
    }
}

/// Whether one more base-128 digit after `acc` still fits in 64 bits.
pub open spec fn base128_fits(acc: u64) -> bool {
    acc < 0x200_0000_0000_0000
}

/// Long-form tag number: base-128 digits from `pos`, high bit set on all but
/// the last. Gives the number and the position after it.
pub open spec fn parse_long_tag(data: Seq<u8>, pos: int, end: int, acc: u64) -> DerResult<
    (u64, int),
>
    decreases end - pos,
{
    if pos >= end {
        Err(DerError::UnexpectedEnd)
    } else if !base128_fits(acc) {
        Err(DerError::InvalidValue)
    } else {
        let b = data[pos];
        let next = (acc * 128 + b % 128) as u64;
        if b < 0x80 {
            Ok((next, pos + 1))
        } else {
            parse_long_tag(data, pos + 1, end, next)
        }
    }
}

/// Big-endian value of a byte string.
pub open spec fn be_value(s: Seq<u8>) -> nat
    decreases s.len(),
{
    if s.len() == 0 {
        0
    } else {
        (be_value(s.drop_last()) * 256 + s.last()) as nat
    }
}

/// Length octets at `p`: the start of the content and its length.
pub open spec fn parse_length(data: Seq<u8>, p: int, end: int) -> DerResult<(int, nat)> {
    if p >= end {
        Err(DerError::UnexpectedEnd)
    } else {
        let l0 = data[p];
        if l0 == 0x80 {
            // the indefinite form is BER only
            Err(DerError::InvalidValue)
        } else if l0 < 0x80 {
            Ok((p + 1, l0 as nat))
        } else if l0 == 0xff {
            Err(DerError::InvalidValue)
        } else {
            let n = l0 - 0x80;
            if p + 1 + n > end {
                Err(DerError::UnexpectedEnd)
            } else {
                Ok((p + 1 + n, be_value(data.subrange(p + 1, p + 1 + n))))
            }
        }
    }
}

/// Identifier and length octets at `pos`; the content must fit in the window.
pub open spec fn parse_header(data: Seq<u8>, pos: int, end: int) -> DerResult<TlvHeader> {
    if pos >= end {
        Err(DerError::UnexpectedEnd)
    } else {
        let b0 = data[pos];
        let tag_res = if b0 % 32 == 31 {
            parse_long_tag(data, pos + 1, end, 0)
        } else {
            Ok(((b0 % 32) as u64, pos + 1))
        };
        match tag_res {
            Err(e) => Err(e),
            Ok((tag, p)) => match parse_length(data, p, end) {
                Err(e) => Err(e),
                Ok((cs, len)) => if len > end - cs {
                    Err(DerError::UnexpectedEnd)
                } else {
                    Ok(
                        TlvHeader {
                            class: class_of(b0),
                            constructed: b0 / 32 % 2 == 1,
                            tag,
                            content_start: cs,
                            content_end: cs + len,
                        },
                    )
                },
            },
        }
    }
}

/// DER's minimal two's complement: at least one byte, and the top nine bits
/// neither all zero nor all one.
pub open spec fn integer_minimal(c: Seq<u8>) -> bool {
    &&& c.len() >= 1
    &&& c.len() >= 2 ==> !(c[0] == 0 && c[1] < 0x80)
    &&& c.len() >= 2 ==> !(c[0] == 0xff && c[1] >= 0x80)
}

/// The PrintableString alphabet: letters, digits, space and `'()+,-./:=?`.
pub open spec fn is_printable_char(b: u8) -> bool {
    ||| 0x41 <= b <= 0x5a
    ||| 0x61 <= b <= 0x7a
    ||| 0x30 <= b <= 0x39
    ||| b == 0x20
    ||| 0x27 <= b <= 0x29
    ||| 0x2b <= b <= 0x2f
    ||| b == 0x3a
    ||| b == 0x3d
    ||| b == 0x3f
}

pub open spec fn all_printable(c: Seq<u8>) -> bool {
    forall|i: int| 0 <= i < c.len() ==> is_printable_char(#[trigger] c[i])
}

pub open spec fn all_ascii(c: Seq<u8>) -> bool {
    forall|i: int| 0 <= i < c.len() ==> #[trigger] c[i] < 0x80
}

/// The first two arcs, packed as `arc1 * 40 + arc2` in the first byte.
pub open spec fn oid_first_arcs(b: u8) -> Seq<u64> {
    if b >= 80 {
        seq![2u64, (b - 80) as u64]
    } else if b >= 40 {
        seq![1u64, (b - 40) as u64]
    } else {
        seq![0u64, b as u64]
    }
}

/// The remaining arcs, base-128 from index `i`: `acc` holds the digits read
/// of the current arc, `fresh` says that none were, `done` the arcs so far.
pub open spec fn oid_walk(c: Seq<u8>, i: int, acc: u64, fresh: bool, done: Seq<u64>) -> Option<
    Seq<u64>,
>
    decreases c.len() - i,
{
    if i >= c.len() {
        if fresh {
            Some(done)
        } else {
            None
        }
    } else {
        let b = c[i];
        if fresh && b == 0x80 {
            // a leading zero digit: not minimal
            None
        } else if !base128_fits(acc) {
            None
        } else {
            let v = (acc * 128 + b % 128) as u64;
            if b < 0x80 {
                oid_walk(c, i + 1, 0, true, done.push(v))
            } else {
                oid_walk(c, i + 1, v, false, done)
            }
        }
    }
}

/// The arcs of an OBJECT IDENTIFIER's content.
pub open spec fn oid_arcs(c: Seq<u8>) -> Option<Seq<u64>> {
    if c.len() == 0 {
        None
    } else {
        oid_walk(c, 1, 0, true, oid_first_arcs(c[0]))
    }
}

/// Universal primitives that are well-formed DER but not interpreted here.
pub open spec fn uninterpreted_primitive(tag: u64) -> bool {
    tag == 7 || tag == 9 || tag == 10 || (20 <= tag <= 30 && tag != 22 && tag != 23)
}

/// Universal constructed types that are kept as their children.
pub open spec fn uninterpreted_constructed(tag: u64) -> bool {
    tag == 8 || tag == 11
}

/// The value of a universal primitive with the given content.
pub open spec fn primitive_value(tag: u64, c: Seq<u8>) -> DerResult<ElementModel> {
    if tag == 1 {
        if c.len() == 1 && c[0] == 0 {
            Ok(ElementModel::Boolean(false))
        } else if c.len() == 1 && c[0] == 0xff {
            Ok(ElementModel::Boolean(true))
        } else {
            Err(DerError::InvalidValue)
        }
    } else if tag == 2 {
        if integer_minimal(c) {
            Ok(ElementModel::Integer(c))
        } else {
            Err(DerError::InvalidValue)
        }
    } else if tag == 3 {
        if c.len() >= 1 && c[0] <= 7 {
            Ok(ElementModel::BitString(c[0], c.drop_first()))
        } else {
            Err(DerError::InvalidValue)
        }
    } else if tag == 4 {
        Ok(ElementModel::OctetString(c))
    } else if tag == 5 {
        if c.len() == 0 {
            Ok(ElementModel::Null)
        } else {
            Err(DerError::InvalidValue)
        }
    } else if tag == 6 {
        match oid_arcs(c) {
            Some(arcs) => Ok(ElementModel::ObjectIdentifier(arcs)),
            None => Err(DerError::InvalidValue),
        }
    } else if tag == 12 {
        if valid_utf8(c) {
            Ok(ElementModel::Utf8String(decode_utf8(c)))
        } else {
            Err(DerError::InvalidValue)
        }
    } else if tag == 19 {
        if all_printable(c) {
            Ok(ElementModel::PrintableString(c))
        } else {
            Err(DerError::InvalidValue)
        }
    } else if tag == 22 {
        if all_ascii(c) {
            Ok(ElementModel::IA5String(c))
        } else {
            Err(DerError::InvalidValue)
        }
    } else if tag == 23 {
        Ok(ElementModel::UtcTime(c))
    } else if uninterpreted_primitive(tag) {
        Ok(ElementModel::UnknownPrimitive(tag, TagClass::Universal, c))
    } else {
        // includes end-of-contents (0), which DER does not have
        Err(DerError::InvalidValue)
    }
}

/// The element whose header `h` starts at `pos`.
pub open spec fn build_element(data: Seq<u8>, pos: int, h: TlvHeader) -> DerResult<SpannedModel>
    decreases h.content_end - h.content_start, 2int,
{
    if !h.constructed {
        let c = data.subrange(h.content_start, h.content_end);
        let value = if h.class != TagClass::Universal {
            Ok(ElementModel::UnknownPrimitive(h.tag, h.class, c))
        } else {
            primitive_value(h.tag, c)
        };
        match value {
            Ok(e) => Ok(SpannedModel { elem: e, start: pos, end: h.content_end }),
            Err(e) => Err(e),
        }
    } else if h.content_start > h.content_end {
        arbitrary()
    } else {
        // the children must fill the content exactly
        match parse_children(data, h.content_start, h.content_end, seq![]) {
            Err(_) => Err(DerError::InvalidValue),
            Ok(cs) => {
                let e = if h.class != TagClass::Universal || uninterpreted_constructed(h.tag) {
                    Ok(ElementModel::UnknownConstructed(h.tag, h.class, cs))
                } else if h.tag == 16 {
                    Ok(ElementModel::Sequence(cs))
                } else if h.tag == 17 {
                    Ok(ElementModel::SetOf(cs))
                } else {
                    Err(DerError::InvalidValue)
                };
                match e {
                    Ok(e) => Ok(SpannedModel { elem: e, start: pos, end: h.content_end }),
                    Err(e) => Err(e),
                }
            },
        }
    }
}

/// The elements that fill `[pos, end)`, appended to `done`.
pub open spec fn parse_children(data: Seq<u8>, pos: int, end: int, done: Seq<SpannedModel>) -> DerResult<
    Seq<SpannedModel>,
>
    decreases end - pos, 1int,
{
    if pos >= end {
        Ok(done)
    } else {
        match parse_header(data, pos, end) {
            Err(e) => Err(e),
            Ok(h) => {
                proof {
                    lemma_header_bounds(data, pos, end);
                }
                match build_element(data, pos, h) {
                    Err(e) => Err(e),
                    Ok(c) => parse_children(data, h.content_end, end, done.push(c)),
                }
            },
        }
    }
}

/// The element at `pos` in the window `[pos, end)`.
pub open spec fn parse_element(data: Seq<u8>, pos: int, end: int) -> DerResult<SpannedModel> {
    match parse_header(data, pos, end) {
        Err(e) => Err(e),
        Ok(h) => build_element(data, pos, h),
    }
}

pub proof fn lemma_long_tag_bounds(data: Seq<u8>, pos: int, end: int, acc: u64)
    ensures
        parse_long_tag(data, pos, end, acc) matches Ok((t, p)) ==> pos < p <= end,
    decreases end - pos,
{
    if pos < end && base128_fits(acc) && data[pos] >= 0x80 {
        lemma_long_tag_bounds(data, pos + 1, end, (acc * 128 + data[pos] % 128) as u64);
    }
}

/// A header lies inside its window and is never empty.
pub proof fn lemma_header_bounds(data: Seq<u8>, pos: int, end: int)
    ensures
        parse_header(data, pos, end) matches Ok(h) ==> pos < h.content_start <= h.content_end
            <= end,
{
    if pos < end && data[pos] % 32 == 31 {
        lemma_long_tag_bounds(data, pos + 1, end, 0);
    }
}

/// Relies on `String::from_utf8`: it accepts exactly the well-formed UTF-8
/// byte strings, and decodes them.
#[verifier::external_body]
fn utf8_string(bytes: Vec<u8>) -> (r: Option<String>)
    ensures
        r is Some <==> valid_utf8(bytes@),
        r matches Some(s) ==> s@ == decode_utf8(bytes@),
{
    String::from_utf8(bytes).ok()
}

fn is_printable_byte(b: u8) -> (r: bool)
    ensures
        r == is_printable_char(b),
{
    (0x41 <= b && b <= 0x5a) || (0x61 <= b && b <= 0x7a) || (0x30 <= b && b <= 0x39) || b == 0x20
        || (0x27 <= b && b <= 0x29) || (0x2b <= b && b <= 0x2f) || b == 0x3a || b == 0x3d || b
        == 0x3f
}

fn check_printable(c: &Vec<u8>) -> (r: bool)
    ensures
        r == all_printable(c@),
{
    let mut i: usize = 0;
    while i < c.len()
        invariant
            i <= c.len(),
            forall|j: int| 0 <= j < i ==> is_printable_char(#[trigger] c@[j]),
        decreases c.len() - i,
    {
        if !is_printable_byte(c[i]) {
            return false;
        }
        i = i + 1;
    }
    true
}

fn check_ascii(c: &Vec<u8>) -> (r: bool)
    ensures
        r == all_ascii(c@),
{
    let mut i: usize = 0;
    while i < c.len()
        invariant
            i <= c.len(),
            forall|j: int| 0 <= j < i ==> #[trigger] c@[j] < 0x80,
        decreases c.len() - i,
    {
        if c[i] >= 0x80 {
            return false;
        }
        i = i + 1;
    }
    true
}

/// The arcs of an OBJECT IDENTIFIER's content, if it is well-formed.
fn decode_oid(c: &Vec<u8>) -> (r: Option<Vec<u64>>)
    ensures
        match oid_arcs(c@) {
            Some(arcs) => r matches Some(v) && v@ == arcs,
            None => r is None,
        },
{
    if c.len() == 0 {
        return None;
    }
    let b0 = c[0];
    let mut arcs: Vec<u64> = Vec::new();
    if b0 >= 80 {
        arcs.push(2);
        arcs.push((b0 - 80) as u64);
    } else if b0 >= 40 {
        arcs.push(1);
        arcs.push((b0 - 40) as u64);
    } else {
        arcs.push(0);
        arcs.push(b0 as u64);
    }
    assert(arcs@ =~= oid_first_arcs(b0));
    let mut i: usize = 1;
    let mut acc: u64 = 0;
    let mut fresh = true;
    while i < c.len()
        invariant
            1 <= i <= c.len(),
            oid_arcs(c@) == oid_walk(c@, i as int, acc, fresh, arcs@),
        decreases c.len() - i,
    {
        let b = c[i];
        if fresh && b == 0x80 {
            return None;
        }
        if acc >= 0x200_0000_0000_0000 {
            return None;
        }
        let v = acc * 128 + (b % 128) as u64;
        if b < 0x80 {
            arcs.push(v);
            acc = 0;
            fresh = true;
        } else {
            acc = v;
            fresh = false;
        }
        i = i + 1;
    }
    if fresh {
        Some(arcs)
    } else {
        None
    }
}

/// The value of a universal primitive, from its tag number and content.
fn decode_primitive(tag: u64, content: Vec<u8>) -> (r: DerResult<Element>)
    ensures
        match primitive_value(tag, content@) {
            Ok(m) => r matches Ok(e) && e@ == m,
            Err(err) => r matches Err(x) && x == err,
        },
{
    if tag == 1 {
        if content.len() == 1 && content[0] == 0 {
            Ok(Element::Boolean(false))
        } else if content.len() == 1 && content[0] == 0xff {
            Ok(Element::Boolean(true))
        } else {
            Err(DerError::InvalidValue)
        }
    } else if tag == 2 {
        let n = content.len();
        if n == 0 || (n >= 2 && content[0] == 0 && content[1] < 0x80) || (n >= 2 && content[0]
            == 0xff && content[1] >= 0x80) {
            Err(DerError::InvalidValue)
        } else {
            Ok(Element::Integer(content))
        }
    } else if tag == 3 {
        if content.len() >= 1 && content[0] <= 7 {
            let mut bits = content;
            let unused = bits.remove(0);
            proof {
                assert(bits@ =~= content@.drop_first());
            }
            Ok(Element::BitString(unused, bits))
        } else {
            Err(DerError::InvalidValue)
        }
    } else if tag == 4 {
        Ok(Element::OctetString(content))
    } else if tag == 5 {
        if content.len() == 0 {
            Ok(Element::Null)
        } else {
            Err(DerError::InvalidValue)
        }
    } else if tag == 6 {
        match decode_oid(&content) {
            Some(arcs) => Ok(Element::ObjectIdentifier(arcs)),
            None => Err(DerError::InvalidValue),
        }
    } else if tag == 12 {
        match utf8_string(content) {
            Some(s) => Ok(Element::Utf8String(s)),
            None => Err(DerError::InvalidValue),
        }
    } else if tag == 19 {
        if check_printable(&content) {
            Ok(Element::PrintableString(content))
        } else {
            Err(DerError::InvalidValue)
        }
    } else if tag == 22 {
        if check_ascii(&content) {
            Ok(Element::IA5String(content))
        } else {
            Err(DerError::InvalidValue)
        }
    } else if tag == 23 {
        Ok(Element::UtcTime(content))
    } else if tag == 7 || tag == 9 || tag == 10 || (20 <= tag && tag <= 30 && tag != 22 && tag
        != 23) {
        Ok(Element::UnknownPrimitive(tag, TagClass::Universal, content))
    } else {
        Err(DerError::InvalidValue)
    }
}

/// Reads DER elements from a byte buffer, keeping the offset of each.
pub struct DerReader<'a> {
    data: &'a [u8],
    offset: usize,
    end: usize,
}

impl<'a> DerReader<'a> {
    /// The whole buffer.
    pub closed spec fn bytes(&self) -> Seq<u8> {
        self.data@
    }

    /// Where the next element starts.
    pub closed spec fn pos(&self) -> int {
        self.offset as int
    }

    /// Where the readable window ends.
    pub closed spec fn limit(&self) -> int {
        self.end as int
    }

    pub closed spec fn wf(&self) -> bool {
        self.end <= self.data@.len()
    }

    /// A reader of `data` from `offset` to its end. Spans are offsets into `data`.
    pub fn new(data: &'a [u8], offset: usize) -> (r: DerReader<'a>)
        ensures
            r.wf(),
            r.bytes() == data@,
            r.pos() == offset,
            r.limit() == data@.len(),
    {
        DerReader { data, offset, end: data.len() }
    }

    /// The offset of the next element.
    pub fn offset(&self) -> (r: usize)
        ensures
            r == self.pos(),
    {
        self.offset
    }

    /// Whether nothing is left to read.
    pub fn is_eof(&self) -> (r: bool)
        ensures
            r == (self.pos() >= self.limit()),
    {
        self.offset >= self.end
    }

    fn read_u8(&mut self) -> (r: DerResult<u8>)
        requires
            old(self).wf(),
        ensures
            final(self).wf(),
            final(self).bytes() == old(self).bytes(),
            final(self).limit() == old(self).limit(),
            old(self).pos() < old(self).limit() ==> r == Ok::<u8, DerError>(
                old(self).bytes()[old(self).pos()],
            ) && final(self).pos() == old(self).pos() + 1,
            old(self).pos() >= old(self).limit() ==> r == Err::<u8, DerError>(
                DerError::UnexpectedEnd,
            ) && final(self).pos() == old(self).pos(),
    {
        if self.offset >= self.end {
            return Err(DerError::UnexpectedEnd);
        }
        let v = self.data[self.offset];
        self.offset = self.offset + 1;
        Ok(v)
    }

    fn read_exact(&mut self, len: usize) -> (r: DerResult<Vec<u8>>)
        requires
            old(self).wf(),
        ensures
            final(self).wf(),
            final(self).bytes() == old(self).bytes(),
            final(self).limit() == old(self).limit(),
            old(self).pos() + len <= old(self).limit() ==> (r matches Ok(v) && v@ == old(
                self,
            ).bytes().subrange(old(self).pos(), old(self).pos() + len) && final(self).pos() == old(
                self,
            ).pos() + len),
            old(self).pos() + len > old(self).limit() ==> r == Err::<Vec<u8>, DerError>(
                DerError::UnexpectedEnd,
            ) && final(self).pos() == old(self).pos(),
    {
        if self.offset > self.end || len > self.end - self.offset {
            return Err(DerError::UnexpectedEnd);
        }
        let start = self.offset;
        let mut content: Vec<u8> = Vec::new();
        while self.offset < start + len
            invariant
                self.wf(),
                start <= self.offset <= start + len <= self.end,
                self.data@ == old(self).data@,
                self.end == old(self).end,
                content@ == self.data@.subrange(start as int, self.offset as int),
            decreases start + len - self.offset,
        {
            content.push(self.data[self.offset]);
            self.offset = self.offset + 1;
            assert(content@ =~= self.data@.subrange(start as int, self.offset as int));
        }
        Ok(content)
    }

    /// The base-128 digits of a long-form tag number.
    fn read_long_tag(&mut self) -> (r: DerResult<u64>)
        requires
            old(self).wf(),
        ensures
            final(self).wf(),
            final(self).bytes() == old(self).bytes(),
            final(self).limit() == old(self).limit(),
            match parse_long_tag(old(self).bytes(), old(self).pos(), old(self).limit(), 0) {
                Ok((t, p)) => r == Ok::<u64, DerError>(t) && final(self).pos() == p,
                Err(e) => r == Err::<u64, DerError>(e),
            },
    {
        let mut acc: u64 = 0;
        loop
            invariant
                self.wf(),
                self.bytes() == old(self).bytes(),
                self.limit() == old(self).limit(),
                parse_long_tag(old(self).bytes(), old(self).pos(), old(self).limit(), 0)
                    == parse_long_tag(self.bytes(), self.pos(), self.limit(), acc),
            decreases self.limit() - self.pos(),
        {
            let b = match self.read_u8() {
                Ok(b) => b,
                Err(e) => {
                    return Err(e);
                },
            };
            if acc >= 0x200_0000_0000_0000 {
                return Err(DerError::InvalidValue);
            }
            acc = acc * 128 + (b % 128) as u64;
            if b < 0x80 {
                return Ok(acc);
            }
        }
    }

    /// The length octets; refused with `UnexpectedEnd` where the content would
    /// not fit in the window.
    fn read_length(&mut self) -> (r: DerResult<usize>)
        requires
            old(self).wf(),
        ensures
            final(self).wf(),
            final(self).bytes() == old(self).bytes(),
            final(self).limit() == old(self).limit(),
            match parse_length(old(self).bytes(), old(self).pos(), old(self).limit()) {
                Ok((cs, len)) => if len > old(self).limit() - cs {
                    r == Err::<usize, DerError>(DerError::UnexpectedEnd)
                } else {
                    r == Ok::<usize, DerError>(len as usize) && final(self).pos() == cs
                },
                Err(e) => r == Err::<usize, DerError>(e),
            },
    {
        let l0 = match self.read_u8() {
            Ok(b) => b,
            Err(e) => {
                return Err(e);
            },
        };
        if l0 == 0x80 || l0 == 0xff {
            return Err(DerError::InvalidValue);
        }
        if l0 < 0x80 {
            if l0 as usize > self.end - self.offset {
                return Err(DerError::UnexpectedEnd);
            }
            return Ok(l0 as usize);
        }
        let n = l0 - 0x80;
        let ghost digits_start = self.offset as int;
        let cap = self.data.len();
        let mut len: usize = 0;
        let mut big = false;
        let mut i: u8 = 0;
        while i < n
            invariant
                self.wf(),
                self.bytes() == old(self).bytes(),
                self.limit() == old(self).limit(),
                cap == self.bytes().len(),
                digits_start == old(self).pos() + 1,
                old(self).pos() < old(self).limit(),
                l0 == old(self).bytes()[old(self).pos()],
                n == l0 - 0x80,
                0x80 < l0 < 0xff,
                0 <= i <= n,
                self.pos() == digits_start + i,
                digits_start + i <= self.limit(),
                !big ==> len == be_value(self.bytes().subrange(digits_start, digits_start + i)) && len <= cap,
                big ==> be_value(self.bytes().subrange(digits_start, digits_start + i)) > cap,
            decreases n - i,
        {
            let b = match self.read_u8() {
                Ok(b) => b,
                Err(e) => {
                    return Err(e);
                },
            };
            let ghost before = be_value(self.bytes().subrange(digits_start, digits_start + i));
            proof {
                let s = self.bytes().subrange(digits_start, digits_start + i + 1);
                assert(s.drop_last() =~= self.bytes().subrange(digits_start, digits_start + i));
                assert(be_value(s) == before * 256 + b);
            }
            if !big {
                if len > cap / 256 {
                    assert(len * 256 > cap) by (nonlinear_arith)
                        requires
                            len > cap / 256,
                    ;
                    big = true;
                } else {
                    assert(len * 256 <= cap) by (nonlinear_arith)
                        requires
                            len <= cap / 256,
                    ;
                    let t = len * 256;
                    if b as usize > cap - t {
                        big = true;
                    } else {
                        len = t + b as usize;
                    }
                }
            } else {
                assert(before * 256 + b >= before) by (nonlinear_arith)
                    requires
                        before >= 0,
                ;
            }
            i = i + 1;
        }
        if big || len > self.end - self.offset {
            return Err(DerError::UnexpectedEnd);
        }
        Ok(len)
    }

    /// Identifier and length octets: class, constructed bit, tag number and
    /// where the content ends. Leaves the reader at the content.
    fn read_header(&mut self) -> (r: DerResult<(TagClass, bool, u64, usize)>)
        requires
            old(self).wf(),
        ensures
            final(self).wf(),
            final(self).bytes() == old(self).bytes(),
            final(self).limit() == old(self).limit(),
            match parse_header(old(self).bytes(), old(self).pos(), old(self).limit()) {
                Ok(h) => r == Ok::<(TagClass, bool, u64, usize), DerError>(
                    (h.class, h.constructed, h.tag, h.content_end as usize),
                ) && final(self).pos() == h.content_start,
                Err(e) => r == Err::<(TagClass, bool, u64, usize), DerError>(e),
            },
    {
        proof {
            lemma_header_bounds(self.bytes(), self.pos(), self.limit());
        }
        let b0 = match self.read_u8() {
            Ok(b) => b,
            Err(e) => {
                return Err(e);
            },
        };
        let class = if b0 / 64 == 0 {
            TagClass::Universal
        } else if b0 / 64 == 1 {
            TagClass::Application
        } else if b0 / 64 == 2 {
            TagClass::ContextSpecific
        } else {
            TagClass::Private
        };
        let constructed = b0 / 32 % 2 == 1;
        let tag = if b0 % 32 == 31 {
            match self.read_long_tag() {
                Ok(t) => t,
                Err(e) => {
                    return Err(e);
                },
            }
        } else {
            (b0 % 32) as u64
        };
        let len = match self.read_length() {
            Ok(l) => l,
            Err(e) => {
                return Err(e);
            },
        };
        Ok((class, constructed, tag, self.offset + len))
    }

    /// Reads one element and everything inside it. On success the reader
    /// stands after it; on failure it has not moved.
    pub fn read_element(&mut self) -> (r: DerResult<SpannedElement>)
        requires
            old(self).wf(),
        ensures
            final(self).wf(),
            final(self).bytes() == old(self).bytes(),
            final(self).limit() == old(self).limit(),
            match parse_element(old(self).bytes(), old(self).pos(), old(self).limit()) {
                Ok(m) => r matches Ok(e) && e@ == m && final(self).pos() == m.end,
                Err(err) => r matches Err(x) && x == err && final(self).pos() == old(self).pos(),
            },
            r is Ok ==> old(self).pos() < final(self).pos() <= old(self).limit(),
        decreases old(self).limit() - old(self).pos(),
    {
        proof {
            lemma_header_bounds(self.bytes(), self.pos(), self.limit());
        }
        let start = self.offset;
        let (class, constructed, tag, content_end) = match self.read_header() {
            Ok(h) => h,
            Err(e) => {
                self.offset = start;
                return Err(e);
            },
        };
        let content_start = self.offset;
        if !constructed {
            let content = match self.read_exact(content_end - content_start) {
                Ok(c) => c,
                Err(e) => {
                    self.offset = start;
                    return Err(e);
                },
            };
            let elem = if class != TagClass::Universal {
                Element::UnknownPrimitive(tag, class, content)
            } else {
                match decode_primitive(tag, content) {
                    Ok(e) => e,
                    Err(e) => {
                        self.offset = start;
                        return Err(e);
                    },
                }
            };
            return Ok(SpannedElement::new(elem, start, content_end));
        }
        let ghost data = self.bytes();
        let mut sub = DerReader { data: self.data, offset: content_start, end: content_end };
        let mut children: Vec<SpannedElement> = Vec::new();
        assert(children_view(&children) =~= Seq::<SpannedModel>::empty());
        assert(parse_children(data, content_start as int, content_end as int, seq![]) is Err
            ==> parse_element(data, start as int, old(self).limit()) == Err::<SpannedModel, DerError>(
            DerError::InvalidValue,
        ));
        while sub.offset < content_end
            invariant
                sub.wf(),
                sub.bytes() == data,
                sub.limit() == content_end,
                content_start <= sub.offset <= content_end,
                content_end <= data.len(),
                self.wf(),
                self.bytes() == data,
                data == old(self).bytes(),
                self.limit() == old(self).limit(),
                start == old(self).pos(),
                start < content_start,
                content_end <= old(self).limit(),
                parse_children(data, content_start as int, content_end as int, seq![]) is Err
                    ==> parse_element(data, start as int, old(self).limit()) == Err::<
                    SpannedModel,
                    DerError,
                >(DerError::InvalidValue),
                parse_children(data, content_start as int, content_end as int, seq![])
                    == parse_children(data, sub.pos(), content_end as int, children_view(&children)),
            decreases content_end - sub.offset,
        {
            proof {
                lemma_header_bounds(data, sub.pos(), content_end as int);
            }
            match sub.read_element() {
                Ok(c) => {
                    let ghost before = children_view(&children);
                    children.push(c);
                    assert(children_view(&children) =~= before.push(c@));
                },
                Err(_) => {
                    self.offset = start;
                    return Err(DerError::InvalidValue);
                },
            }
        }
        self.offset = content_end;
        let elem = if class != TagClass::Universal || tag == 8 || tag == 11 {
            Element::UnknownConstructed(tag, class, children)
        } else if tag == 16 {
            Element::Sequence(children)
        } else if tag == 17 {
            Element::SetOf(children)
        } else {
            self.offset = start;
            return Err(DerError::InvalidValue);
        };
        Ok(SpannedElement::new(elem, start, content_end))
    }
}

/// A copy of a vector of plain values.
pub fn copy_vec<T: Copy>(v: &Vec<T>) -> (r: Vec<T>)
    ensures
        r@ == v@,
{
    let mut out: Vec<T> = Vec::new();
    let mut i: usize = 0;
    while i < v.len()
        invariant
            i <= v.len(),
            out@ == v@.subrange(0, i as int),
        decreases v.len() - i,
    {
        out.push(v[i]);
        i = i + 1;
        assert(out@ =~= v@.subrange(0, i as int));
    }
    assert(out@ =~= v@);
    out
}

fn copy_string(s: &String) -> (r: String)
    ensures
        r@ == s@,
{
    s.clone()
}

impl Element {
    /// A copy of the whole tree.
    pub fn deep_clone(&self) -> (r: Element)
        ensures
            r@ == self@,
        decreases self,
    {
        match self {
            Element::Boolean(b) => Element::Boolean(*b),
            Element::Integer(v) => Element::Integer(copy_vec(v)),
            Element::BitString(u, v) => Element::BitString(*u, copy_vec(v)),
            Element::OctetString(v) => Element::OctetString(copy_vec(v)),
            Element::Null => Element::Null,
            Element::ObjectIdentifier(v) => Element::ObjectIdentifier(copy_vec(v)),
            Element::Utf8String(s) => Element::Utf8String(copy_string(s)),
            Element::PrintableString(v) => Element::PrintableString(copy_vec(v)),
            Element::IA5String(v) => Element::IA5String(copy_vec(v)),
            Element::UtcTime(v) => Element::UtcTime(copy_vec(v)),
            Element::Sequence(v) => Element::Sequence(clone_children(v)),
            Element::SetOf(v) => Element::SetOf(clone_children(v)),
            Element::UnknownPrimitive(t, c, v) => Element::UnknownPrimitive(*t, *c, copy_vec(v)),
            Element::UnknownConstructed(t, c, v) => Element::UnknownConstructed(
                *t,
                *c,
                clone_children(v),
            ),
        }
    }
}

fn clone_children(v: &Vec<SpannedElement>) -> (r: Vec<SpannedElement>)
    ensures
        children_view(&r) == children_view(v),
    decreases v,
{
    let mut out: Vec<SpannedElement> = Vec::new();
    let mut i: usize = 0;
    while i < v.len()
        invariant
            i <= v.len(),
            children_view(&out) == children_view(v).subrange(0, i as int),
        decreases v.len() - i,
    {
        let ghost before = children_view(&out);
        let c = SpannedElement { elem: v[i].elem.deep_clone(), start: v[i].start, end: v[i].end };
        out.push(c);
        i = i + 1;
        assert(children_view(&out) =~= before.push(c@));
        assert(children_view(&out) =~= children_view(v).subrange(0, i as int));
    }
    assert(children_view(&out) =~= children_view(v));
    out
}

/// The same tree of values, whatever the spans of the elements in it.
pub open spec fn same_tree(a: ElementModel, b: ElementModel) -> bool
    decreases a, 0int,
{
    match a {
        ElementModel::Sequence(xs) => match b {
            ElementModel::Sequence(ys) => same_children(xs, ys, 0),
            _ => false,
        },
        ElementModel::SetOf(xs) => match b {
            ElementModel::SetOf(ys) => same_children(xs, ys, 0),
            _ => false,
        },
        ElementModel::UnknownConstructed(t, c, xs) => match b {
            ElementModel::UnknownConstructed(u, d, ys) => t == u && c == d && same_children(
                xs,
                ys,
                0,
            ),
            _ => false,
        },
        _ => a == b,
    }
}

/// The children from index `i` on are pairwise the same trees.
pub open spec fn same_children(xs: Seq<SpannedModel>, ys: Seq<SpannedModel>, i: int) -> bool
    decreases xs, xs.len() - i,
{
    if xs.len() != ys.len() {
        false
    } else if i < 0 || i >= xs.len() {
        true
    } else {
        same_tree(xs[i].elem, ys[i].elem) && same_children(xs, ys, i + 1)
    }
}

fn bytes_eq(a: &Vec<u8>, b: &Vec<u8>) -> (r: bool)
    ensures
        r == (a@ == b@),
{
    if a.len() != b.len() {
        return false;
    }
    let mut i: usize = 0;
    while i < a.len()
        invariant
            i <= a.len() == b.len(),
            forall|j: int| 0 <= j < i ==> a@[j] == b@[j],
        decreases a.len() - i,
    {
        if a[i] != b[i] {
            return false;
        }
        i = i + 1;
    }
    assert(a@ =~= b@);
    true
}

fn arcs_eq(a: &Vec<u64>, b: &Vec<u64>) -> (r: bool)
    ensures
        r == (a@ == b@),
{
    if a.len() != b.len() {
        return false;
    }
    let mut i: usize = 0;
    while i < a.len()
        invariant
            i <= a.len() == b.len(),
            forall|j: int| 0 <= j < i ==> a@[j] == b@[j],
        decreases a.len() - i,
    {
        if a[i] != b[i] {
            return false;
        }
        i = i + 1;
    }
    assert(a@ =~= b@);
    true
}

/// Whether two trees hold the same values, whatever their spans.
pub fn element_eq(a: &Element, b: &Element) -> (r: bool)
    ensures
        r == same_tree(a@, b@),
    decreases a,
{
    match (a, b) {
        (Element::Boolean(x), Element::Boolean(y)) => *x == *y,
        (Element::Integer(x), Element::Integer(y)) => bytes_eq(x, y),
        (Element::BitString(u, x), Element::BitString(v, y)) => *u == *v && bytes_eq(x, y),
        (Element::OctetString(x), Element::OctetString(y)) => bytes_eq(x, y),
        (Element::Null, Element::Null) => true,
        (Element::ObjectIdentifier(x), Element::ObjectIdentifier(y)) => arcs_eq(x, y),
        (Element::Utf8String(x), Element::Utf8String(y)) => *x == *y,
        (Element::PrintableString(x), Element::PrintableString(y)) => bytes_eq(x, y),
        (Element::IA5String(x), Element::IA5String(y)) => bytes_eq(x, y),
        (Element::UtcTime(x), Element::UtcTime(y)) => bytes_eq(x, y),
        (Element::Sequence(xs), Element::Sequence(ys)) => children_eq(xs, ys),
        (Element::SetOf(xs), Element::SetOf(ys)) => children_eq(xs, ys),
        (Element::UnknownPrimitive(t, c, x), Element::UnknownPrimitive(u, d, y)) => *t == *u && *c
            == *d && bytes_eq(x, y),
        (Element::UnknownConstructed(t, c, xs), Element::UnknownConstructed(u, d, ys)) => *t == *u
            && *c == *d && children_eq(xs, ys),
        _ => false,
    }
}

fn children_eq(xs: &Vec<SpannedElement>, ys: &Vec<SpannedElement>) -> (r: bool)
    ensures
        r == same_children(children_view(xs), children_view(ys), 0),
    decreases xs,
{
    let ghost cx = children_view(xs);
    let ghost cy = children_view(ys);
    if xs.len() != ys.len() {
        return false;
    }
    let mut i: usize = 0;
    while i < xs.len()
        invariant
            i <= xs.len() == ys.len(),
            cx == children_view(xs),
            cy == children_view(ys),
            same_children(cx, cy, 0) == same_children(cx, cy, i as int),
        decreases xs.len() - i,
    {
        if !element_eq(&xs[i].elem, &ys[i].elem) {
            return false;
        }
        i = i + 1;
    }
    true
}

impl PartialEq for SpannedElement {
    fn eq(&self, o: &SpannedElement) -> (r: bool)
        ensures
            r == same_tree(self.elem@, o.elem@),
    {
        element_eq(&self.elem, &o.elem)
    }
}

impl vstd::std_specs::cmp::PartialEqSpecImpl for SpannedElement {
    open spec fn obeys_eq_spec() -> bool {
        true
    }

    open spec fn eq_spec(&self, o: &SpannedElement) -> bool {
        same_tree(self.elem@, o.elem@)
    }
}

/// `cs` lie one after another, none empty, from `from` to `to`.
pub open spec fn spans_chain(cs: Seq<SpannedModel>, from: int, to: int) -> bool
    decreases cs.len(),
{
    if cs.len() == 0 {
        from == to
    } else {
        &&& spans_chain(cs.drop_last(), from, cs.last().start)
        &&& cs.last().start < cs.last().end
        &&& cs.last().end == to
    }
}

/// The children of a constructed element.
pub open spec fn children_of(e: ElementModel) -> Option<Seq<SpannedModel>> {
    match e {
        ElementModel::Sequence(cs) => Some(cs),
        ElementModel::SetOf(cs) => Some(cs),
        ElementModel::UnknownConstructed(_, _, cs) => Some(cs),
        _ => None,
    }
}

/// Each of `cs` is what parsing at its start, inside the window ending at `end`, gives.
pub open spec fn each_parsed_at_start(data: Seq<u8>, cs: Seq<SpannedModel>, end: int) -> bool {
    forall|i: int|
        0 <= i < cs.len() ==> parse_element(data, #[trigger] cs[i].start, end) == Ok::<
            SpannedModel,
            DerError,
        >(cs[i])
}

proof fn lemma_built_span(data: Seq<u8>, pos: int, h: TlvHeader)
    requires
        h.content_start <= h.content_end,
    ensures
        build_element(data, pos, h) matches Ok(m) ==> m.start == pos && m.end == h.content_end,
{
}

proof fn lemma_children_spans(
    data: Seq<u8>,
    pos: int,
    end: int,
    done: Seq<SpannedModel>,
    from: int,
)
    requires
        parse_children(data, pos, end, done) is Ok,
        spans_chain(done, from, pos),
        pos <= end,
        each_parsed_at_start(data, done, end),
    ensures
        spans_chain(parse_children(data, pos, end, done)->Ok_0, from, end),
        each_parsed_at_start(data, parse_children(data, pos, end, done)->Ok_0, end),
    decreases end - pos,
{
    if pos < end {
        lemma_header_bounds(data, pos, end);
        let h = parse_header(data, pos, end)->Ok_0;
        lemma_built_span(data, pos, h);
        let c = build_element(data, pos, h)->Ok_0;
        let next = done.push(c);
        assert(next.drop_last() =~= done);
        assert(each_parsed_at_start(data, next, end)) by {
            assert forall|i: int| 0 <= i < next.len() implies parse_element(
                data,
                #[trigger] next[i].start,
                end,
            ) == Ok::<SpannedModel, DerError>(next[i]) by {
                if i < done.len() {
                    assert(next[i] == done[i]);
                }
            }
        }
        lemma_children_spans(data, h.content_end, end, next, from);
    }
}

/// The spans of a parsed element: it starts where it was read and ends
/// inside the window; after its header, the children of a constructed
/// element lie one after another and fill its content exactly, and each
/// child is what parsing at its own start gives, so the same holds of it.
pub proof fn lemma_element_spans(data: Seq<u8>, pos: int, end: int)
    requires
        parse_element(data, pos, end) is Ok,
    ensures
        ({
            let m = parse_element(data, pos, end)->Ok_0;
            let h = parse_header(data, pos, end)->Ok_0;
            &&& m.start == pos
            &&& pos < h.content_start <= m.end <= end
            &&& m.end == h.content_end
            &&& children_of(m.elem) matches Some(cs) ==> spans_chain(cs, h.content_start, m.end)
                && each_parsed_at_start(data, cs, m.end)
        }),
{
    lemma_header_bounds(data, pos, end);
    let h = parse_header(data, pos, end)->Ok_0;
    lemma_built_span(data, pos, h);
    if h.constructed {
        let e: Seq<SpannedModel> = seq![];
        assert(spans_chain(e, h.content_start, h.content_start));
        lemma_children_spans(data, h.content_start, h.content_end, e, h.content_start);
    }
}

} // verus!
