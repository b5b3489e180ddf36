//! The constant value model: owned constants, a borrowed zero-copy view of
//! the same shape, and the capability traits that let a code unit be
//! parameterized over how constants and names are stored.

use vstd::prelude::*;
use vstd::slice::slice_to_vec;

use crate::code::CodeObject;
use crate::view::{cdview, crank, cranks, cuview, cviews_of, urank, uview, ConstView};
use crate::view::{lemma_cranks_elem, lemma_cviews_map, lemma_uview_basic};

verus! {

/// A signed arbitrary-precision integer held as plain data: a sign and a
/// little-endian magnitude.  The value denoted is
/// `(-1)^negative * sum magnitude[i] * 256^i`.
#[derive(Debug, PartialEq)]
pub struct BigIntValue {
    pub negative: bool,
    pub magnitude: Vec<u8>,
}

/// Copies a byte vector.
pub fn copy_bytes(v: &[u8]) -> (r: Vec<u8>)
    ensures
        r@ == v@,
{
    slice_to_vec(v)
}

impl BigIntValue {
    pub fn new(negative: bool, magnitude: Vec<u8>) -> (r: BigIntValue)
        ensures
            r.negative == negative,
            r.magnitude == magnitude,
    {
        BigIntValue { negative, magnitude }
    }

    /// A deep copy with the same sign and magnitude.
    pub fn duplicate(&self) -> (r: BigIntValue)
        ensures
            r.negative == self.negative,
            r.magnitude@ == self.magnitude@,
    {
        BigIntValue { negative: self.negative, magnitude: copy_bytes(self.magnitude.as_slice()) }
    }
}

/// An owned literal constant of the dynamic language.  Floating-point and
/// complex constants are held as their IEEE-754 bit patterns.
pub enum ConstantData {
    Integer { value: BigIntValue },
    Float { bits: u64 },
    Complex { re_bits: u64, im_bits: u64 },
    Boolean { value: bool },
    Str { value: String },
    Bytes { value: Vec<u8> },
    Code { code: Box<CodeObject<ConstantData, String>> },
    Tuple { elements: Vec<ConstantData> },
    NoneValue,
    Ellipsis,
}

/// Anything that behaves like a string: the associated name type of a
/// constant representation.
pub trait NameStr: Sized {
    /// The character sequence this name denotes.
    spec fn str_view(&self) -> Seq<char>;

    /// Expose the name as a string slice.
    fn as_str_ref(&self) -> (r: &str)
        ensures
            r@ == self.str_view(),
    ;
}

impl NameStr for String {
    open spec fn str_view(&self) -> Seq<char> {
        self@
    }

    fn as_str_ref(&self) -> (r: &str) {
        self.as_str()
    }
}

/// The mathematical value of a stored constant, whatever its
/// representation.
pub trait ConstantView {
    /// The mathematical value of this constant.
    spec fn cview(&self) -> ConstView;
}

/// A concrete representation of constants inside a code unit.
pub trait Constant: ConstantView + Sized {
    /// How this representation stores identifiers.
    type Name: NameStr;

    /// A read-only view of the same shape, without copying.
    fn borrow_constant<'a>(&'a self) -> (r: BorrowedConstant<'a, Self, Self::Name>)
        ensures
            r.bview() == self.cview(),
    ;

    /// Convert to the owned representation, deep-copying nested data.
    fn into_data(self) -> (r: ConstantData)
        ensures
            cdview(r) == self.cview(),
    ;

}

/// A factory that decides how constants and names are stored (freshly owned,
/// interned, ...).  Every bag is value-preserving: what it hands back denotes
/// the same mathematical value it was given.
pub trait ConstantBag: Sized {
    type Constant: Constant;

    fn make_constant(&self, constant: ConstantData) -> (r: Self::Constant)
        ensures
            r.cview() == cdview(constant),
    ;

    fn make_constant_borrowed<C: Constant>(
        &self,
        constant: BorrowedConstant<'_, C, C::Name>,
    ) -> (r: Self::Constant)
        ensures
            r.cview() == constant.bview(),
    ;

    fn make_name(&self, name: String) -> (r: <Self::Constant as Constant>::Name)
        ensures
            r.str_view() == name@,
    ;

    fn make_name_ref(&self, name: &str) -> (r: <Self::Constant as Constant>::Name)
        ensures
            r.str_view() == name@,
    ;
}

/// The identity bag: constants stay owned data, names stay strings.
#[derive(Clone)]
pub struct BasicBag;

/// A read-only, non-owning projection of a constant, shape-identical to
/// `ConstantData` but holding references; its tuple variant exposes the
/// borrowed elements as a slice instead of a materialized vector.
pub enum BorrowedConstant<'a, C = ConstantData, N = String> {
    Integer { value: &'a BigIntValue },
    Float { bits: u64 },
    Complex { re_bits: u64, im_bits: u64 },
    Boolean { value: bool },
    Str { value: &'a str },
    Bytes { value: &'a [u8] },
    Code { code: &'a CodeObject<C, N> },
    Tuple { elements: &'a [C] },
    NoneValue,
    Ellipsis,
}

impl<'a, C: ConstantView, N: NameStr> BorrowedConstant<'a, C, N> {
    /// The mathematical value of the borrowed constant.
    pub open spec fn bview(&self) -> ConstView {
        match *self {
            BorrowedConstant::Integer { value } => ConstView::Integer {
                negative: value.negative,
                magnitude: value.magnitude@,
            },
            BorrowedConstant::Float { bits } => ConstView::Float { bits },
            BorrowedConstant::Complex { re_bits, im_bits } => ConstView::Complex {
                re_bits,
                im_bits,
            },
            BorrowedConstant::Boolean { value } => ConstView::Boolean { value },
            BorrowedConstant::Str { value } => ConstView::Str { value: value@ },
            BorrowedConstant::Bytes { value } => ConstView::Bytes { value: value@ },
            BorrowedConstant::Code { code } => ConstView::Code { code: uview(*code) },
            BorrowedConstant::Tuple { elements } => ConstView::Tuple {
                elements: elements@.map(|k: int, c: C| c.cview()),
            },
            BorrowedConstant::NoneValue => ConstView::NoneValue,
            BorrowedConstant::Ellipsis => ConstView::Ellipsis,
        }
    }
}

impl<'a, C: Constant> BorrowedConstant<'a, C, C::Name> {
    /// Convert the borrowed view into owned data; always succeeds and
    /// deep-copies recursively, including nested code units.
    pub fn into_data(self) -> (r: ConstantData)
        ensures
            cdview(r) == self.bview(),
        decreases crank(self.bview()),
    {
        match self {
            BorrowedConstant::Integer { value } => ConstantData::Integer {
                value: value.duplicate(),
            },
            BorrowedConstant::Float { bits } => ConstantData::Float { bits },
            BorrowedConstant::Complex { re_bits, im_bits } => ConstantData::Complex {
                re_bits,
                im_bits,
            },
            BorrowedConstant::Boolean { value } => ConstantData::Boolean { value },
            BorrowedConstant::Str { value } => ConstantData::Str { value: value.to_owned() },
            BorrowedConstant::Bytes { value } => ConstantData::Bytes { value: copy_bytes(value) },
            BorrowedConstant::Code { code } => {
                let unit = unit_into_data(code);
                ConstantData::Code { code: Box::new(unit) }
            },
            BorrowedConstant::Tuple { elements } => {
                let copied = tuple_into_data(elements);
                ConstantData::Tuple { elements: copied }
            },
            BorrowedConstant::NoneValue => ConstantData::NoneValue,
            BorrowedConstant::Ellipsis => ConstantData::Ellipsis,
        }
    }
}

/// Deep-copies a borrowed tuple's elements into owned constants.
fn tuple_into_data<C: Constant>(elements: &[C]) -> (r: Vec<ConstantData>)
    ensures
        cviews_of_eq_helper(r@, elements@),
    decreases cranks(elements@.map(|k: int, c: C| c.cview())),
{
    let ghost target = elements@.map(|k: int, c: C| c.cview());
    let mut r: Vec<ConstantData> = Vec::new();
    let mut k: usize = 0;
    while k < elements.len()
        invariant
            k <= elements@.len(),
            target == elements@.map(|j: int, c: C| c.cview()),
            r@.len() == k,
            forall|j: int| 0 <= j < k ==> cdview(#[trigger] r@[j]) == target[j],
        decreases elements@.len() - k,
    {
        proof {
            lemma_cranks_elem(target, k as int);
            assert(target[k as int] == elements@[k as int].cview());
        }
        let b = elements[k].borrow_constant();
        let d = b.into_data();
        r.push(d);
        k = k + 1;
    }
    proof {
        lemma_cviews_map(r@);
        assert(cviews_of(r@) =~= target);
    }
    r
}

/// The elementwise view equality that `tuple_into_data` establishes.
pub open spec fn cviews_of_eq_helper<C: Constant>(r: Seq<ConstantData>, s: Seq<C>) -> bool {
    cviews_of(r) == s.map(|k: int, c: C| c.cview())
}

/// Deep-copies a code unit over any constant representation into one over
/// owned data; the view is preserved.
pub fn unit_into_data<C: Constant>(u: &CodeObject<C, C::Name>) -> (r: CodeObject<
    ConstantData,
    String,
>)
    ensures
        cuview(r) == uview(*u),
    decreases urank(uview(*u)),
{
    let ghost target = u.constants@.map(|k: int, c: C| c.cview());
    let mut constants: Vec<ConstantData> = Vec::new();
    let mut k: usize = 0;
    while k < u.constants.len()
        invariant
            k <= u.constants@.len(),
            target == u.constants@.map(|j: int, c: C| c.cview()),
            urank(uview(*u)) == 1 + cranks(target),
            constants@.len() == k,
            forall|j: int| 0 <= j < k ==> cdview(#[trigger] constants@[j]) == target[j],
        decreases u.constants@.len() - k,
    {
        proof {
            lemma_cranks_elem(target, k as int);
            assert(target[k as int] == u.constants@[k as int].cview());
        }
        let d = u.constants[k].borrow_constant().into_data();
        constants.push(d);
        k = k + 1;
    }
    proof {
        lemma_cviews_map(constants@);
        assert(cviews_of(constants@) =~= target);
    }
    let r = CodeObject {
        instructions: crate::code::copy_instructions(&u.instructions),
        locations: crate::code::copy_locations(&u.locations),
        flags: u.flags,
        posonlyarg_count: u.posonlyarg_count,
        arg_count: u.arg_count,
        kwonlyarg_count: u.kwonlyarg_count,
        source_path: u.source_path.clone(),
        first_line_number: u.first_line_number,
        obj_name: u.obj_name.clone(),
        cell2arg: crate::code::copy_cell2arg(&u.cell2arg),
        constants,
        names: crate::code::names_to_strings(&u.names),
        varnames: crate::code::names_to_strings(&u.varnames),
        cellvars: crate::code::names_to_strings(&u.cellvars),
        freevars: crate::code::names_to_strings(&u.freevars),
    };
    proof {
        assert(cuview(r) =~= uview(*u));
    }
    r
}

impl ConstantView for ConstantData {
    open spec fn cview(&self) -> ConstView {
        cdview(*self)
    }
}

impl Constant for ConstantData {
    type Name = String;

    fn borrow_constant<'a>(&'a self) -> (r: BorrowedConstant<'a, Self, Self::Name>) {
        let r = match self {
            ConstantData::Integer { value } => BorrowedConstant::Integer { value },
            ConstantData::Float { bits } => BorrowedConstant::Float { bits: *bits },
            ConstantData::Complex { re_bits, im_bits } => BorrowedConstant::Complex {
                re_bits: *re_bits,
                im_bits: *im_bits,
            },
            ConstantData::Boolean { value } => BorrowedConstant::Boolean { value: *value },
            ConstantData::Str { value } => BorrowedConstant::Str { value: value.as_str() },
            ConstantData::Bytes { value } => BorrowedConstant::Bytes { value: value.as_slice() },
            ConstantData::Code { code } => BorrowedConstant::Code { code: &**code },
            ConstantData::Tuple { elements } => BorrowedConstant::Tuple {
                elements: elements.as_slice(),
            },
            ConstantData::NoneValue => BorrowedConstant::NoneValue,
            ConstantData::Ellipsis => BorrowedConstant::Ellipsis,
        };
        proof {
            match self {
                ConstantData::Code { code } => {
                    lemma_uview_basic(**code);
                },
                ConstantData::Tuple { elements } => {
                    lemma_cviews_map(elements@);
                },
                _ => {},
            }
        }
        r
    }

    fn into_data(self) -> (r: ConstantData) {
        self
    }
}

impl ConstantData {
    /// Re-represent an owned constant through a bag.
    pub fn map_constant<Bag: ConstantBag>(self, bag: &Bag) -> (r: Bag::Constant)
        ensures
            r.cview() == cdview(self),
    {
        bag.make_constant(self)
    }
}

impl ConstantBag for BasicBag {
    type Constant = ConstantData;

    fn make_constant(&self, constant: ConstantData) -> (r: Self::Constant) {
        constant
    }

    fn make_constant_borrowed<C: Constant>(
        &self,
        constant: BorrowedConstant<'_, C, C::Name>,
    ) -> (r: Self::Constant) {
        constant.into_data()
    }

    fn make_name(&self, name: String) -> (r: String) {
        name
    }

    fn make_name_ref(&self, name: &str) -> (r: String) {
        name.to_owned()
    }
}

} // verus!
