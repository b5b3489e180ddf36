//! Mathematical views of constants and code units.  A view replaces every
//! heap-owning container by a `Seq`, so that two values with equal views are
//! structurally equal, whatever their representation.

use vstd::prelude::*;

use crate::code::{CodeFlags, CodeObject, Location};
use crate::constant::{ConstantData, ConstantView, NameStr};
use crate::instr::{iview, InstrView, Instruction};

verus! {

/// The mathematical value of one constant.
#[verifier::ext_equal]
pub enum ConstView {
    Integer { negative: bool, magnitude: Seq<u8> },
    Float { bits: u64 },
    Complex { re_bits: u64, im_bits: u64 },
    Boolean { value: bool },
    Str { value: Seq<char> },
    Bytes { value: Seq<u8> },
    Code { code: CodeView },
    Tuple { elements: Seq<ConstView> },
    NoneValue,
    Ellipsis,
}

/// The mathematical value of one code unit.
#[verifier::ext_equal]
pub struct CodeView {
    pub instructions: Seq<InstrView>,
    pub locations: Seq<Location>,
    pub flags: CodeFlags,
    pub posonlyarg_count: usize,
    pub arg_count: usize,
    pub kwonlyarg_count: usize,
    pub source_path: Seq<char>,
    pub first_line_number: usize,
    pub obj_name: Seq<char>,
    pub cell2arg: Option<Seq<isize>>,
    pub constants: Seq<ConstView>,
    pub names: Seq<Seq<char>>,
    pub varnames: Seq<Seq<char>>,
    pub cellvars: Seq<Seq<char>>,
    pub freevars: Seq<Seq<char>>,
}

/// The view of an owned constant.
pub open spec fn cdview(c: ConstantData) -> ConstView
    decreases c,
{
    match c {
        ConstantData::Integer { value } => ConstView::Integer {
            negative: value.negative,
            magnitude: value.magnitude@,
        },
        ConstantData::Float { bits } => ConstView::Float { bits },
        ConstantData::Complex { re_bits, im_bits } => ConstView::Complex { re_bits, im_bits },
        ConstantData::Boolean { value } => ConstView::Boolean { value },
        ConstantData::Str { value } => ConstView::Str { value: value@ },
        ConstantData::Bytes { value } => ConstView::Bytes { value: value@ },
        ConstantData::Code { code } => ConstView::Code { code: cuview(*code) },
        ConstantData::Tuple { elements } => ConstView::Tuple { elements: cviews_of(elements@) },
        ConstantData::NoneValue => ConstView::NoneValue,
        ConstantData::Ellipsis => ConstView::Ellipsis,
    }
}

/// The views of a sequence of owned constants, elementwise.
pub open spec fn cviews_of(s: Seq<ConstantData>) -> Seq<ConstView>
    decreases s,
{
    if s.len() == 0 {
        Seq::empty()
    } else {
        seq![cdview(s[0])] + cviews_of(s.subrange(1, s.len() as int))
    }
}

/// The views of a sequence of instructions, elementwise.
pub open spec fn iviews_of(s: Seq<Instruction>) -> Seq<InstrView> {
    s.map(|k: int, i: Instruction| iview(i))
}

/// The views of a table of names, elementwise.
pub open spec fn nviews_of<N: NameStr>(s: Seq<N>) -> Seq<Seq<char>> {
    s.map(|k: int, n: N| n.str_view())
}

/// The view of the optional cell-to-argument map.
pub open spec fn c2a_view(o: Option<Vec<isize>>) -> Option<Seq<isize>> {
    match o {
        Option::Some(v) => Option::Some(v@),
        Option::None => Option::None,
    }
}

/// The view of an owned code unit.
pub open spec fn cuview(u: CodeObject<ConstantData, String>) -> CodeView
    decreases u,
{
    CodeView {
        instructions: iviews_of(u.instructions@),
        locations: u.locations@,
        flags: u.flags,
        posonlyarg_count: u.posonlyarg_count,
        arg_count: u.arg_count,
        kwonlyarg_count: u.kwonlyarg_count,
        source_path: u.source_path@,
        first_line_number: u.first_line_number,
        obj_name: u.obj_name@,
        cell2arg: c2a_view(u.cell2arg),
        constants: cviews_of(u.constants@),
        names: nviews_of(u.names@),
        varnames: nviews_of(u.varnames@),
        cellvars: nviews_of(u.cellvars@),
        freevars: nviews_of(u.freevars@),
    }
}

/// The view of a code unit over any constant representation.
pub open spec fn uview<C: ConstantView, N: NameStr>(u: CodeObject<C, N>) -> CodeView {
    CodeView {
        instructions: iviews_of(u.instructions@),
        locations: u.locations@,
        flags: u.flags,
        posonlyarg_count: u.posonlyarg_count,
        arg_count: u.arg_count,
        kwonlyarg_count: u.kwonlyarg_count,
        source_path: u.source_path@,
        first_line_number: u.first_line_number,
        obj_name: u.obj_name@,
        cell2arg: c2a_view(u.cell2arg),
        constants: u.constants@.map(|k: int, c: C| c.cview()),
        names: nviews_of(u.names@),
        varnames: nviews_of(u.varnames@),
        cellvars: nviews_of(u.cellvars@),
        freevars: nviews_of(u.freevars@),
    }
}

/// Structural size of a constant view, used as a termination measure.
pub open spec fn crank(v: ConstView) -> nat
    decreases v,
{
    match v {
        ConstView::Code { code } => 1 + urank(code),
        ConstView::Tuple { elements } => 1 + cranks(elements),
        _ => 1,
    }
}

/// Structural size of a sequence of constant views.
pub open spec fn cranks(s: Seq<ConstView>) -> nat
    decreases s,
{
    if s.len() == 0 {
        0
    } else {
        1 + crank(s[0]) + cranks(s.subrange(1, s.len() as int))
    }
}

/// Structural size of a code-unit view.
pub open spec fn urank(u: CodeView) -> nat
    decreases u,
{
    1 + cranks(u.constants)
}

/// Every element of a sequence of views is strictly smaller than the
/// sequence's own size.
pub proof fn lemma_cranks_elem(s: Seq<ConstView>, i: int)
    requires
        0 <= i < s.len(),
    ensures
        crank(s[i]) < cranks(s),
    decreases s.len(),
{
    if i == 0 {
    } else {
        lemma_cranks_elem(s.subrange(1, s.len() as int), i - 1);
        assert(s.subrange(1, s.len() as int)[i - 1] == s[i]);
    }
}

/// `cviews_of` agrees with mapping `cdview` over the sequence.
pub proof fn lemma_cviews_map(s: Seq<ConstantData>)
    ensures
        cviews_of(s) =~= s.map(|k: int, c: ConstantData| c.cview()),
    decreases s.len(),
{
    if s.len() == 0 {
    } else {
        lemma_cviews_map(s.subrange(1, s.len() as int));
    }
}

/// On owned data, the generic view agrees with the concrete one.
pub proof fn lemma_uview_basic(u: CodeObject<ConstantData, String>)
    ensures
        uview::<ConstantData, String>(u) == cuview(u),
{
    lemma_cviews_map(u.constants@);
    assert(uview::<ConstantData, String>(u) =~= cuview(u));
}

} // verus!
