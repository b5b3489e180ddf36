//! The serialization codec: a self-describing binary encoding of a code
//! unit (defined by the `enc_*` spec functions), wrapped in a checksummed
//! block-compression frame.  Decoding is proved to invert encoding: on any
//! buffer that holds an encoded unit, `decode` returns exactly that unit.

use vstd::prelude::*;
use vstd::string::StrSliceExecFns;

use crate::code::{CodeFlags, CodeObject, Location};
use crate::constant::{BigIntValue, ConstantData, ConstantView};
use crate::instr::{iview, CallType, ComparisonOperator, ConversionFlag, InstrView, Instruction};
use crate::instr::{BinaryOperator, Label, UnaryOperator};
use crate::view::{cdview, cuview, cviews_of, iviews_of, nviews_of, CodeView, ConstView};

verus! {

/// Why a buffer failed to decode.
#[derive(Debug, Clone, Copy, PartialEq, Eq, Structural)]
pub enum DecodeError {
    /// The buffer does not start with the compression frame's magic
    /// number: it is not this format at all.
    WrongMagic,
    /// The compression frame is corrupt: a checksum failed, a block was
    /// malformed, or the frame ends early.
    Frame,
    /// The structural payload ends before the encoded unit is complete.
    Truncated,
    /// A tag, count or field of the payload has no valid interpretation.
    Malformed,
    /// Well-formed unit, but bytes follow it in the payload.
    TrailingData,
}

// ---------------------------------------------------------------------
// primitive encodings
// ---------------------------------------------------------------------

/// A 64-bit value, little endian.
pub open spec fn enc_u64(x: u64) -> Seq<u8> {
    seq![
        (x & 0xff) as u8,
        ((x >> 8) & 0xff) as u8,
        ((x >> 16) & 0xff) as u8,
        ((x >> 24) & 0xff) as u8,
        ((x >> 32) & 0xff) as u8,
        ((x >> 40) & 0xff) as u8,
        ((x >> 48) & 0xff) as u8,
        ((x >> 56) & 0xff) as u8,
    ]
}

/// A 32-bit value, little endian.
pub open spec fn enc_u32(x: u32) -> Seq<u8> {
    seq![(x & 0xff) as u8, ((x >> 8) & 0xff) as u8, ((x >> 16) & 0xff) as u8, ((x >> 24)
        & 0xff) as u8]
}

/// A 16-bit value, little endian.
pub open spec fn enc_u16(x: u16) -> Seq<u8> {
    seq![(x & 0xff) as u8, ((x >> 8) & 0xff) as u8]
}

/// A machine word, widened to 64 bits.
pub open spec fn enc_usize(x: usize) -> Seq<u8> {
    enc_u64(x as u64)
}

/// A boolean as one byte, 0 or 1.
pub open spec fn enc_bool(v: bool) -> Seq<u8> {
    seq![if v {
        1u8
    } else {
        0u8
    }]
}

/// Does `b` hold exactly the bytes `s` starting at `pos`?
pub open spec fn has_at(b: Seq<u8>, pos: int, s: Seq<u8>) -> bool {
    &&& 0 <= pos
    &&& pos + s.len() <= b.len()
    &&& forall|i: int| 0 <= i < s.len() ==> b[pos + i] == #[trigger] s[i]
}

/// Bytes at a position decompose over concatenation.
pub proof fn lemma_has_at_concat(b: Seq<u8>, pos: int, s1: Seq<u8>, s2: Seq<u8>)
    requires
        has_at(b, pos, s1 + s2),
    ensures
        has_at(b, pos, s1),
        has_at(b, pos + s1.len(), s2),
{
    assert forall|i: int| 0 <= i < s1.len() implies b[pos + i] == #[trigger] s1[i] by {
        assert((s1 + s2)[i] == s1[i]);
        assert(b[pos + i] == (s1 + s2)[i]);
    }
    assert forall|i: int| 0 <= i < s2.len() implies b[pos + s1.len() + i] == #[trigger] s2[i] by {
        assert((s1 + s2)[s1.len() + i] == s2[i]);
        assert(b[pos + (s1.len() + i)] == (s1 + s2)[s1.len() + i]);
    }
}

/// Little-endian recombination of eight bytes.
pub open spec fn le64_of(
    b0: u8,
    b1: u8,
    b2: u8,
    b3: u8,
    b4: u8,
    b5: u8,
    b6: u8,
    b7: u8,
) -> u64 {
    (b0 as u64) | ((b1 as u64) << 8) | ((b2 as u64) << 16) | ((b3 as u64) << 24) | ((
    b4 as u64) << 32) | ((b5 as u64) << 40) | ((b6 as u64) << 48) | ((b7 as u64) << 56)
}

/// Recombining the bytes of `x` yields `x`.
pub proof fn lemma_le64_enc(x: u64)
    ensures
        le64_of(
            (x & 0xff) as u8,
            ((x >> 8) & 0xff) as u8,
            ((x >> 16) & 0xff) as u8,
            ((x >> 24) & 0xff) as u8,
            ((x >> 32) & 0xff) as u8,
            ((x >> 40) & 0xff) as u8,
            ((x >> 48) & 0xff) as u8,
            ((x >> 56) & 0xff) as u8,
        ) == x,
{
    assert((((x & 0xff) as u8) as u64) | ((((x >> 8) & 0xff) as u8) as u64) << 8 | ((((x >> 16)
        & 0xff) as u8) as u64) << 16 | ((((x >> 24) & 0xff) as u8) as u64) << 24 | ((((x >> 32)
        & 0xff) as u8) as u64) << 32 | ((((x >> 40) & 0xff) as u8) as u64) << 40 | ((((x >> 48)
        & 0xff) as u8) as u64) << 48 | ((((x >> 56) & 0xff) as u8) as u64) << 56 == x)
        by (bit_vector);
}

/// Little-endian recombination of four bytes.
pub open spec fn le32_of(b0: u8, b1: u8, b2: u8, b3: u8) -> u32 {
    (b0 as u32) | ((b1 as u32) << 8) | ((b2 as u32) << 16) | ((b3 as u32) << 24)
}

/// Recombining the bytes of `x` yields `x`.
pub proof fn lemma_le32_enc(x: u32)
    ensures
        le32_of(
            (x & 0xff) as u8,
            ((x >> 8) & 0xff) as u8,
            ((x >> 16) & 0xff) as u8,
            ((x >> 24) & 0xff) as u8,
        ) == x,
{
    assert((((x & 0xff) as u8) as u32) | ((((x >> 8) & 0xff) as u8) as u32) << 8 | ((((x >> 16)
        & 0xff) as u8) as u32) << 16 | ((((x >> 24) & 0xff) as u8) as u32) << 24 == x)
        by (bit_vector);
}

/// Little-endian recombination of two bytes.
pub open spec fn le16_of(b0: u8, b1: u8) -> u16 {
    (b0 as u16) | ((b1 as u16) << 8)
}

/// Recombining the bytes of `x` yields `x`.
pub proof fn lemma_le16_enc(x: u16)
    ensures
        le16_of((x & 0xff) as u8, ((x >> 8) & 0xff) as u8) == x,
{
    assert((((x & 0xff) as u8) as u16) | ((((x >> 8) & 0xff) as u8) as u16) << 8 == x)
        by (bit_vector);
}


/// The recombined bytes at a position that holds an encoded 64-bit value.
pub proof fn lemma_at_u64(b: Seq<u8>, pos: int, x: u64)
    requires
        has_at(b, pos, enc_u64(x)),
    ensures
        le64_of(
            b[pos],
            b[pos + 1],
            b[pos + 2],
            b[pos + 3],
            b[pos + 4],
            b[pos + 5],
            b[pos + 6],
            b[pos + 7],
        ) == x,
        pos + 8 <= b.len(),
{
    assert(b[pos] == enc_u64(x)[0]);
    assert(b[pos + 1] == enc_u64(x)[1]);
    assert(b[pos + 2] == enc_u64(x)[2]);
    assert(b[pos + 3] == enc_u64(x)[3]);
    assert(b[pos + 4] == enc_u64(x)[4]);
    assert(b[pos + 5] == enc_u64(x)[5]);
    assert(b[pos + 6] == enc_u64(x)[6]);
    assert(b[pos + 7] == enc_u64(x)[7]);
    lemma_le64_enc(x);
}

/// The recombined bytes at a position that holds an encoded 32-bit value.
pub proof fn lemma_at_u32(b: Seq<u8>, pos: int, x: u32)
    requires
        has_at(b, pos, enc_u32(x)),
    ensures
        le32_of(b[pos], b[pos + 1], b[pos + 2], b[pos + 3]) == x,
        pos + 4 <= b.len(),
{
    assert(b[pos] == enc_u32(x)[0]);
    assert(b[pos + 1] == enc_u32(x)[1]);
    assert(b[pos + 2] == enc_u32(x)[2]);
    assert(b[pos + 3] == enc_u32(x)[3]);
    lemma_le32_enc(x);
}

/// The recombined bytes at a position that holds an encoded 16-bit value.
pub proof fn lemma_at_u16(b: Seq<u8>, pos: int, x: u16)
    requires
        has_at(b, pos, enc_u16(x)),
    ensures
        le16_of(b[pos], b[pos + 1]) == x,
        pos + 2 <= b.len(),
{
    assert(b[pos] == enc_u16(x)[0]);
    assert(b[pos + 1] == enc_u16(x)[1]);
    lemma_le16_enc(x);
}

/// The byte at a position that holds an encoded boolean.
pub proof fn lemma_at_bool(b: Seq<u8>, pos: int, x: bool)
    requires
        has_at(b, pos, enc_bool(x)),
    ensures
        b[pos] == b01(x) as u8,
        pos + 1 <= b.len(),
{
    assert(b[pos] == enc_bool(x)[0]);
}

// ---------------------------------------------------------------------
// primitive emitters
// ---------------------------------------------------------------------

/// Appends the little-endian bytes of `x`.
fn emit_u64(out: &mut Vec<u8>, x: u64)
    ensures
        final(out)@ == old(out)@ + enc_u64(x),
{
    out.push((x & 0xff) as u8);
    out.push(((x >> 8) & 0xff) as u8);
    out.push(((x >> 16) & 0xff) as u8);
    out.push(((x >> 24) & 0xff) as u8);
    out.push(((x >> 32) & 0xff) as u8);
    out.push(((x >> 40) & 0xff) as u8);
    out.push(((x >> 48) & 0xff) as u8);
    out.push(((x >> 56) & 0xff) as u8);
    proof {
        assert(final(out)@ =~= old(out)@ + enc_u64(x));
    }
}

/// Appends the little-endian bytes of `x`.
fn emit_u32(out: &mut Vec<u8>, x: u32)
    ensures
        final(out)@ == old(out)@ + enc_u32(x),
{
    out.push((x & 0xff) as u8);
    out.push(((x >> 8) & 0xff) as u8);
    out.push(((x >> 16) & 0xff) as u8);
    out.push(((x >> 24) & 0xff) as u8);
    proof {
        assert(final(out)@ =~= old(out)@ + enc_u32(x));
    }
}

/// Appends the little-endian bytes of `x`.
fn emit_u16(out: &mut Vec<u8>, x: u16)
    ensures
        final(out)@ == old(out)@ + enc_u16(x),
{
    out.push((x & 0xff) as u8);
    out.push(((x >> 8) & 0xff) as u8);
    proof {
        assert(final(out)@ =~= old(out)@ + enc_u16(x));
    }
}

/// Appends a machine word.
fn emit_usize(out: &mut Vec<u8>, x: usize)
    ensures
        final(out)@ == old(out)@ + enc_usize(x),
{
    emit_u64(out, x as u64);
}

/// Appends a boolean byte.
fn emit_bool(out: &mut Vec<u8>, v: bool)
    ensures
        final(out)@ == old(out)@ + enc_bool(v),
{
    out.push(if v {
        1u8
    } else {
        0u8
    });
    proof {
        assert(final(out)@ =~= old(out)@ + enc_bool(v));
    }
}

// ---------------------------------------------------------------------
// primitive readers
// ---------------------------------------------------------------------

/// Reads one byte.
fn read_u8(b: &[u8], pos: usize) -> (r: Result<(u8, usize), DecodeError>)
    ensures
        pos < b@.len() ==> (r matches Ok(v) && v.0 == b@[pos as int] && v.1 == pos + 1),
        pos >= b@.len() ==> r is Err,
{
    if pos < b.len() {
        Ok((b[pos], pos + 1))
    } else {
        Err(DecodeError::Truncated)
    }
}

/// Reads a little-endian 64-bit value.
fn read_u64(b: &[u8], pos: usize) -> (r: Result<(u64, usize), DecodeError>)
    ensures
        r matches Ok(v) ==> (pos + 8 <= b@.len() && v.1 == pos + 8),
        r is Err ==> pos + 8 > b@.len(),
        pos + 8 <= b@.len() ==> (r matches Ok(v) && v.0 == le64_of(
            b@[pos as int],
            b@[pos + 1],
            b@[pos + 2],
            b@[pos + 3],
            b@[pos + 4],
            b@[pos + 5],
            b@[pos + 6],
            b@[pos + 7],
        ) && v.1 == pos + 8),
{
    if b.len() < 8 || pos > b.len() - 8 {
        return Err(DecodeError::Truncated);
    }
    let b0 = b[pos];
    let b1 = b[pos + 1];
    let b2 = b[pos + 2];
    let b3 = b[pos + 3];
    let b4 = b[pos + 4];
    let b5 = b[pos + 5];
    let b6 = b[pos + 6];
    let b7 = b[pos + 7];
    let x = (b0 as u64) | ((b1 as u64) << 8) | ((b2 as u64) << 16) | ((b3 as u64) << 24) | ((
    b4 as u64) << 32) | ((b5 as u64) << 40) | ((b6 as u64) << 48) | ((b7 as u64) << 56);
    Ok((x, pos + 8))
}

/// Reads a little-endian 32-bit value.
fn read_u32(b: &[u8], pos: usize) -> (r: Result<(u32, usize), DecodeError>)
    ensures
        r matches Ok(v) ==> (pos + 4 <= b@.len() && v.1 == pos + 4),
        r is Err ==> pos + 4 > b@.len(),
        pos + 4 <= b@.len() ==> (r matches Ok(v) && v.0 == le32_of(
            b@[pos as int],
            b@[pos + 1],
            b@[pos + 2],
            b@[pos + 3],
        ) && v.1 == pos + 4),
{
    if b.len() < 4 || pos > b.len() - 4 {
        return Err(DecodeError::Truncated);
    }
    let b0 = b[pos];
    let b1 = b[pos + 1];
    let b2 = b[pos + 2];
    let b3 = b[pos + 3];
    let x = (b0 as u32) | ((b1 as u32) << 8) | ((b2 as u32) << 16) | ((b3 as u32) << 24);
    Ok((x, pos + 4))
}

/// Reads a little-endian 16-bit value.
fn read_u16(b: &[u8], pos: usize) -> (r: Result<(u16, usize), DecodeError>)
    ensures
        r matches Ok(v) ==> (pos + 2 <= b@.len() && v.1 == pos + 2),
        r is Err ==> pos + 2 > b@.len(),
        pos + 2 <= b@.len() ==> (r matches Ok(v) && v.0 == le16_of(b@[pos as int], b@[pos + 1])
            && v.1 == pos + 2),
{
    if b.len() < 2 || pos > b.len() - 2 {
        return Err(DecodeError::Truncated);
    }
    let b0 = b[pos];
    let b1 = b[pos + 1];
    let x = (b0 as u16) | ((b1 as u16) << 8);
    Ok((x, pos + 2))
}

/// Reads a machine word; fails if the stored value does not fit.
fn read_usize(b: &[u8], pos: usize) -> (r: Result<(usize, usize), DecodeError>)
    ensures
        r matches Ok(v) ==> (pos + 8 <= b@.len() && v.1 == pos + 8),
        (pos + 8 <= b@.len() && le64_of(
            b@[pos as int],
            b@[pos + 1],
            b@[pos + 2],
            b@[pos + 3],
            b@[pos + 4],
            b@[pos + 5],
            b@[pos + 6],
            b@[pos + 7],
        ) <= usize::MAX as u64) ==> (r matches Ok(v) && v.0 as u64 == le64_of(
            b@[pos as int],
            b@[pos + 1],
            b@[pos + 2],
            b@[pos + 3],
            b@[pos + 4],
            b@[pos + 5],
            b@[pos + 6],
            b@[pos + 7],
        ) && v.1 == pos + 8),
{
    let (x, p) = match read_u64(b, pos) {
        Ok(v) => v,
        Err(e) => {
            return Err(e);
        },
    };
    if x > usize::MAX as u64 {
        return Err(DecodeError::Malformed);
    }
    Ok((x as usize, p))
}

/// Reads a boolean byte; any value other than 0 or 1 is malformed.
fn read_bool(b: &[u8], pos: usize) -> (r: Result<(bool, usize), DecodeError>)
    ensures
        r matches Ok(v) ==> (pos + 1 <= b@.len() && v.1 == pos + 1),
        (pos + 1 <= b@.len() && b@[pos as int] == 0) ==> (r matches Ok(v) && v.0 == false && v.1
            == pos + 1),
        (pos + 1 <= b@.len() && b@[pos as int] == 1) ==> (r matches Ok(v) && v.0 == true && v.1
            == pos + 1),
{
    let (x, p) = match read_u8(b, pos) {
        Ok(v) => v,
        Err(e) => {
            return Err(e);
        },
    };
    if x == 0 {
        Ok((false, p))
    } else if x == 1 {
        Ok((true, p))
    } else {
        Err(DecodeError::Malformed)
    }
}

// ---------------------------------------------------------------------
// instruction encoding: a tag byte, a word count, and 64-bit operand words
// ---------------------------------------------------------------------

/// A boolean as an operand word.
pub open spec fn b01(v: bool) -> u64 {
    if v {
        1u64
    } else {
        0u64
    }
}

pub open spec fn unop_code(op: UnaryOperator) -> u64 {
    match op {
        UnaryOperator::Not => 0u64,
        UnaryOperator::Invert => 1u64,
        UnaryOperator::Minus => 2u64,
        UnaryOperator::Plus => 3u64,
    }
}

pub open spec fn binop_code(op: BinaryOperator) -> u64 {
    match op {
        BinaryOperator::Power => 0u64,
        BinaryOperator::Multiply => 1u64,
        BinaryOperator::MatrixMultiply => 2u64,
        BinaryOperator::Divide => 3u64,
        BinaryOperator::FloorDivide => 4u64,
        BinaryOperator::Modulo => 5u64,
        BinaryOperator::Add => 6u64,
        BinaryOperator::Subtract => 7u64,
        BinaryOperator::Lshift => 8u64,
        BinaryOperator::Rshift => 9u64,
        BinaryOperator::And => 10u64,
        BinaryOperator::Xor => 11u64,
        BinaryOperator::Or => 12u64,
    }
}

pub open spec fn cmpop_code(op: ComparisonOperator) -> u64 {
    match op {
        ComparisonOperator::Greater => 0u64,
        ComparisonOperator::GreaterOrEqual => 1u64,
        ComparisonOperator::Less => 2u64,
        ComparisonOperator::LessOrEqual => 3u64,
        ComparisonOperator::Equal => 4u64,
        ComparisonOperator::NotEqual => 5u64,
        ComparisonOperator::In => 6u64,
        ComparisonOperator::NotIn => 7u64,
        ComparisonOperator::Is => 8u64,
        ComparisonOperator::IsNot => 9u64,
        ComparisonOperator::ExceptionMatch => 10u64,
    }
}

pub open spec fn conv_code(c: Option<ConversionFlag>) -> u64 {
    match c {
        Option::None => 0u64,
        Option::Some(ConversionFlag::Str) => 1u64,
        Option::Some(ConversionFlag::Ascii) => 2u64,
        Option::Some(ConversionFlag::Repr) => 3u64,
    }
}

pub open spec fn calltype_words(t: CallType) -> Seq<u64> {
    match t {
        CallType::Positional(n) => seq![0u64, n as u64],
        CallType::Keyword(n) => seq![1u64, n as u64],
        CallType::Ex(v) => seq![2u64, b01(v)],
    }
}

pub open spec fn optname_words(o: Option<usize>) -> Seq<u64> {
    match o {
        Option::None => seq![0u64, 0u64],
        Option::Some(i) => seq![1u64, i as u64],
    }
}

pub open spec fn words_of_usizes(s: Seq<usize>) -> Seq<u64> {
    s.map(|k: int, x: usize| x as u64)
}

/// The tag byte and operand words of an instruction view.
pub open spec fn iparts(iv: InstrView) -> (u8, Seq<u64>) {
    match iv {
        InstrView::ImportView { name_idx, symbols_idx, level } => (
            0u8,
            optname_words(name_idx) + seq![level as u64] + words_of_usizes(symbols_idx),
        ),
        InstrView::Plain(ins) => match ins {
            Instruction::Import { name_idx, symbols_idx, level } => (
                0u8,
                optname_words(name_idx) + seq![level as u64] + words_of_usizes(symbols_idx@),
            ),
            Instruction::ImportStar => (1u8, seq![]),
            Instruction::ImportFrom { idx } => (2u8, seq![idx as u64]),
            Instruction::LoadFast(idx) => (3u8, seq![idx as u64]),
            Instruction::LoadNameAny(idx) => (4u8, seq![idx as u64]),
            Instruction::LoadGlobal(idx) => (5u8, seq![idx as u64]),
            Instruction::LoadDeref(idx) => (6u8, seq![idx as u64]),
            Instruction::LoadClassDeref(idx) => (7u8, seq![idx as u64]),
            Instruction::StoreFast(idx) => (8u8, seq![idx as u64]),
            Instruction::StoreLocal(idx) => (9u8, seq![idx as u64]),
            Instruction::StoreGlobal(idx) => (10u8, seq![idx as u64]),
            Instruction::StoreDeref(idx) => (11u8, seq![idx as u64]),
            Instruction::DeleteFast(idx) => (12u8, seq![idx as u64]),
            Instruction::DeleteLocal(idx) => (13u8, seq![idx as u64]),
            Instruction::DeleteGlobal(idx) => (14u8, seq![idx as u64]),
            Instruction::DeleteDeref(idx) => (15u8, seq![idx as u64]),
            Instruction::LoadClosure(idx) => (16u8, seq![idx as u64]),
            Instruction::Subscript => (17u8, seq![]),
            Instruction::StoreSubscript => (18u8, seq![]),
            Instruction::DeleteSubscript => (19u8, seq![]),
            Instruction::StoreAttr { idx } => (20u8, seq![idx as u64]),
            Instruction::DeleteAttr { idx } => (21u8, seq![idx as u64]),
            Instruction::LoadConst { idx } => (22u8, seq![idx as u64]),
            Instruction::UnaryOperation { op } => (23u8, seq![unop_code(op)]),
            Instruction::BinaryOperation { op, inplace } => (
                24u8,
                seq![binop_code(op), b01(inplace)],
            ),
            Instruction::LoadAttr { idx } => (25u8, seq![idx as u64]),
            Instruction::CompareOperation { op } => (26u8, seq![cmpop_code(op)]),
            Instruction::Pop => (27u8, seq![]),
            Instruction::Rotate { amount } => (28u8, seq![amount as u64]),
            Instruction::Duplicate => (29u8, seq![]),
            Instruction::GetIter => (30u8, seq![]),
            Instruction::Continue => (31u8, seq![]),
            Instruction::Break => (32u8, seq![]),
            Instruction::Jump { target } => (33u8, seq![target.0 as u64]),
            Instruction::JumpIfTrue { target } => (34u8, seq![target.0 as u64]),
            Instruction::JumpIfFalse { target } => (35u8, seq![target.0 as u64]),
            Instruction::JumpIfTrueOrPop { target } => (36u8, seq![target.0 as u64]),
            Instruction::JumpIfFalseOrPop { target } => (37u8, seq![target.0 as u64]),
            Instruction::MakeFunction => (38u8, seq![]),
            Instruction::CallFunction { typ } => (39u8, calltype_words(typ)),
            Instruction::ForIter { target } => (40u8, seq![target.0 as u64]),
            Instruction::ReturnValue => (41u8, seq![]),
            Instruction::YieldValue => (42u8, seq![]),
            Instruction::YieldFrom => (43u8, seq![]),
            Instruction::SetupAnnotation => (44u8, seq![]),
            Instruction::SetupLoop { start, end } => (45u8, seq![start.0 as u64, end.0 as u64]),
            Instruction::SetupFinally { handler } => (46u8, seq![handler.0 as u64]),
            Instruction::EnterFinally => (47u8, seq![]),
            Instruction::EndFinally => (48u8, seq![]),
            Instruction::SetupExcept { handler } => (49u8, seq![handler.0 as u64]),
            Instruction::SetupWith { end } => (50u8, seq![end.0 as u64]),
            Instruction::WithCleanupStart => (51u8, seq![]),
            Instruction::WithCleanupFinish => (52u8, seq![]),
            Instruction::PopBlock => (53u8, seq![]),
            Instruction::Raise { argc } => (54u8, seq![argc as u64]),
            Instruction::BuildString { size } => (55u8, seq![size as u64]),
            Instruction::BuildTuple { size, unpack } => (56u8, seq![size as u64, b01(unpack)]),
            Instruction::BuildList { size, unpack } => (57u8, seq![size as u64, b01(unpack)]),
            Instruction::BuildSet { size, unpack } => (58u8, seq![size as u64, b01(unpack)]),
            Instruction::BuildMap { size, unpack, for_call } => (
                59u8,
                seq![size as u64, b01(unpack), b01(for_call)],
            ),
            Instruction::BuildSlice { size } => (60u8, seq![size as u64]),
            Instruction::ListAppend { i } => (61u8, seq![i as u64]),
            Instruction::SetAdd { i } => (62u8, seq![i as u64]),
            Instruction::MapAdd { i } => (63u8, seq![i as u64]),
            Instruction::PrintExpr => (64u8, seq![]),
            Instruction::LoadBuildClass => (65u8, seq![]),
            Instruction::UnpackSequence { size } => (66u8, seq![size as u64]),
            Instruction::UnpackEx { before, after } => (67u8, seq![before as u64, after as u64]),
            Instruction::FormatValue { conversion } => (68u8, seq![conv_code(conversion)]),
            Instruction::PopException => (69u8, seq![]),
            Instruction::Reverse { amount } => (70u8, seq![amount as u64]),
            Instruction::GetAwaitable => (71u8, seq![]),
            Instruction::BeforeAsyncWith => (72u8, seq![]),
            Instruction::SetupAsyncWith { end } => (73u8, seq![end.0 as u64]),
            Instruction::GetAIter => (74u8, seq![]),
            Instruction::GetANext => (75u8, seq![]),
            Instruction::MapAddRev { i } => (76u8, seq![i as u64]),
        },
    }
}

/// A view is in canonical form when the import variant is expressed through
/// the dedicated view constructor; the view of any instruction is.
pub open spec fn wf_iv(iv: InstrView) -> bool {
    !(iv matches InstrView::Plain(Instruction::Import { .. }))
}

/// The concatenated encodings of a sequence of operand words.
pub open spec fn enc_words(ws: Seq<u64>) -> Seq<u8>
    decreases ws,
{
    if ws.len() == 0 {
        Seq::empty()
    } else {
        enc_u64(ws[0]) + enc_words(ws.subrange(1, ws.len() as int))
    }
}

pub proof fn lemma_enc_words_len(ws: Seq<u64>)
    ensures
        enc_words(ws).len() == 8 * ws.len(),
    decreases ws.len(),
{
    if ws.len() > 0 {
        lemma_enc_words_len(ws.subrange(1, ws.len() as int));
    }
}

/// One encoded instruction: tag, word count, words.
pub open spec fn enc_instr(iv: InstrView) -> Seq<u8> {
    seq![iparts(iv).0] + enc_u64(iparts(iv).1.len() as u64) + enc_words(iparts(iv).1)
}

/// Decomposes a buffer that holds an encoded instruction.
pub proof fn lemma_instr_decomp(b: Seq<u8>, pos: int, iv: InstrView)
    requires
        has_at(b, pos, enc_instr(iv)),
    ensures
        b[pos] == iparts(iv).0,
        has_at(b, pos + 1, enc_u64(iparts(iv).1.len() as u64)),
        has_at(b, pos + 9, enc_words(iparts(iv).1)),
        enc_instr(iv).len() == 9 + 8 * iparts(iv).1.len(),
        pos + 9 + 8 * iparts(iv).1.len() <= b.len(),
{
    let t = seq![iparts(iv).0];
    let l = enc_u64(iparts(iv).1.len() as u64);
    let w = enc_words(iparts(iv).1);
    lemma_enc_words_len(iparts(iv).1);
    assert(enc_instr(iv) =~= t + (l + w));
    lemma_has_at_concat(b, pos, t, l + w);
    lemma_has_at_concat(b, pos + 1, l, w);
    assert(b[pos] == t[0]);
}

// ---------------------------------------------------------------------
// instruction codec, executable side
// ---------------------------------------------------------------------

fn bool_word(v: bool) -> (r: u64)
    ensures
        r == b01(v),
{
    if v {
        1u64
    } else {
        0u64
    }
}

fn unop_word(op: &UnaryOperator) -> (r: u64)
    ensures
        r == unop_code(*op),
{
    match op {
        UnaryOperator::Not => 0u64,
        UnaryOperator::Invert => 1u64,
        UnaryOperator::Minus => 2u64,
        UnaryOperator::Plus => 3u64,
    }
}

fn binop_word(op: &BinaryOperator) -> (r: u64)
    ensures
        r == binop_code(*op),
{
    match op {
        BinaryOperator::Power => 0u64,
        BinaryOperator::Multiply => 1u64,
        BinaryOperator::MatrixMultiply => 2u64,
        BinaryOperator::Divide => 3u64,
        BinaryOperator::FloorDivide => 4u64,
        BinaryOperator::Modulo => 5u64,
        BinaryOperator::Add => 6u64,
        BinaryOperator::Subtract => 7u64,
        BinaryOperator::Lshift => 8u64,
        BinaryOperator::Rshift => 9u64,
        BinaryOperator::And => 10u64,
        BinaryOperator::Xor => 11u64,
        BinaryOperator::Or => 12u64,
    }
}

fn cmpop_word(op: &ComparisonOperator) -> (r: u64)
    ensures
        r == cmpop_code(*op),
{
    match op {
        ComparisonOperator::Greater => 0u64,
        ComparisonOperator::GreaterOrEqual => 1u64,
        ComparisonOperator::Less => 2u64,
        ComparisonOperator::LessOrEqual => 3u64,
        ComparisonOperator::Equal => 4u64,
        ComparisonOperator::NotEqual => 5u64,
        ComparisonOperator::In => 6u64,
        ComparisonOperator::NotIn => 7u64,
        ComparisonOperator::Is => 8u64,
        ComparisonOperator::IsNot => 9u64,
        ComparisonOperator::ExceptionMatch => 10u64,
    }
}

fn conv_word(c: &Option<ConversionFlag>) -> (r: u64)
    ensures
        r == conv_code(*c),
{
    match c {
        Option::None => 0u64,
        Option::Some(ConversionFlag::Str) => 1u64,
        Option::Some(ConversionFlag::Ascii) => 2u64,
        Option::Some(ConversionFlag::Repr) => 3u64,
    }
}

/// The tag byte and operand words of one instruction.
fn instr_words(ins: &Instruction) -> (r: (u8, Vec<u64>))
    ensures
        r.0 == iparts(iview(*ins)).0,
        r.1@ == iparts(iview(*ins)).1,
{
    match ins {
            Instruction::Import { name_idx, symbols_idx, level } => {
                let mut ws: Vec<u64> = Vec::new();
                match name_idx {
                    Option::Some(i) => {
                        ws.push(1u64);
                        ws.push(*i as u64);
                    },
                    Option::None => {
                        ws.push(0u64);
                        ws.push(0u64);
                    },
                }
                ws.push(*level as u64);
                proof {
                    assert(ws@ =~= optname_words(*name_idx) + seq![*level as u64]
                        + words_of_usizes(symbols_idx@.subrange(0, 0)));
                }
                let mut k: usize = 0;
                while k < symbols_idx.len()
                    invariant
                        k <= symbols_idx@.len(),
                        ws@ == optname_words(*name_idx) + seq![*level as u64]
                            + words_of_usizes(symbols_idx@.subrange(0, k as int)),
                    decreases symbols_idx@.len() - k,
                {
                    ws.push(symbols_idx[k] as u64);
                    k = k + 1;
                    proof {
                        assert(words_of_usizes(symbols_idx@.subrange(0, k as int)) =~= words_of_usizes(
                            symbols_idx@.subrange(0, k - 1),
                        ) + seq![symbols_idx@[k - 1] as u64]);
                        assert(ws@ =~= optname_words(*name_idx) + seq![*level as u64]
                            + words_of_usizes(symbols_idx@.subrange(0, k as int)));
                    }
                }
                proof {
                    assert(symbols_idx@.subrange(0, symbols_idx@.len() as int) =~= symbols_idx@);
                }
                (0u8, ws)
            },
            Instruction::ImportStar => (1u8, Vec::new()),
            Instruction::Subscript => (17u8, Vec::new()),
            Instruction::StoreSubscript => (18u8, Vec::new()),
            Instruction::DeleteSubscript => (19u8, Vec::new()),
            Instruction::Pop => (27u8, Vec::new()),
            Instruction::Duplicate => (29u8, Vec::new()),
            Instruction::GetIter => (30u8, Vec::new()),
            Instruction::Continue => (31u8, Vec::new()),
            Instruction::Break => (32u8, Vec::new()),
            Instruction::MakeFunction => (38u8, Vec::new()),
            Instruction::ReturnValue => (41u8, Vec::new()),
            Instruction::YieldValue => (42u8, Vec::new()),
            Instruction::YieldFrom => (43u8, Vec::new()),
            Instruction::SetupAnnotation => (44u8, Vec::new()),
            Instruction::EnterFinally => (47u8, Vec::new()),
            Instruction::EndFinally => (48u8, Vec::new()),
            Instruction::WithCleanupStart => (51u8, Vec::new()),
            Instruction::WithCleanupFinish => (52u8, Vec::new()),
            Instruction::PopBlock => (53u8, Vec::new()),
            Instruction::PrintExpr => (64u8, Vec::new()),
            Instruction::LoadBuildClass => (65u8, Vec::new()),
            Instruction::PopException => (69u8, Vec::new()),
            Instruction::GetAwaitable => (71u8, Vec::new()),
            Instruction::BeforeAsyncWith => (72u8, Vec::new()),
            Instruction::GetAIter => (74u8, Vec::new()),
            Instruction::GetANext => (75u8, Vec::new()),
            Instruction::ImportFrom { idx } => (2u8, vec![*idx as u64]),
            Instruction::LoadFast(idx) => (3u8, vec![*idx as u64]),
            Instruction::LoadNameAny(idx) => (4u8, vec![*idx as u64]),
            Instruction::LoadGlobal(idx) => (5u8, vec![*idx as u64]),
            Instruction::LoadDeref(idx) => (6u8, vec![*idx as u64]),
            Instruction::LoadClassDeref(idx) => (7u8, vec![*idx as u64]),
            Instruction::StoreFast(idx) => (8u8, vec![*idx as u64]),
            Instruction::StoreLocal(idx) => (9u8, vec![*idx as u64]),
            Instruction::StoreGlobal(idx) => (10u8, vec![*idx as u64]),
            Instruction::StoreDeref(idx) => (11u8, vec![*idx as u64]),
            Instruction::DeleteFast(idx) => (12u8, vec![*idx as u64]),
            Instruction::DeleteLocal(idx) => (13u8, vec![*idx as u64]),
            Instruction::DeleteGlobal(idx) => (14u8, vec![*idx as u64]),
            Instruction::DeleteDeref(idx) => (15u8, vec![*idx as u64]),
            Instruction::LoadClosure(idx) => (16u8, vec![*idx as u64]),
            Instruction::StoreAttr { idx } => (20u8, vec![*idx as u64]),
            Instruction::DeleteAttr { idx } => (21u8, vec![*idx as u64]),
            Instruction::LoadConst { idx } => (22u8, vec![*idx as u64]),
            Instruction::LoadAttr { idx } => (25u8, vec![*idx as u64]),
            Instruction::Rotate { amount } => (28u8, vec![*amount as u64]),
            Instruction::Raise { argc } => (54u8, vec![*argc as u64]),
            Instruction::BuildString { size } => (55u8, vec![*size as u64]),
            Instruction::BuildSlice { size } => (60u8, vec![*size as u64]),
            Instruction::ListAppend { i } => (61u8, vec![*i as u64]),
            Instruction::SetAdd { i } => (62u8, vec![*i as u64]),
            Instruction::MapAdd { i } => (63u8, vec![*i as u64]),
            Instruction::UnpackSequence { size } => (66u8, vec![*size as u64]),
            Instruction::Reverse { amount } => (70u8, vec![*amount as u64]),
            Instruction::MapAddRev { i } => (76u8, vec![*i as u64]),
            Instruction::Jump { target } => (33u8, vec![target.0 as u64]),
            Instruction::JumpIfTrue { target } => (34u8, vec![target.0 as u64]),
            Instruction::JumpIfFalse { target } => (35u8, vec![target.0 as u64]),
            Instruction::JumpIfTrueOrPop { target } => (36u8, vec![target.0 as u64]),
            Instruction::JumpIfFalseOrPop { target } => (37u8, vec![target.0 as u64]),
            Instruction::ForIter { target } => (40u8, vec![target.0 as u64]),
            Instruction::SetupFinally { handler } => (46u8, vec![handler.0 as u64]),
            Instruction::SetupExcept { handler } => (49u8, vec![handler.0 as u64]),
            Instruction::SetupWith { end } => (50u8, vec![end.0 as u64]),
            Instruction::SetupAsyncWith { end } => (73u8, vec![end.0 as u64]),
            Instruction::UnaryOperation { op } => (23u8, vec![unop_word(op)]),
            Instruction::BinaryOperation { op, inplace } => (
                24u8,
                vec![binop_word(op), bool_word(*inplace)],
            ),
            Instruction::CompareOperation { op } => (26u8, vec![cmpop_word(op)]),
            Instruction::CallFunction { typ } => {
                let ws: Vec<u64> = match typ {
                    CallType::Positional(n) => vec![0u64, *n as u64],
                    CallType::Keyword(n) => vec![1u64, *n as u64],
                    CallType::Ex(v) => vec![2u64, bool_word(*v)],
                };
                (39u8, ws)
            },
            Instruction::SetupLoop { start, end } => (45u8, vec![start.0 as u64, end.0 as u64]),
            Instruction::BuildTuple { size, unpack } => (56u8, vec![*size as u64, bool_word(*unpack)]),
            Instruction::BuildList { size, unpack } => (57u8, vec![*size as u64, bool_word(*unpack)]),
            Instruction::BuildSet { size, unpack } => (58u8, vec![*size as u64, bool_word(*unpack)]),
            Instruction::BuildMap { size, unpack, for_call } => (
                59u8,
                vec![*size as u64, bool_word(*unpack), bool_word(*for_call)],
            ),
            Instruction::UnpackEx { before, after } => (67u8, vec![*before as u64, *after as u64]),
            Instruction::FormatValue { conversion } => (68u8, vec![conv_word(conversion)]),
    }
}

// decode helpers for single operand shapes

fn to_usize(w: u64) -> (r: Option<usize>)
    ensures
        w <= usize::MAX as u64 ==> r == Option::Some(w as usize),
        w > usize::MAX as u64 ==> r is None,
{
    if w > usize::MAX as u64 {
        Option::None
    } else {
        Option::Some(w as usize)
    }
}

fn to_bool(w: u64) -> (r: Option<bool>)
    ensures
        w == 0 ==> r == Option::Some(false),
        w == 1 ==> r == Option::Some(true),
{
    if w == 0 {
        Option::Some(false)
    } else if w == 1 {
        Option::Some(true)
    } else {
        Option::None
    }
}

fn to_binop(w: u64) -> (r: Option<BinaryOperator>)
    ensures
        w == 0 ==> r == Option::Some(BinaryOperator::Power),
        w == 1 ==> r == Option::Some(BinaryOperator::Multiply),
        w == 2 ==> r == Option::Some(BinaryOperator::MatrixMultiply),
        w == 3 ==> r == Option::Some(BinaryOperator::Divide),
        w == 4 ==> r == Option::Some(BinaryOperator::FloorDivide),
        w == 5 ==> r == Option::Some(BinaryOperator::Modulo),
        w == 6 ==> r == Option::Some(BinaryOperator::Add),
        w == 7 ==> r == Option::Some(BinaryOperator::Subtract),
        w == 8 ==> r == Option::Some(BinaryOperator::Lshift),
        w == 9 ==> r == Option::Some(BinaryOperator::Rshift),
        w == 10 ==> r == Option::Some(BinaryOperator::And),
        w == 11 ==> r == Option::Some(BinaryOperator::Xor),
        w == 12 ==> r == Option::Some(BinaryOperator::Or),
{
    if w == 0 {
        Option::Some(BinaryOperator::Power)
    } else if w == 1 {
        Option::Some(BinaryOperator::Multiply)
    } else if w == 2 {
        Option::Some(BinaryOperator::MatrixMultiply)
    } else if w == 3 {
        Option::Some(BinaryOperator::Divide)
    } else if w == 4 {
        Option::Some(BinaryOperator::FloorDivide)
    } else if w == 5 {
        Option::Some(BinaryOperator::Modulo)
    } else if w == 6 {
        Option::Some(BinaryOperator::Add)
    } else if w == 7 {
        Option::Some(BinaryOperator::Subtract)
    } else if w == 8 {
        Option::Some(BinaryOperator::Lshift)
    } else if w == 9 {
        Option::Some(BinaryOperator::Rshift)
    } else if w == 10 {
        Option::Some(BinaryOperator::And)
    } else if w == 11 {
        Option::Some(BinaryOperator::Xor)
    } else if w == 12 {
        Option::Some(BinaryOperator::Or)
    } else {
        Option::None
    }
}

fn to_usize_arg(words: &Vec<u64>) -> (r: Option<usize>)
    ensures
        (words@.len() == 1 && words@[0] <= usize::MAX as u64) ==> r == Option::Some(
            words@[0] as usize,
        ),
{
    if words.len() != 1 {
        Option::None
    } else {
        to_usize(words[0])
    }
}

fn to_two_args(words: &Vec<u64>) -> (r: Option<(usize, usize)>)
    ensures
        (words@.len() == 2 && words@[0] <= usize::MAX as u64 && words@[1] <= usize::MAX as u64)
            ==> r == Option::Some((words@[0] as usize, words@[1] as usize)),
{
    if words.len() != 2 {
        return Option::None;
    }
    let w0 = to_usize(words[0]);
    let w1 = to_usize(words[1]);
    match (w0, w1) {
        (Option::Some(a), Option::Some(b2)) => Option::Some((a, b2)),
        _ => Option::None,
    }
}

fn to_usize_bool_args(words: &Vec<u64>) -> (r: Option<(usize, bool)>)
    ensures
        (words@.len() == 2 && words@[0] <= usize::MAX as u64 && (words@[1] == 0 || words@[1] == 1))
            ==> r == Option::Some((words@[0] as usize, words@[1] == 1)),
{
    if words.len() != 2 {
        return Option::None;
    }
    let w0 = to_usize(words[0]);
    let w1 = to_bool(words[1]);
    match (w0, w1) {
        (Option::Some(a), Option::Some(b2)) => Option::Some((a, b2)),
        _ => Option::None,
    }
}

fn to_unop_arg(words: &Vec<u64>) -> (r: Option<UnaryOperator>)
    ensures
        words@.len() == 1 && words@[0] == 0 ==> r == Option::Some(UnaryOperator::Not),
        words@.len() == 1 && words@[0] == 1 ==> r == Option::Some(UnaryOperator::Invert),
        words@.len() == 1 && words@[0] == 2 ==> r == Option::Some(UnaryOperator::Minus),
        words@.len() == 1 && words@[0] == 3 ==> r == Option::Some(UnaryOperator::Plus),
{
    if words.len() != 1 {
        return Option::None;
    }
    let w = words[0];
    if w == 0 {
        Option::Some(UnaryOperator::Not)
    } else if w == 1 {
        Option::Some(UnaryOperator::Invert)
    } else if w == 2 {
        Option::Some(UnaryOperator::Minus)
    } else if w == 3 {
        Option::Some(UnaryOperator::Plus)
    } else {
        Option::None
    }
}

fn to_cmpop_arg(words: &Vec<u64>) -> (r: Option<ComparisonOperator>)
    ensures
        words@.len() == 1 && words@[0] == 0 ==> r == Option::Some(ComparisonOperator::Greater),
        words@.len() == 1 && words@[0] == 1 ==> r == Option::Some(ComparisonOperator::GreaterOrEqual),
        words@.len() == 1 && words@[0] == 2 ==> r == Option::Some(ComparisonOperator::Less),
        words@.len() == 1 && words@[0] == 3 ==> r == Option::Some(ComparisonOperator::LessOrEqual),
        words@.len() == 1 && words@[0] == 4 ==> r == Option::Some(ComparisonOperator::Equal),
        words@.len() == 1 && words@[0] == 5 ==> r == Option::Some(ComparisonOperator::NotEqual),
        words@.len() == 1 && words@[0] == 6 ==> r == Option::Some(ComparisonOperator::In),
        words@.len() == 1 && words@[0] == 7 ==> r == Option::Some(ComparisonOperator::NotIn),
        words@.len() == 1 && words@[0] == 8 ==> r == Option::Some(ComparisonOperator::Is),
        words@.len() == 1 && words@[0] == 9 ==> r == Option::Some(ComparisonOperator::IsNot),
        words@.len() == 1 && words@[0] == 10 ==> r == Option::Some(ComparisonOperator::ExceptionMatch),
{
    if words.len() != 1 {
        return Option::None;
    }
    let w = words[0];
    if w == 0 {
        Option::Some(ComparisonOperator::Greater)
    } else if w == 1 {
        Option::Some(ComparisonOperator::GreaterOrEqual)
    } else if w == 2 {
        Option::Some(ComparisonOperator::Less)
    } else if w == 3 {
        Option::Some(ComparisonOperator::LessOrEqual)
    } else if w == 4 {
        Option::Some(ComparisonOperator::Equal)
    } else if w == 5 {
        Option::Some(ComparisonOperator::NotEqual)
    } else if w == 6 {
        Option::Some(ComparisonOperator::In)
    } else if w == 7 {
        Option::Some(ComparisonOperator::NotIn)
    } else if w == 8 {
        Option::Some(ComparisonOperator::Is)
    } else if w == 9 {
        Option::Some(ComparisonOperator::IsNot)
    } else if w == 10 {
        Option::Some(ComparisonOperator::ExceptionMatch)
    } else {
        Option::None
    }
}

fn to_conv_arg(words: &Vec<u64>) -> (r: Option<Option<ConversionFlag>>)
    ensures
        words@.len() == 1 && words@[0] == 0 ==> r == Option::Some(Option::<ConversionFlag>::None),
        words@.len() == 1 && words@[0] == 1 ==> r == Option::Some(
            Option::Some(ConversionFlag::Str),
        ),
        words@.len() == 1 && words@[0] == 2 ==> r == Option::Some(
            Option::Some(ConversionFlag::Ascii),
        ),
        words@.len() == 1 && words@[0] == 3 ==> r == Option::Some(
            Option::Some(ConversionFlag::Repr),
        ),
{
    if words.len() != 1 {
        return Option::None;
    }
    let w = words[0];
    if w == 0 {
        Option::Some(Option::None)
    } else if w == 1 {
        Option::Some(Option::Some(ConversionFlag::Str))
    } else if w == 2 {
        Option::Some(Option::Some(ConversionFlag::Ascii))
    } else if w == 3 {
        Option::Some(Option::Some(ConversionFlag::Repr))
    } else {
        Option::None
    }
}



/// Every instruction tag is at most 76.
proof fn lemma_tag_range(iv: InstrView)
    ensures
        iparts(iv).0 <= 76,
{
    match iv {
        InstrView::ImportView { .. } => {},
        InstrView::Plain(ins) => match ins {
                Instruction::Import { .. } => {},
                Instruction::ImportStar => {},
                Instruction::ImportFrom { .. } => {},
                Instruction::LoadFast(..) => {},
                Instruction::LoadNameAny(..) => {},
                Instruction::LoadGlobal(..) => {},
                Instruction::LoadDeref(..) => {},
                Instruction::LoadClassDeref(..) => {},
                Instruction::StoreFast(..) => {},
                Instruction::StoreLocal(..) => {},
                Instruction::StoreGlobal(..) => {},
                Instruction::StoreDeref(..) => {},
                Instruction::DeleteFast(..) => {},
                Instruction::DeleteLocal(..) => {},
                Instruction::DeleteGlobal(..) => {},
                Instruction::DeleteDeref(..) => {},
                Instruction::LoadClosure(..) => {},
                Instruction::Subscript => {},
                Instruction::StoreSubscript => {},
                Instruction::DeleteSubscript => {},
                Instruction::StoreAttr { .. } => {},
                Instruction::DeleteAttr { .. } => {},
                Instruction::LoadConst { .. } => {},
                Instruction::UnaryOperation { .. } => {},
                Instruction::BinaryOperation { .. } => {},
                Instruction::LoadAttr { .. } => {},
                Instruction::CompareOperation { .. } => {},
                Instruction::Pop => {},
                Instruction::Rotate { .. } => {},
                Instruction::Duplicate => {},
                Instruction::GetIter => {},
                Instruction::Continue => {},
                Instruction::Break => {},
                Instruction::Jump { .. } => {},
                Instruction::JumpIfTrue { .. } => {},
                Instruction::JumpIfFalse { .. } => {},
                Instruction::JumpIfTrueOrPop { .. } => {},
                Instruction::JumpIfFalseOrPop { .. } => {},
                Instruction::MakeFunction => {},
                Instruction::CallFunction { .. } => {},
                Instruction::ForIter { .. } => {},
                Instruction::ReturnValue => {},
                Instruction::YieldValue => {},
                Instruction::YieldFrom => {},
                Instruction::SetupAnnotation => {},
                Instruction::SetupLoop { .. } => {},
                Instruction::SetupFinally { .. } => {},
                Instruction::EnterFinally => {},
                Instruction::EndFinally => {},
                Instruction::SetupExcept { .. } => {},
                Instruction::SetupWith { .. } => {},
                Instruction::WithCleanupStart => {},
                Instruction::WithCleanupFinish => {},
                Instruction::PopBlock => {},
                Instruction::Raise { .. } => {},
                Instruction::BuildString { .. } => {},
                Instruction::BuildTuple { .. } => {},
                Instruction::BuildList { .. } => {},
                Instruction::BuildSet { .. } => {},
                Instruction::BuildMap { .. } => {},
                Instruction::BuildSlice { .. } => {},
                Instruction::ListAppend { .. } => {},
                Instruction::SetAdd { .. } => {},
                Instruction::MapAdd { .. } => {},
                Instruction::PrintExpr => {},
                Instruction::LoadBuildClass => {},
                Instruction::UnpackSequence { .. } => {},
                Instruction::UnpackEx { .. } => {},
                Instruction::FormatValue { .. } => {},
                Instruction::PopException => {},
                Instruction::Reverse { .. } => {},
                Instruction::GetAwaitable => {},
                Instruction::BeforeAsyncWith => {},
                Instruction::SetupAsyncWith { .. } => {},
                Instruction::GetAIter => {},
                Instruction::GetANext => {},
                Instruction::MapAddRev { .. } => {},
        },
    }
}

/// The operand-word layout of an import view.
proof fn lemma_import_words(iv: InstrView)
    requires
        iv matches InstrView::ImportView { .. },
    ensures
        iparts(iv).1.len() == 3 + iv->ImportView_symbols_idx.len(),
        iparts(iv).1[2] == iv->ImportView_level as u64,
        iv->ImportView_name_idx matches Option::Some(i) ==> (iparts(iv).1[0] == 1u64 && iparts(
            iv,
        ).1[1] == i as u64),
        iv->ImportView_name_idx is None ==> (iparts(iv).1[0] == 0u64 && iparts(iv).1[1] == 0u64),
        forall|j: int|
            0 <= j < iv->ImportView_symbols_idx.len() ==> iparts(iv).1[j + 3]
                == (#[trigger] iv->ImportView_symbols_idx[j]) as u64,
{
    let ws = iparts(iv).1;
    match iv {
        InstrView::ImportView { name_idx, symbols_idx, level } => {
            let head = optname_words(name_idx) + seq![level as u64];
            assert(ws =~= head + words_of_usizes(symbols_idx));
            assert(head.len() == 3);
            assert(ws[2] == head[2]);
            assert(ws[0] == head[0]);
            assert(ws[1] == head[1]);
            assert forall|j: int| 0 <= j < symbols_idx.len() implies ws[j + 3]
                == (#[trigger] symbols_idx[j]) as u64 by {
                assert(ws[j + 3] == words_of_usizes(symbols_idx)[j]);
            }
        },
        InstrView::Plain(_) => {},
    }
}

/// Rebuilds an instruction from its tag and operand words; `None` when the
/// words do not fit the tag's shape.
fn parts_to_instr(tag: u8, words: &Vec<u64>) -> (r: Option<Instruction>)
    ensures
        forall|iv: InstrView|
            wf_iv(iv) && iparts(iv).0 == tag && iparts(iv).1 == words@ ==> (r matches Option::Some(
                i,
            ) && iview(i) == iv),
{
    match tag {
        0u8 => {
            if words.len() < 3 {
                return Option::None;
            }
            let flag = words[0];
            let name_idx: Option<usize> = if flag == 0 {
                if words[1] != 0 {
                    return Option::None;
                }
                Option::None
            } else if flag == 1 {
                match to_usize(words[1]) {
                    Option::Some(x) => Option::Some(x),
                    Option::None => {
                        proof {
                            assert forall|iv: InstrView|
                                wf_iv(iv) && iparts(iv).0 == 0u8 && iparts(iv).1 == words@ implies
                                false by {
                                lemma_import_words(iv);
                                match iv {
                                    InstrView::ImportView { name_idx: n0, symbols_idx: s0, level: l0 } => {
                                        assert(words@[2] == l0 as u64);
                                        assert((l0 as u64) as usize == l0);
                                        match n0 {
                                            Option::Some(i0) => {
                                                assert(words@[1] == i0 as u64);
                                                assert((i0 as u64) as usize == i0);
                                            },
                                            Option::None => {
                                                assert(words@[0] == 0u64);
                                            },
                                        }
                                    },
                                    InstrView::Plain(_) => {},
                                }
                            }
                        }
                        return Option::None;
                    },
                }
            } else {
                return Option::None;
            };
            let level = match to_usize(words[2]) {
                Option::Some(x) => x,
                Option::None => {
                    proof {
                        assert forall|iv: InstrView|
                            wf_iv(iv) && iparts(iv).0 == 0u8 && iparts(iv).1 == words@ implies false by {
                            lemma_import_words(iv);
                            match iv {
                                InstrView::ImportView { name_idx: n0, symbols_idx: s0, level: l0 } => {
                                    assert(words@[2] == l0 as u64);
                                    assert((l0 as u64) as usize == l0);
                                },
                                InstrView::Plain(_) => {},
                            }
                        }
                    }
                    return Option::None;
                },
            };
            let mut symbols: Vec<usize> = Vec::new();
            let mut k: usize = 3;
            while k < words.len()
                invariant
                    3 <= k <= words@.len(),
                    symbols@.len() == k - 3,
                    forall|j: int| 0 <= j < k - 3 ==> (#[trigger] symbols@[j]) as u64 == words@[j + 3],
                decreases words@.len() - k,
            {
                match to_usize(words[k]) {
                    Option::Some(x) => {
                        symbols.push(x);
                    },
                    Option::None => {
                        proof {
                            assert forall|iv: InstrView|
                                wf_iv(iv) && iparts(iv).0 == 0u8 && iparts(iv).1 == words@ implies
                                false by {
                                lemma_import_words(iv);
                                match iv {
                                    InstrView::ImportView { name_idx: n0, symbols_idx: s0, level: l0 } => {
                                        assert(words@[2] == l0 as u64);
                                        assert((l0 as u64) as usize == l0);
                                        assert(words@[k as int] == s0[k - 3] as u64);
                                        assert((s0[k - 3] as u64) as usize == s0[k - 3]);
                                        match n0 {
                                            Option::Some(i0) => {
                                                assert(words@[1] == i0 as u64);
                                                assert((i0 as u64) as usize == i0);
                                            },
                                            Option::None => {
                                                assert(words@[0] == 0u64);
                                            },
                                        }
                                    },
                                    InstrView::Plain(_) => {},
                                }
                            }
                        }
                        return Option::None;
                    },
                }
                k = k + 1;
            }
            let r = Instruction::Import { name_idx, symbols_idx: symbols, level };
            proof {
                assert forall|iv: InstrView|
                    wf_iv(iv) && iparts(iv).0 == 0u8 && iparts(iv).1 == words@ implies iview(r)
                    == iv by {
                    let ws0 = iparts(iv).1;
                    lemma_import_words(iv);
                    match iv {
                        InstrView::ImportView { name_idx: n0, symbols_idx: s0, level: l0 } => {
                            assert(ws0[2] == l0 as u64);
                            assert(ws0.len() == 3 + s0.len());
                            match n0 {
                                Option::Some(i0) => {
                                    assert(ws0[0] == 1u64 && ws0[1] == i0 as u64);
                                },
                                Option::None => {
                                    assert(ws0[0] == 0u64 && ws0[1] == 0u64);
                                },
                            }
                            assert forall|j: int| 0 <= j < s0.len() implies #[trigger] s0[j]
                                == symbols@[j] by {
                                assert(words_of_usizes(s0)[j] == s0[j] as u64);
                                assert(ws0[j + 3] == s0[j] as u64);
                                assert(symbols@[j] as u64 == words@[j + 3]);
                            }
                            assert(symbols@ =~= s0);
                        },
                        InstrView::Plain(_) => {
                            assert(false);
                        },
                    }
                }
            }
            Option::Some(r)
        },
        1u8 => {
            if words.len() != 0 {
                return Option::None;
            }
            Option::Some(Instruction::ImportStar)
        },
        17u8 => {
            if words.len() != 0 {
                return Option::None;
            }
            Option::Some(Instruction::Subscript)
        },
        18u8 => {
            if words.len() != 0 {
                return Option::None;
            }
            Option::Some(Instruction::StoreSubscript)
        },
        19u8 => {
            if words.len() != 0 {
                return Option::None;
            }
            Option::Some(Instruction::DeleteSubscript)
        },
        27u8 => {
            if words.len() != 0 {
                return Option::None;
            }
            Option::Some(Instruction::Pop)
        },
        29u8 => {
            if words.len() != 0 {
                return Option::None;
            }
            Option::Some(Instruction::Duplicate)
        },
        30u8 => {
            if words.len() != 0 {
                return Option::None;
            }
            Option::Some(Instruction::GetIter)
        },
        31u8 => {
            if words.len() != 0 {
                return Option::None;
            }
            Option::Some(Instruction::Continue)
        },
        32u8 => {
            if words.len() != 0 {
                return Option::None;
            }
            Option::Some(Instruction::Break)
        },
        38u8 => {
            if words.len() != 0 {
                return Option::None;
            }
            Option::Some(Instruction::MakeFunction)
        },
        41u8 => {
            if words.len() != 0 {
                return Option::None;
            }
            Option::Some(Instruction::ReturnValue)
        },
        42u8 => {
            if words.len() != 0 {
                return Option::None;
            }
            Option::Some(Instruction::YieldValue)
        },
        43u8 => {
            if words.len() != 0 {
                return Option::None;
            }
            Option::Some(Instruction::YieldFrom)
        },
        44u8 => {
            if words.len() != 0 {
                return Option::None;
            }
            Option::Some(Instruction::SetupAnnotation)
        },
        47u8 => {
            if words.len() != 0 {
                return Option::None;
            }
            Option::Some(Instruction::EnterFinally)
        },
        48u8 => {
            if words.len() != 0 {
                return Option::None;
            }
            Option::Some(Instruction::EndFinally)
        },
        51u8 => {
            if words.len() != 0 {
                return Option::None;
            }
            Option::Some(Instruction::WithCleanupStart)
        },
        52u8 => {
            if words.len() != 0 {
                return Option::None;
            }
            Option::Some(Instruction::WithCleanupFinish)
        },
        53u8 => {
            if words.len() != 0 {
                return Option::None;
            }
            Option::Some(Instruction::PopBlock)
        },
        64u8 => {
            if words.len() != 0 {
                return Option::None;
            }
            Option::Some(Instruction::PrintExpr)
        },
        65u8 => {
            if words.len() != 0 {
                return Option::None;
            }
            Option::Some(Instruction::LoadBuildClass)
        },
        69u8 => {
            if words.len() != 0 {
                return Option::None;
            }
            Option::Some(Instruction::PopException)
        },
        71u8 => {
            if words.len() != 0 {
                return Option::None;
            }
            Option::Some(Instruction::GetAwaitable)
        },
        72u8 => {
            if words.len() != 0 {
                return Option::None;
            }
            Option::Some(Instruction::BeforeAsyncWith)
        },
        74u8 => {
            if words.len() != 0 {
                return Option::None;
            }
            Option::Some(Instruction::GetAIter)
        },
        75u8 => {
            if words.len() != 0 {
                return Option::None;
            }
            Option::Some(Instruction::GetANext)
        },
        2u8 => match to_usize_arg(words) {
            Option::Some(x) => Option::Some(Instruction::ImportFrom { idx: x }),
            Option::None => Option::None,
        },
        3u8 => match to_usize_arg(words) {
            Option::Some(x) => Option::Some(Instruction::LoadFast(x)),
            Option::None => Option::None,
        },
        4u8 => match to_usize_arg(words) {
            Option::Some(x) => Option::Some(Instruction::LoadNameAny(x)),
            Option::None => Option::None,
        },
        5u8 => match to_usize_arg(words) {
            Option::Some(x) => Option::Some(Instruction::LoadGlobal(x)),
            Option::None => Option::None,
        },
        6u8 => match to_usize_arg(words) {
            Option::Some(x) => Option::Some(Instruction::LoadDeref(x)),
            Option::None => Option::None,
        },
        7u8 => match to_usize_arg(words) {
            Option::Some(x) => Option::Some(Instruction::LoadClassDeref(x)),
            Option::None => Option::None,
        },
        8u8 => match to_usize_arg(words) {
            Option::Some(x) => Option::Some(Instruction::StoreFast(x)),
            Option::None => Option::None,
        },
        9u8 => match to_usize_arg(words) {
            Option::Some(x) => Option::Some(Instruction::StoreLocal(x)),
            Option::None => Option::None,
        },
        10u8 => match to_usize_arg(words) {
            Option::Some(x) => Option::Some(Instruction::StoreGlobal(x)),
            Option::None => Option::None,
        },
        11u8 => match to_usize_arg(words) {
            Option::Some(x) => Option::Some(Instruction::StoreDeref(x)),
            Option::None => Option::None,
        },
        12u8 => match to_usize_arg(words) {
            Option::Some(x) => Option::Some(Instruction::DeleteFast(x)),
            Option::None => Option::None,
        },
        13u8 => match to_usize_arg(words) {
            Option::Some(x) => Option::Some(Instruction::DeleteLocal(x)),
            Option::None => Option::None,
        },
        14u8 => match to_usize_arg(words) {
            Option::Some(x) => Option::Some(Instruction::DeleteGlobal(x)),
            Option::None => Option::None,
        },
        15u8 => match to_usize_arg(words) {
            Option::Some(x) => Option::Some(Instruction::DeleteDeref(x)),
            Option::None => Option::None,
        },
        16u8 => match to_usize_arg(words) {
            Option::Some(x) => Option::Some(Instruction::LoadClosure(x)),
            Option::None => Option::None,
        },
        20u8 => match to_usize_arg(words) {
            Option::Some(x) => Option::Some(Instruction::StoreAttr { idx: x }),
            Option::None => Option::None,
        },
        21u8 => match to_usize_arg(words) {
            Option::Some(x) => Option::Some(Instruction::DeleteAttr { idx: x }),
            Option::None => Option::None,
        },
        22u8 => match to_usize_arg(words) {
            Option::Some(x) => Option::Some(Instruction::LoadConst { idx: x }),
            Option::None => Option::None,
        },
        25u8 => match to_usize_arg(words) {
            Option::Some(x) => Option::Some(Instruction::LoadAttr { idx: x }),
            Option::None => Option::None,
        },
        28u8 => match to_usize_arg(words) {
            Option::Some(x) => Option::Some(Instruction::Rotate { amount: x }),
            Option::None => Option::None,
        },
        54u8 => match to_usize_arg(words) {
            Option::Some(x) => Option::Some(Instruction::Raise { argc: x }),
            Option::None => Option::None,
        },
        55u8 => match to_usize_arg(words) {
            Option::Some(x) => Option::Some(Instruction::BuildString { size: x }),
            Option::None => Option::None,
        },
        60u8 => match to_usize_arg(words) {
            Option::Some(x) => Option::Some(Instruction::BuildSlice { size: x }),
            Option::None => Option::None,
        },
        61u8 => match to_usize_arg(words) {
            Option::Some(x) => Option::Some(Instruction::ListAppend { i: x }),
            Option::None => Option::None,
        },
        62u8 => match to_usize_arg(words) {
            Option::Some(x) => Option::Some(Instruction::SetAdd { i: x }),
            Option::None => Option::None,
        },
        63u8 => match to_usize_arg(words) {
            Option::Some(x) => Option::Some(Instruction::MapAdd { i: x }),
            Option::None => Option::None,
        },
        66u8 => match to_usize_arg(words) {
            Option::Some(x) => Option::Some(Instruction::UnpackSequence { size: x }),
            Option::None => Option::None,
        },
        70u8 => match to_usize_arg(words) {
            Option::Some(x) => Option::Some(Instruction::Reverse { amount: x }),
            Option::None => Option::None,
        },
        76u8 => match to_usize_arg(words) {
            Option::Some(x) => Option::Some(Instruction::MapAddRev { i: x }),
            Option::None => Option::None,
        },
        33u8 => match to_usize_arg(words) {
            Option::Some(x) => Option::Some(Instruction::Jump { target: Label(x) }),
            Option::None => Option::None,
        },
        34u8 => match to_usize_arg(words) {
            Option::Some(x) => Option::Some(Instruction::JumpIfTrue { target: Label(x) }),
            Option::None => Option::None,
        },
        35u8 => match to_usize_arg(words) {
            Option::Some(x) => Option::Some(Instruction::JumpIfFalse { target: Label(x) }),
            Option::None => Option::None,
        },
        36u8 => match to_usize_arg(words) {
            Option::Some(x) => Option::Some(Instruction::JumpIfTrueOrPop { target: Label(x) }),
            Option::None => Option::None,
        },
        37u8 => match to_usize_arg(words) {
            Option::Some(x) => Option::Some(Instruction::JumpIfFalseOrPop { target: Label(x) }),
            Option::None => Option::None,
        },
        40u8 => match to_usize_arg(words) {
            Option::Some(x) => Option::Some(Instruction::ForIter { target: Label(x) }),
            Option::None => Option::None,
        },
        46u8 => match to_usize_arg(words) {
            Option::Some(x) => Option::Some(Instruction::SetupFinally { handler: Label(x) }),
            Option::None => Option::None,
        },
        49u8 => match to_usize_arg(words) {
            Option::Some(x) => Option::Some(Instruction::SetupExcept { handler: Label(x) }),
            Option::None => Option::None,
        },
        50u8 => match to_usize_arg(words) {
            Option::Some(x) => Option::Some(Instruction::SetupWith { end: Label(x) }),
            Option::None => Option::None,
        },
        73u8 => match to_usize_arg(words) {
            Option::Some(x) => Option::Some(Instruction::SetupAsyncWith { end: Label(x) }),
            Option::None => Option::None,
        },
        23u8 => match to_unop_arg(words) {
            Option::Some(op) => Option::Some(Instruction::UnaryOperation { op }),
            Option::None => Option::None,
        },
        24u8 => {
            if words.len() != 2 {
                return Option::None;
            }
            let op = match to_binop(words[0]) {
                Option::Some(op) => op,
                Option::None => {
                    return Option::None;
                },
            };
            match to_bool(words[1]) {
                Option::Some(inplace) => Option::Some(
                    Instruction::BinaryOperation { op, inplace },
                ),
                Option::None => Option::None,
            }
        },
        26u8 => match to_cmpop_arg(words) {
            Option::Some(op) => Option::Some(Instruction::CompareOperation { op }),
            Option::None => Option::None,
        },
        39u8 => {
            if words.len() != 2 {
                return Option::None;
            }
            let kind = words[0];
            if kind == 0 {
                match to_usize(words[1]) {
                    Option::Some(n) => Option::Some(
                        Instruction::CallFunction { typ: CallType::Positional(n) },
                    ),
                    Option::None => Option::None,
                }
            } else if kind == 1 {
                match to_usize(words[1]) {
                    Option::Some(n) => Option::Some(
                        Instruction::CallFunction { typ: CallType::Keyword(n) },
                    ),
                    Option::None => Option::None,
                }
            } else if kind == 2 {
                match to_bool(words[1]) {
                    Option::Some(v) => Option::Some(
                        Instruction::CallFunction { typ: CallType::Ex(v) },
                    ),
                    Option::None => Option::None,
                }
            } else {
                Option::None
            }
        },
        45u8 => match to_two_args(words) {
            Option::Some((x, y)) => Option::Some(
                Instruction::SetupLoop { start: Label(x), end: Label(y) },
            ),
            Option::None => Option::None,
        },
        56u8 => match to_usize_bool_args(words) {
            Option::Some((size, unpack)) => Option::Some(Instruction::BuildTuple { size, unpack }),
            Option::None => Option::None,
        },
        57u8 => match to_usize_bool_args(words) {
            Option::Some((size, unpack)) => Option::Some(Instruction::BuildList { size, unpack }),
            Option::None => Option::None,
        },
        58u8 => match to_usize_bool_args(words) {
            Option::Some((size, unpack)) => Option::Some(Instruction::BuildSet { size, unpack }),
            Option::None => Option::None,
        },
        59u8 => {
            if words.len() != 3 {
                return Option::None;
            }
            let w0 = to_usize(words[0]);
            let w1 = to_bool(words[1]);
            let w2 = to_bool(words[2]);
            proof {
                assert forall|x: usize, v1: bool, v2: bool|
                    words@ == seq![x as u64, b01(v1), b01(v2)] implies (w0 == Option::Some(x) && w1
                    == Option::Some(v1) && w2 == Option::Some(v2)) by {
                    assert(words@[0] == x as u64);
                    assert(words@[1] == b01(v1));
                    assert(words@[2] == b01(v2));
                    assert((x as u64) as usize == x);
                    if v1 {
                        assert(b01(v1) == 1u64);
                    } else {
                        assert(b01(v1) == 0u64);
                    }
                    if v2 {
                        assert(b01(v2) == 1u64);
                    } else {
                        assert(b01(v2) == 0u64);
                    }
                }
            }
            match (w0, w1, w2) {
                (Option::Some(size), Option::Some(unpack), Option::Some(for_call)) => Option::Some(
                    Instruction::BuildMap { size, unpack, for_call },
                ),
                _ => Option::None,
            }
        },
        67u8 => match to_two_args(words) {
            Option::Some((before, after)) => Option::Some(Instruction::UnpackEx { before, after }),
            Option::None => Option::None,
        },
        68u8 => match to_conv_arg(words) {
            Option::Some(conversion) => Option::Some(Instruction::FormatValue { conversion }),
            Option::None => Option::None,
        },
        _ => {
            proof {
                assert forall|iv: InstrView|
                    wf_iv(iv) && iparts(iv).0 == tag && iparts(iv).1 == words@ implies false by {
                    lemma_tag_range(iv);
                }
            }
            Option::None
        },
    }
}

// ---------------------------------------------------------------------
// structure encodings
// ---------------------------------------------------------------------

/// The scalar value of a character.
pub open spec fn scalar_of(c: char) -> u32 {
    c as u32
}

/// The concatenated 4-byte scalar values of a character sequence.
pub open spec fn enc_chars(s: Seq<char>) -> Seq<u8>
    decreases s,
{
    if s.len() == 0 {
        Seq::empty()
    } else {
        enc_u32(scalar_of(s[0])) + enc_chars(s.subrange(1, s.len() as int))
    }
}

/// A string: its length, then its characters.
pub open spec fn enc_str(s: Seq<char>) -> Seq<u8> {
    enc_u64(s.len() as u64) + enc_chars(s)
}

/// The signed words of the cell-to-argument map.
pub open spec fn enc_isizes(s: Seq<isize>) -> Seq<u8>
    decreases s,
{
    if s.len() == 0 {
        Seq::empty()
    } else {
        enc_u64(s[0] as u64) + enc_isizes(s.subrange(1, s.len() as int))
    }
}

/// The optional cell-to-argument map.
pub open spec fn enc_c2a(o: Option<Seq<isize>>) -> Seq<u8> {
    match o {
        Option::None => seq![0u8],
        Option::Some(s) => seq![1u8] + enc_u64(s.len() as u64) + enc_isizes(s),
    }
}

/// One source location: row then column.
pub open spec fn enc_loc(l: Location) -> Seq<u8> {
    enc_usize(l.row) + enc_usize(l.column)
}

/// A sequence of source locations.
pub open spec fn enc_locs(s: Seq<Location>) -> Seq<u8>
    decreases s,
{
    if s.len() == 0 {
        Seq::empty()
    } else {
        enc_loc(s[0]) + enc_locs(s.subrange(1, s.len() as int))
    }
}

/// A sequence of instructions.
pub open spec fn enc_instrs(s: Seq<InstrView>) -> Seq<u8>
    decreases s,
{
    if s.len() == 0 {
        Seq::empty()
    } else {
        enc_instr(s[0]) + enc_instrs(s.subrange(1, s.len() as int))
    }
}

/// A table of names.
pub open spec fn enc_strs(s: Seq<Seq<char>>) -> Seq<u8>
    decreases s,
{
    if s.len() == 0 {
        Seq::empty()
    } else {
        enc_str(s[0]) + enc_strs(s.subrange(1, s.len() as int))
    }
}

/// One constant: a tag byte, then the variant's payload.
pub open spec fn enc_const(v: ConstView) -> Seq<u8>
    decreases v,
{
    match v {
        ConstView::Integer { negative, magnitude } => seq![0u8] + enc_bool(negative) + enc_u64(
            magnitude.len() as u64,
        ) + magnitude,
        ConstView::Float { bits } => seq![1u8] + enc_u64(bits),
        ConstView::Complex { re_bits, im_bits } => seq![2u8] + enc_u64(re_bits) + enc_u64(im_bits),
        ConstView::Boolean { value } => seq![3u8] + enc_bool(value),
        ConstView::Str { value } => seq![4u8] + enc_str(value),
        ConstView::Bytes { value } => seq![5u8] + enc_u64(value.len() as u64) + value,
        ConstView::Code { code } => seq![6u8] + enc_unit(code),
        ConstView::Tuple { elements } => seq![7u8] + enc_u64(elements.len() as u64) + enc_consts(
            elements,
        ),
        ConstView::NoneValue => seq![8u8],
        ConstView::Ellipsis => seq![9u8],
    }
}

/// A sequence of constants.
pub open spec fn enc_consts(s: Seq<ConstView>) -> Seq<u8>
    decreases s,
{
    if s.len() == 0 {
        Seq::empty()
    } else {
        enc_const(s[0]) + enc_consts(s.subrange(1, s.len() as int))
    }
}

/// A whole code unit: flags and counts, identity, the cell map, then the
/// four variable-length sections, each preceded by its length.
#[verifier::opaque]
pub open spec fn enc_unit(u: CodeView) -> Seq<u8>
    decreases u,
{
    enc_u16(u.flags.bits) + enc_usize(u.posonlyarg_count) + enc_usize(u.arg_count) + enc_usize(
        u.kwonlyarg_count,
    ) + enc_str(u.source_path) + enc_usize(u.first_line_number) + enc_str(u.obj_name) + enc_c2a(
        u.cell2arg,
    ) + enc_u64(u.instructions.len() as u64) + enc_instrs(u.instructions) + enc_u64(
        u.locations.len() as u64,
    ) + enc_locs(u.locations) + enc_u64(u.constants.len() as u64) + enc_consts(u.constants)
        + enc_u64(u.names.len() as u64) + enc_strs(u.names) + enc_u64(u.varnames.len() as u64)
        + enc_strs(u.varnames) + enc_u64(u.cellvars.len() as u64) + enc_strs(u.cellvars) + enc_u64(
        u.freevars.len() as u64,
    ) + enc_strs(u.freevars)
}

// well-formed views: the shapes that views of real values take

pub open spec fn wf_ivs(s: Seq<InstrView>) -> bool
    decreases s,
{
    if s.len() == 0 {
        true
    } else {
        wf_iv(s[0]) && wf_ivs(s.subrange(1, s.len() as int))
    }
}

pub open spec fn wf_const(v: ConstView) -> bool
    decreases v,
{
    match v {
        ConstView::Code { code } => wf_unit(code),
        ConstView::Tuple { elements } => wf_consts(elements),
        _ => true,
    }
}

pub open spec fn wf_consts(s: Seq<ConstView>) -> bool
    decreases s,
{
    if s.len() == 0 {
        true
    } else {
        wf_const(s[0]) && wf_consts(s.subrange(1, s.len() as int))
    }
}

pub open spec fn wf_unit(u: CodeView) -> bool
    decreases u,
{
    wf_ivs(u.instructions) && wf_consts(u.constants)
}

/// The view of any instruction is well formed.
proof fn lemma_wf_iview(i: Instruction)
    ensures
        wf_iv(iview(i)),
{
    match i {
        Instruction::Import { .. } => {},
        _ => {},
    }
}

/// The views of a vector of instructions are well formed.
proof fn lemma_wf_iviews(s: Seq<Instruction>)
    ensures
        wf_ivs(iviews_of(s)),
    decreases s.len(),
{
    if s.len() > 0 {
        lemma_wf_iview(s[0]);
        lemma_wf_iviews(s.subrange(1, s.len() as int));
        assert(iviews_of(s).subrange(1, s.len() as int) =~= iviews_of(
            s.subrange(1, s.len() as int),
        ));
    }
}

/// The view of any owned constant is well formed.
proof fn lemma_wf_cdview(c: ConstantData)
    ensures
        wf_const(cdview(c)),
    decreases c,
{
    match c {
        ConstantData::Code { code } => {
            lemma_wf_cuview(*code);
        },
        ConstantData::Tuple { elements } => {
            lemma_wf_cviews(elements@);
        },
        _ => {},
    }
}

/// The views of a sequence of owned constants are well formed.
proof fn lemma_wf_cviews(s: Seq<ConstantData>)
    ensures
        wf_consts(cviews_of(s)),
    decreases s,
{
    if s.len() > 0 {
        lemma_wf_cdview(s[0]);
        lemma_wf_cviews(s.subrange(1, s.len() as int));
        assert(cviews_of(s).subrange(1, cviews_of(s).len() as int) =~= cviews_of(
            s.subrange(1, s.len() as int),
        ));
    }
}

/// The view of any owned code unit is well formed.
pub proof fn lemma_wf_cuview(u: CodeObject<ConstantData, String>)
    ensures
        wf_unit(cuview(u)),
    decreases u,
{
    lemma_wf_iviews(u.instructions@);
    lemma_wf_cviews(u.constants@);
}

// ---------------------------------------------------------------------
// emitters for structures
// ---------------------------------------------------------------------

/// Relies on String::push: appends exactly the one character.
#[verifier::external_body]
fn push_char(s: &mut String, c: char)
    ensures
        final(s)@ == old(s)@ + seq![c],
{
    s.push(c);
}

/// Relies on char::from_u32: it inverts `char as u32`, so a scalar value
/// obtained from a character maps back to exactly that character.
#[verifier::external_body]
fn char_from_u32(v: u32) -> (r: Option<char>)
    ensures
        r matches Option::Some(c) ==> scalar_of(c) == v,
        forall|c0: char| v == #[trigger] scalar_of(c0) ==> r == Option::Some(c0),
{
    char::from_u32(v)
}

/// Appends the characters of `s` from index `k` on.
fn emit_chars(out: &mut Vec<u8>, s: &str, k: usize, Ghost(n): Ghost<int>)
    requires
        n == s@.len(),
        k <= n,
    ensures
        final(out)@ == old(out)@ + enc_chars(s@.skip(k as int)),
    decreases n - k,
{
    if k >= s.unicode_len() {
        proof {
            assert(s@.skip(k as int) =~= Seq::<char>::empty());
        }
        return ;
    }
    let c = s.get_char(k);
    emit_u32(out, c as u32);
    emit_chars(out, s, k + 1, Ghost(n));
    proof {
        let suf = s@.skip(k as int);
        assert(c as u32 == scalar_of(c));
        assert(suf[0] == s@[k as int]);
        assert(suf.subrange(1, suf.len() as int) =~= s@.skip(k + 1));
        assert(final(out)@ =~= old(out)@ + enc_chars(suf));
    }
}

/// Appends an encoded string.
fn emit_str(out: &mut Vec<u8>, s: &str)
    ensures
        final(out)@ == old(out)@ + enc_str(s@),
{
    let n = s.unicode_len();
    emit_u64(out, n as u64);
    emit_chars(out, s, 0, Ghost(s@.len() as int));
    proof {
        assert(s@.skip(0) =~= s@);
        assert(final(out)@ =~= old(out)@ + enc_str(s@));
    }
}

/// Appends raw bytes.
fn emit_raw(out: &mut Vec<u8>, s: &[u8])
    ensures
        final(out)@ == old(out)@ + s@,
{
    let mut k: usize = 0;
    while k < s.len()
        invariant
            k <= s@.len(),
            out@ =~= old(out)@ + s@.subrange(0, k as int),
        decreases s@.len() - k,
    {
        let x = s[k];
        out.push(x);
        k = k + 1;
        proof {
            assert(out@ =~= old(out)@ + s@.subrange(0, k as int));
        }
    }
    proof {
        assert(s@.subrange(0, s@.len() as int) =~= s@);
    }
}

/// Appends the encoded cell-to-argument map.
fn emit_c2a(out: &mut Vec<u8>, o: &Option<Vec<isize>>)
    ensures
        final(out)@ == old(out)@ + enc_c2a(crate::view::c2a_view(*o)),
{
    match o {
        Option::None => {
            out.push(0u8);
            proof {
                assert(final(out)@ =~= old(out)@ + enc_c2a(crate::view::c2a_view(*o)));
            }
        },
        Option::Some(v) => {
            out.push(1u8);
            emit_u64(out, v.len() as u64);
            let ghost mid = out@;
            let mut k: usize = 0;
            while k < v.len()
                invariant
                    k <= v@.len(),
                    out@ =~= mid + enc_isizes(v@.subrange(0, k as int)),
                decreases v@.len() - k,
            {
                emit_u64(out, v[k] as u64);
                k = k + 1;
                proof {
                    lemma_enc_isizes_snoc(v@.subrange(0, k as int));
                    assert(v@.subrange(0, k as int).subrange(0, k - 1) =~= v@.subrange(
                        0,
                        k - 1,
                    ));
                    assert(out@ =~= mid + enc_isizes(v@.subrange(0, k as int)));
                }
            }
            proof {
                assert(v@.subrange(0, v@.len() as int) =~= v@);
                assert(final(out)@ =~= old(out)@ + enc_c2a(crate::view::c2a_view(*o)));
            }
        },
    }
}

/// Splitting the last element off a nonempty sequence of signed words.
proof fn lemma_enc_isizes_snoc(s: Seq<isize>)
    requires
        s.len() > 0,
    ensures
        enc_isizes(s) == enc_isizes(s.subrange(0, s.len() - 1)) + enc_u64(
            s[s.len() - 1] as u64,
        ),
    decreases s.len(),
{
    if s.len() == 1 {
        assert(s.subrange(0, 0) =~= Seq::<isize>::empty());
        assert(s.subrange(1, 1) =~= Seq::<isize>::empty());
        assert(enc_isizes(s) == enc_u64(s[0] as u64) + enc_isizes(s.subrange(1, 1)));
        assert(enc_isizes(Seq::<isize>::empty()) =~= Seq::<u8>::empty());
        assert(enc_u64(s[0] as u64) + Seq::<u8>::empty() =~= enc_u64(s[0] as u64));
        assert(enc_isizes(s.subrange(0, 0)) =~= Seq::<u8>::empty());
        assert(enc_isizes(s) =~= enc_isizes(s.subrange(0, 0)) + enc_u64(s[0] as u64));
    } else {
        let t = s.subrange(1, s.len() as int);
        lemma_enc_isizes_snoc(t);
        assert(t.subrange(0, t.len() - 1) =~= s.subrange(0, s.len() - 1).subrange(
            1,
            s.len() - 1,
        ));
        let h = s.subrange(0, s.len() - 1);
        assert(h.len() > 0);
        assert(h[0] == s[0]);
        assert(h.subrange(1, h.len() as int) =~= t.subrange(0, t.len() - 1));
        assert(enc_isizes(h) == enc_u64(s[0] as u64) + enc_isizes(t.subrange(0, t.len() - 1)));
        assert(t[t.len() - 1] == s[s.len() - 1]);
        assert(enc_isizes(s) =~= enc_u64(s[0] as u64) + enc_isizes(t));
        assert(enc_isizes(t) =~= enc_isizes(t.subrange(0, t.len() - 1)) + enc_u64(
            s[s.len() - 1] as u64,
        ));
        assert(enc_isizes(s) =~= enc_isizes(h) + enc_u64(s[s.len() - 1] as u64));
    }
}

/// Appends the operand words of an instruction from index `k` on.
fn emit_words(out: &mut Vec<u8>, ws: &Vec<u64>, k: usize)
    requires
        k <= ws@.len(),
    ensures
        final(out)@ == old(out)@ + enc_words(ws@.skip(k as int)),
    decreases ws@.len() - k,
{
    if k >= ws.len() {
        proof {
            assert(ws@.skip(k as int) =~= Seq::<u64>::empty());
        }
        return ;
    }
    emit_u64(out, ws[k]);
    emit_words(out, ws, k + 1);
    proof {
        let suf = ws@.skip(k as int);
        assert(suf[0] == ws@[k as int]);
        assert(suf.subrange(1, suf.len() as int) =~= ws@.skip(k + 1));
        assert(final(out)@ =~= old(out)@ + enc_words(suf));
    }
}

/// Appends one encoded instruction.
fn emit_instr(out: &mut Vec<u8>, ins: &Instruction)
    ensures
        final(out)@ == old(out)@ + enc_instr(iview(*ins)),
{
    let (tag, ws) = instr_words(ins);
    out.push(tag);
    emit_u64(out, ws.len() as u64);
    emit_words(out, &ws, 0);
    proof {
        assert(ws@.skip(0) =~= ws@);
        assert(final(out)@ =~= old(out)@ + enc_instr(iview(*ins)));
    }
}

/// Appends the instructions of `v` from index `k` on.
fn emit_instrs(out: &mut Vec<u8>, v: &Vec<Instruction>, k: usize)
    requires
        k <= v@.len(),
    ensures
        final(out)@ == old(out)@ + enc_instrs(iviews_of(v@).skip(k as int)),
    decreases v@.len() - k,
{
    if k >= v.len() {
        proof {
            assert(iviews_of(v@).skip(k as int) =~= Seq::<InstrView>::empty());
        }
        return ;
    }
    emit_instr(out, &v[k]);
    emit_instrs(out, v, k + 1);
    proof {
        let suf = iviews_of(v@).skip(k as int);
        assert(suf[0] == iviews_of(v@)[k as int]);
        assert(suf.subrange(1, suf.len() as int) =~= iviews_of(v@).skip(k + 1));
        assert(final(out)@ =~= old(out)@ + enc_instrs(suf));
    }
}

/// Appends the locations of `v` from index `k` on.
fn emit_locs(out: &mut Vec<u8>, v: &Vec<Location>, k: usize)
    requires
        k <= v@.len(),
    ensures
        final(out)@ == old(out)@ + enc_locs(v@.skip(k as int)),
    decreases v@.len() - k,
{
    if k >= v.len() {
        proof {
            assert(v@.skip(k as int) =~= Seq::<Location>::empty());
        }
        return ;
    }
    let l = v[k];
    emit_usize(out, l.row);
    emit_usize(out, l.column);
    emit_locs(out, v, k + 1);
    proof {
        let suf = v@.skip(k as int);
        assert(suf[0] == v@[k as int]);
        assert(suf.subrange(1, suf.len() as int) =~= v@.skip(k + 1));
        assert(final(out)@ =~= old(out)@ + enc_locs(suf));
    }
}

/// Appends the name table `v` from index `k` on.
fn emit_strs(out: &mut Vec<u8>, v: &Vec<String>, k: usize)
    requires
        k <= v@.len(),
    ensures
        final(out)@ == old(out)@ + enc_strs(nviews_of(v@).skip(k as int)),
    decreases v@.len() - k,
{
    if k >= v.len() {
        proof {
            assert(nviews_of(v@).skip(k as int) =~= Seq::<Seq<char>>::empty());
        }
        return ;
    }
    emit_str(out, v[k].as_str());
    emit_strs(out, v, k + 1);
    proof {
        let suf = nviews_of(v@).skip(k as int);
        assert(suf[0] == nviews_of(v@)[k as int]);
        assert(suf.subrange(1, suf.len() as int) =~= nviews_of(v@).skip(k + 1));
        assert(final(out)@ =~= old(out)@ + enc_strs(suf));
    }
}

/// Appends one encoded constant.
#[verifier::rlimit(80)]
fn emit_const(out: &mut Vec<u8>, c: &ConstantData)
    ensures
        final(out)@ == old(out)@ + enc_const(cdview(*c)),
    decreases crate::view::crank(cdview(*c)),
{
    match c {
        ConstantData::Integer { value } => {
            out.push(0u8);
            emit_bool(out, value.negative);
            emit_u64(out, value.magnitude.len() as u64);
            emit_raw(out, value.magnitude.as_slice());
        },
        ConstantData::Float { bits } => {
            out.push(1u8);
            emit_u64(out, *bits);
        },
        ConstantData::Complex { re_bits, im_bits } => {
            out.push(2u8);
            emit_u64(out, *re_bits);
            emit_u64(out, *im_bits);
        },
        ConstantData::Boolean { value } => {
            out.push(3u8);
            emit_bool(out, *value);
        },
        ConstantData::Str { value } => {
            out.push(4u8);
            emit_str(out, value.as_str());
        },
        ConstantData::Bytes { value } => {
            out.push(5u8);
            emit_u64(out, value.len() as u64);
            emit_raw(out, value.as_slice());
        },
        ConstantData::Code { code } => {
            out.push(6u8);
            emit_unit(out, &**code);
        },
        ConstantData::Tuple { elements } => {
            out.push(7u8);
            emit_u64(out, elements.len() as u64);
            let ghost mid = out@;
            let ghost views = cviews_of(elements@);
            proof {
                crate::view::lemma_cviews_map(elements@);
            }
            let mut k: usize = 0;
            while k < elements.len()
                invariant
                    k <= elements@.len(),
                    views == cviews_of(elements@),
                    views.len() == elements@.len(),
                    forall|j: int|
                        0 <= j < elements@.len() ==> views[j] == cdview(#[trigger] elements@[j]),
                    crate::view::crank(cdview(*c)) == 1 + crate::view::cranks(views),
                    out@ =~= mid + enc_consts(views.subrange(0, k as int)),
                decreases elements@.len() - k,
            {
                proof {
                    crate::view::lemma_cranks_elem(views, k as int);
                }
                emit_const(out, &elements[k]);
                k = k + 1;
                proof {
                    lemma_enc_consts_snoc(views.subrange(0, k as int));
                    assert(views.subrange(0, k as int).subrange(0, k - 1) =~= views.subrange(
                        0,
                        k - 1,
                    ));
                    assert(out@ =~= mid + enc_consts(views.subrange(0, k as int)));
                }
            }
            proof {
                assert(views.subrange(0, views.len() as int) =~= views);
            }
        },
        ConstantData::NoneValue => {
            out.push(8u8);
        },
        ConstantData::Ellipsis => {
            out.push(9u8);
        },
    }
    proof {
        reveal(enc_unit);
        assert(final(out)@ =~= old(out)@ + enc_const(cdview(*c)));
    }
}

/// Splitting the last element off a nonempty sequence of constants.
proof fn lemma_enc_consts_snoc(s: Seq<ConstView>)
    requires
        s.len() > 0,
    ensures
        enc_consts(s) == enc_consts(s.subrange(0, s.len() - 1)) + enc_const(s[s.len() - 1]),
    decreases s.len(),
{
    if s.len() == 1 {
        assert(s.subrange(0, 0) =~= Seq::<ConstView>::empty());
        assert(s.subrange(1, 1) =~= Seq::<ConstView>::empty());
        assert(enc_consts(s) == enc_const(s[0]) + enc_consts(s.subrange(1, 1)));
        assert(enc_consts(Seq::<ConstView>::empty()) =~= Seq::<u8>::empty());
        assert(enc_const(s[0]) + Seq::<u8>::empty() =~= enc_const(s[0]));
        assert(enc_consts(s.subrange(0, 0)) =~= Seq::<u8>::empty());
        assert(enc_consts(s) =~= enc_consts(s.subrange(0, 0)) + enc_const(s[0]));
    } else {
        let t = s.subrange(1, s.len() as int);
        lemma_enc_consts_snoc(t);
        let h = s.subrange(0, s.len() - 1);
        assert(h[0] == s[0]);
        assert(h.subrange(1, h.len() as int) =~= t.subrange(0, t.len() - 1));
        assert(t[t.len() - 1] == s[s.len() - 1]);
        assert(enc_consts(s) =~= enc_const(s[0]) + enc_consts(t));
        assert(enc_consts(t) =~= enc_consts(t.subrange(0, t.len() - 1)) + enc_const(
            s[s.len() - 1],
        ));
        assert(enc_consts(h) == enc_const(s[0]) + enc_consts(t.subrange(0, t.len() - 1)));
        assert(enc_consts(s) =~= enc_consts(h) + enc_const(s[s.len() - 1]));
    }
}

/// The encoded front of a unit: flags, counts, identity, cell map,
/// instruction count and instructions.
pub open spec fn unit_front_bytes(u: CodeView) -> Seq<u8> {
    enc_u16(u.flags.bits) + enc_usize(u.posonlyarg_count) + enc_usize(u.arg_count) + enc_usize(
        u.kwonlyarg_count,
    ) + enc_str(u.source_path) + enc_usize(u.first_line_number) + enc_str(u.obj_name) + enc_c2a(
        u.cell2arg,
    ) + enc_u64(u.instructions.len() as u64) + enc_instrs(u.instructions)
}

/// Appends the front of an encoded code unit.
#[verifier::rlimit(100)]
fn emit_unit_front(out: &mut Vec<u8>, u: &CodeObject<ConstantData, String>)
    ensures
        final(out)@ == old(out)@ + unit_front_bytes(cuview(*u)),
{
    let ghost base = out@;
    emit_u16(out, u.flags.bits);
    let ghost mut acc: Seq<u8> = enc_u16(u.flags.bits);
    emit_usize(out, u.posonlyarg_count);
    emit_usize(out, u.arg_count);
    emit_usize(out, u.kwonlyarg_count);
    proof {
        acc = acc + enc_usize(u.posonlyarg_count) + enc_usize(u.arg_count) + enc_usize(
            u.kwonlyarg_count,
        );
        assert(out@ =~= base + acc);
    }
    emit_str(out, u.source_path.as_str());
    emit_usize(out, u.first_line_number);
    emit_str(out, u.obj_name.as_str());
    proof {
        acc = acc + enc_str(u.source_path@) + enc_usize(u.first_line_number) + enc_str(
            u.obj_name@,
        );
        assert(out@ =~= base + acc);
    }
    emit_c2a(out, &u.cell2arg);
    emit_u64(out, u.instructions.len() as u64);
    proof {
        acc = acc + enc_c2a(crate::view::c2a_view(u.cell2arg)) + enc_u64(
            u.instructions@.len() as u64,
        );
        assert(out@ =~= base + acc);
    }
    emit_instrs(out, &u.instructions, 0);
    proof {
        assert(iviews_of(u.instructions@).skip(0) =~= iviews_of(u.instructions@));
        acc = acc + enc_instrs(iviews_of(u.instructions@));
        assert(out@ =~= base + acc);
        assert(acc =~= unit_front_bytes(cuview(*u)));
    }
}

/// Appends one encoded code unit.
#[verifier::rlimit(100)]
fn emit_unit(out: &mut Vec<u8>, u: &CodeObject<ConstantData, String>)
    ensures
        final(out)@ == old(out)@ + enc_unit(cuview(*u)),
    decreases crate::view::urank(cuview(*u)),
{
    let ghost base = out@;
    let ghost uv = cuview(*u);
    emit_unit_front(out, u);
    let ghost mut acc: Seq<u8> = unit_front_bytes(uv);
    emit_u64(out, u.locations.len() as u64);
    emit_locs(out, &u.locations, 0);
    proof {
        assert(u.locations@.skip(0) =~= u.locations@);
        acc = acc + enc_u64(u.locations@.len() as u64) + enc_locs(u.locations@);
        assert(out@ =~= base + acc);
    }
    emit_u64(out, u.constants.len() as u64);
    proof {
        acc = acc + enc_u64(u.constants@.len() as u64);
        assert(out@ =~= base + acc);
    }
    let ghost mid = out@;
    let ghost views = cviews_of(u.constants@);
    proof {
        crate::view::lemma_cviews_map(u.constants@);
    }
    let mut k: usize = 0;
    while k < u.constants.len()
        invariant
            k <= u.constants@.len(),
            views == cviews_of(u.constants@),
            views.len() == u.constants@.len(),
            forall|j: int|
                0 <= j < u.constants@.len() ==> views[j] == cdview(#[trigger] u.constants@[j]),
            crate::view::urank(uv) == 1 + crate::view::cranks(views),
            uv == cuview(*u),
            out@ =~= mid + enc_consts(views.subrange(0, k as int)),
        decreases u.constants@.len() - k,
    {
        proof {
            crate::view::lemma_cranks_elem(views, k as int);
        }
        emit_const(out, &u.constants[k]);
        k = k + 1;
        proof {
            lemma_enc_consts_snoc(views.subrange(0, k as int));
            assert(views.subrange(0, k as int).subrange(0, k - 1) =~= views.subrange(0, k - 1));
            assert(out@ =~= mid + enc_consts(views.subrange(0, k as int)));
        }
    }
    proof {
        assert(views.subrange(0, views.len() as int) =~= views);
        acc = acc + enc_consts(views);
        assert(out@ =~= base + acc);
    }
    emit_u64(out, u.names.len() as u64);
    emit_strs(out, &u.names, 0);
    emit_u64(out, u.varnames.len() as u64);
    emit_strs(out, &u.varnames, 0);
    proof {
        assert(nviews_of(u.names@).skip(0) =~= nviews_of(u.names@));
        assert(nviews_of(u.varnames@).skip(0) =~= nviews_of(u.varnames@));
        acc = acc + enc_u64(u.names@.len() as u64) + enc_strs(nviews_of(u.names@)) + enc_u64(
            u.varnames@.len() as u64,
        ) + enc_strs(nviews_of(u.varnames@));
        assert(out@ =~= base + acc);
    }
    emit_u64(out, u.cellvars.len() as u64);
    emit_strs(out, &u.cellvars, 0);
    emit_u64(out, u.freevars.len() as u64);
    emit_strs(out, &u.freevars, 0);
    proof {
        assert(nviews_of(u.cellvars@).skip(0) =~= nviews_of(u.cellvars@));
        assert(nviews_of(u.freevars@).skip(0) =~= nviews_of(u.freevars@));
        acc = acc + enc_u64(u.cellvars@.len() as u64) + enc_strs(nviews_of(u.cellvars@)) + enc_u64(
            u.freevars@.len() as u64,
        ) + enc_strs(nviews_of(u.freevars@));
        assert(out@ =~= base + acc);
        reveal(enc_unit);
        assert(acc =~= enc_unit(uv));
        assert(final(out)@ =~= old(out)@ + enc_unit(cuview(*u)));
    }
}

// ---------------------------------------------------------------------
// decoders
//
// Each decoder takes a ghost witness: the view that the bytes at `pos`
// are claimed to encode.  When a witness is supplied, decoding is proved
// to succeed and to return exactly that view; without one, the decoder
// still runs and reports a typed error on malformed input.
// ---------------------------------------------------------------------

/// Characters with equal scalar values are equal.
proof fn lemma_scalar_inj(c1: char, c2: char)
    requires
        scalar_of(c1) == scalar_of(c2),
    ensures
        c1 == c2,
{
}

pub proof fn lemma_enc_chars_len(s: Seq<char>)
    ensures
        enc_chars(s).len() == 4 * s.len(),
    decreases s.len(),
{
    if s.len() > 0 {
        lemma_enc_chars_len(s.subrange(1, s.len() as int));
    }
}

/// Reads `n` characters.
fn dec_chars_into(
    b: &[u8],
    pos: usize,
    n: usize,
    out: &mut String,
    Ghost(gw): Ghost<Option<Seq<char>>>,
) -> (r: Result<usize, DecodeError>)
    requires
        gw matches Option::Some(sv) ==> (sv.len() == n && has_at(
            b@,
            pos as int,
            enc_chars(sv),
        )),
    ensures
        gw matches Option::Some(sv) ==> (r matches Ok(end) && final(out)@ == old(out)@ + sv && end
            == pos + enc_chars(sv).len()),
        r matches Ok(end) ==> pos <= end <= b@.len(),
    decreases n,
{
    if n == 0 {
        proof {
            match gw {
                Option::Some(sv) => {
                    assert(sv =~= Seq::<char>::empty());
                    assert(old(out)@ + sv =~= old(out)@);
                },
                Option::None => {},
            }
        }
        if pos > b.len() {
            return Err(DecodeError::Truncated);
        }
        return Ok(pos);
    }
    let ghost gw_head: Option<char> = match gw {
        Option::Some(sv) => Option::Some(sv[0]),
        Option::None => Option::None,
    };
    let ghost gw_rest: Option<Seq<char>> = match gw {
        Option::Some(sv) => Option::Some(sv.subrange(1, sv.len() as int)),
        Option::None => Option::None,
    };
    proof {
        match gw {
            Option::Some(sv) => {
                assert(enc_chars(sv) == enc_u32(scalar_of(sv[0])) + enc_chars(
                    sv.subrange(1, sv.len() as int),
                ));
                lemma_has_at_concat(
                    b@,
                    pos as int,
                    enc_u32(scalar_of(sv[0])),
                    enc_chars(sv.subrange(1, sv.len() as int)),
                );
                lemma_at_u32(b@, pos as int, scalar_of(sv[0]));
            },
            Option::None => {},
        }
    }
    let (x, p1) = match read_u32(b, pos) {
        Ok(v) => v,
        Err(e) => {
            return Err(e);
        },
    };
    let c = match char_from_u32(x) {
        Option::Some(c) => c,
        Option::None => {
            proof {
                match gw {
                    Option::Some(sv) => {
                        assert(le32_of(
                            b@[pos as int],
                            b@[pos as int + 1],
                            b@[pos as int + 2],
                            b@[pos as int + 3],
                        ) == scalar_of(sv[0]));
                        assert(x == le32_of(b@[pos as int], b@[pos + 1], b@[pos + 2], b@[pos + 3]));
                        assert(x == scalar_of(sv[0]));
                    },
                    Option::None => {},
                }
            }
            return Err(DecodeError::Malformed);
        },
    };
    push_char(out, c);
    let end = match dec_chars_into(b, p1, n - 1, out, Ghost(gw_rest)) {
        Ok(v) => v,
        Err(e) => {
            return Err(e);
        },
    };
    proof {
        match gw {
            Option::Some(sv) => {
                assert(le32_of(
                    b@[pos as int],
                    b@[pos as int + 1],
                    b@[pos as int + 2],
                    b@[pos as int + 3],
                ) == scalar_of(sv[0]));
                assert(x == le32_of(b@[pos as int], b@[pos + 1], b@[pos + 2], b@[pos + 3]));
                assert(x == scalar_of(sv[0]));
                assert(c == sv[0]);
                assert(seq![c] + sv.subrange(1, sv.len() as int) =~= sv);
                assert(final(out)@ =~= old(out)@ + sv);
            },
            Option::None => {},
        }
    }
    Ok(end)
}

/// Reads an encoded string: its length, then its characters.
fn dec_str(b: &[u8], pos: usize, Ghost(gw): Ghost<Option<Seq<char>>>) -> (r: Result<
    (String, usize),
    DecodeError,
>)
    requires
        gw matches Option::Some(sv) ==> has_at(b@, pos as int, enc_str(sv)),
    ensures
        gw matches Option::Some(sv) ==> (r matches Ok(v) && v.0@ == sv && v.1 == pos + enc_str(
            sv,
        ).len()),
        r matches Ok(v) ==> pos <= v.1 <= b@.len(),
{
    let blen = b.len();
    proof {
        match gw {
            Option::Some(sv) => {
                lemma_has_at_concat(b@, pos as int, enc_u64(sv.len() as u64), enc_chars(sv));
                lemma_enc_chars_len(sv);
            },
            Option::None => {},
        }
    }
    let (n64, p1) = match read_u64(b, pos) {
        Ok(v) => v,
        Err(e) => {
            return Err(e);
        },
    };
    proof {
        match gw {
            Option::Some(sv) => {
                lemma_at_u64(b@, pos as int, sv.len() as u64);
                assert(n64 == sv.len() as u64);
                assert(sv.len() <= blen);
            },
            Option::None => {},
        }
    }
    if n64 > usize::MAX as u64 {
        return Err(DecodeError::Malformed);
    }
    let n = n64 as usize;
    let mut out = String::new();
    let end = match dec_chars_into(b, p1, n, &mut out, Ghost(gw)) {
        Ok(v) => v,
        Err(e) => {
            return Err(e);
        },
    };
    proof {
        match gw {
            Option::Some(sv) => {
                assert(Seq::<char>::empty() + sv =~= sv);
            },
            Option::None => {},
        }
    }
    Ok((out, end))
}

/// Reads `n` raw bytes.
fn read_raw(b: &[u8], pos: usize, n: usize) -> (r: Result<(Vec<u8>, usize), DecodeError>)
    ensures
        r matches Ok(v) ==> (pos + n <= b@.len() && v.0@ == b@.subrange(pos as int, pos + n) && v.1
            == pos + n),
        pos + n <= b@.len() ==> r is Ok,
{
    if b.len() < n || pos > b.len() - n {
        return Err(DecodeError::Truncated);
    }
    let sl = vstd::slice::slice_subrange(b, pos, pos + n);
    let v = crate::constant::copy_bytes(sl);
    Ok((v, pos + n))
}

/// Reads `n` signed words.
fn dec_isizes_into(
    b: &[u8],
    pos: usize,
    n: usize,
    out: &mut Vec<isize>,
    Ghost(gw): Ghost<Option<Seq<isize>>>,
) -> (r: Result<usize, DecodeError>)
    requires
        gw matches Option::Some(sv) ==> (sv.len() == n && has_at(
            b@,
            pos as int,
            enc_isizes(sv),
        )),
    ensures
        gw matches Option::Some(sv) ==> (r matches Ok(end) && final(out)@ == old(out)@ + sv && end
            == pos + enc_isizes(sv).len()),
        r matches Ok(end) ==> pos <= end <= b@.len(),
    decreases n,
{
    if n == 0 {
        proof {
            match gw {
                Option::Some(sv) => {
                    assert(sv =~= Seq::<isize>::empty());
                    assert(old(out)@ + sv =~= old(out)@);
                },
                Option::None => {},
            }
        }
        if pos > b.len() {
            return Err(DecodeError::Truncated);
        }
        return Ok(pos);
    }
    let ghost gw_rest: Option<Seq<isize>> = match gw {
        Option::Some(sv) => Option::Some(sv.subrange(1, sv.len() as int)),
        Option::None => Option::None,
    };
    proof {
        match gw {
            Option::Some(sv) => {
                assert(enc_isizes(sv) == enc_u64(sv[0] as u64) + enc_isizes(
                    sv.subrange(1, sv.len() as int),
                ));
                lemma_has_at_concat(
                    b@,
                    pos as int,
                    enc_u64(sv[0] as u64),
                    enc_isizes(sv.subrange(1, sv.len() as int)),
                );
                lemma_at_u64(b@, pos as int, sv[0] as u64);
            },
            Option::None => {},
        }
    }
    let (x, p1) = match read_u64(b, pos) {
        Ok(v) => v,
        Err(e) => {
            return Err(e);
        },
    };
    let xi = x as i64;
    if xi < isize::MIN as i64 || xi > isize::MAX as i64 {
        proof {
            match gw {
                Option::Some(sv) => {
                    let y = sv[0];
                    assert(x == y as u64);
                    assert(((y as i64 as u64) as i64) == y as i64) by (bit_vector);
                },
                Option::None => {},
            }
        }
        return Err(DecodeError::Malformed);
    }
    out.push(xi as isize);
    let end = match dec_isizes_into(b, p1, n - 1, out, Ghost(gw_rest)) {
        Ok(v) => v,
        Err(e) => {
            return Err(e);
        },
    };
    proof {
        match gw {
            Option::Some(sv) => {
                let y = sv[0];
                assert(x == y as u64);
                assert(((y as i64 as u64) as i64) == y as i64) by (bit_vector);
                assert(xi as isize == y);
                assert(seq![y] + sv.subrange(1, sv.len() as int) =~= sv);
                assert(final(out)@ =~= old(out)@ + sv);
            },
            Option::None => {},
        }
    }
    Ok(end)
}

/// Reads the optional cell-to-argument map.
fn dec_c2a(b: &[u8], pos: usize, Ghost(gw): Ghost<Option<Option<Seq<isize>>>>) -> (r: Result<
    (Option<Vec<isize>>, usize),
    DecodeError,
>)
    requires
        gw matches Option::Some(ov) ==> has_at(b@, pos as int, enc_c2a(ov)),
    ensures
        gw matches Option::Some(ov) ==> (r matches Ok(v) && crate::view::c2a_view(v.0) == ov && v.1
            == pos + enc_c2a(ov).len()),
        r matches Ok(v) ==> pos <= v.1 <= b@.len(),
{
    let blen = b.len();
    proof {
        match gw {
            Option::Some(ov) => {
                match ov {
                    Option::Some(sv) => {
                        assert(enc_c2a(ov) == seq![1u8] + (enc_u64(sv.len() as u64) + enc_isizes(
                            sv,
                        )));
                        lemma_has_at_concat(
                            b@,
                            pos as int,
                            seq![1u8],
                            enc_u64(sv.len() as u64) + enc_isizes(sv),
                        );
                        lemma_has_at_concat(
                            b@,
                            pos + 1,
                            enc_u64(sv.len() as u64),
                            enc_isizes(sv),
                        );
                        assert(b@[pos as int] == seq![1u8][0]);
                        lemma_enc_isizes_len(sv);
                        lemma_at_u64(b@, pos + 1, sv.len() as u64);
                    },
                    Option::None => {
                        assert(b@[pos as int] == enc_c2a(ov)[0]);
                    },
                }
            },
            Option::None => {},
        }
    }
    let (tag, p1) = match read_u8(b, pos) {
        Ok(v) => v,
        Err(e) => {
            return Err(e);
        },
    };
    if tag == 0 {
        return Ok((Option::None, p1));
    }
    if tag != 1 {
        return Err(DecodeError::Malformed);
    }
    let (n64, p2) = match read_u64(b, p1) {
        Ok(v) => v,
        Err(e) => {
            return Err(e);
        },
    };
    if n64 > usize::MAX as u64 {
        return Err(DecodeError::Malformed);
    }
    let ghost gw_items: Option<Seq<isize>> = match gw {
        Option::Some(ov) => match ov {
            Option::Some(sv) => Option::Some(sv),
            Option::None => Option::None,
        },
        Option::None => Option::None,
    };
    let mut items: Vec<isize> = Vec::new();
    proof {
        match gw {
            Option::Some(ov) => {
                match ov {
                    Option::Some(sv) => {
                        assert(n64 == sv.len() as u64);
                        assert(sv.len() <= blen);
                        assert(n64 as usize == sv.len());
                    },
                    Option::None => {},
                }
            },
            Option::None => {},
        }
    }
    let end = match dec_isizes_into(b, p2, n64 as usize, &mut items, Ghost(gw_items)) {
        Ok(v) => v,
        Err(e) => {
            return Err(e);
        },
    };
    proof {
        match gw {
            Option::Some(ov) => {
                match ov {
                    Option::Some(sv) => {
                        assert(Seq::<isize>::empty() + sv =~= sv);
                    },
                    Option::None => {},
                }
            },
            Option::None => {},
        }
    }
    Ok((Option::Some(items), end))
}

proof fn lemma_enc_isizes_len(s: Seq<isize>)
    ensures
        enc_isizes(s).len() == 8 * s.len(),
    decreases s.len(),
{
    if s.len() > 0 {
        lemma_enc_isizes_len(s.subrange(1, s.len() as int));
    }
}

/// Reads `n` operand words.
fn read_words_into(
    b: &[u8],
    pos: usize,
    n: usize,
    out: &mut Vec<u64>,
    Ghost(gw): Ghost<Option<Seq<u64>>>,
) -> (r: Result<usize, DecodeError>)
    requires
        gw matches Option::Some(ws) ==> (ws.len() == n && has_at(b@, pos as int, enc_words(ws))),
    ensures
        gw matches Option::Some(ws) ==> (r matches Ok(end) && final(out)@ == old(out)@ + ws && end
            == pos + enc_words(ws).len()),
        r matches Ok(end) ==> pos <= end <= b@.len(),
    decreases n,
{
    if n == 0 {
        proof {
            match gw {
                Option::Some(ws) => {
                    assert(ws =~= Seq::<u64>::empty());
                    assert(old(out)@ + ws =~= old(out)@);
                },
                Option::None => {},
            }
        }
        if pos > b.len() {
            return Err(DecodeError::Truncated);
        }
        return Ok(pos);
    }
    let ghost gw_rest: Option<Seq<u64>> = match gw {
        Option::Some(ws) => Option::Some(ws.subrange(1, ws.len() as int)),
        Option::None => Option::None,
    };
    proof {
        match gw {
            Option::Some(ws) => {
                assert(enc_words(ws) == enc_u64(ws[0]) + enc_words(
                    ws.subrange(1, ws.len() as int),
                ));
                lemma_has_at_concat(
                    b@,
                    pos as int,
                    enc_u64(ws[0]),
                    enc_words(ws.subrange(1, ws.len() as int)),
                );
                lemma_at_u64(b@, pos as int, ws[0]);
            },
            Option::None => {},
        }
    }
    let (x, p1) = match read_u64(b, pos) {
        Ok(v) => v,
        Err(e) => {
            return Err(e);
        },
    };
    out.push(x);
    let end = match read_words_into(b, p1, n - 1, out, Ghost(gw_rest)) {
        Ok(v) => v,
        Err(e) => {
            return Err(e);
        },
    };
    proof {
        match gw {
            Option::Some(ws) => {
                assert(x == ws[0]);
                assert(seq![ws[0]] + ws.subrange(1, ws.len() as int) =~= ws);
                assert(final(out)@ =~= old(out)@ + ws);
            },
            Option::None => {},
        }
    }
    Ok(end)
}

/// Reads one instruction.
fn dec_instr(b: &[u8], pos: usize, Ghost(gw): Ghost<Option<InstrView>>) -> (r: Result<
    (Instruction, usize),
    DecodeError,
>)
    requires
        gw matches Option::Some(iv) ==> (wf_iv(iv) && has_at(b@, pos as int, enc_instr(iv))),
    ensures
        gw matches Option::Some(iv) ==> (r matches Ok(v) && iview(v.0) == iv && v.1 == pos
            + enc_instr(iv).len()),
        r matches Ok(v) ==> pos < v.1 <= b@.len(),
{
    let blen = b.len();
    proof {
        match gw {
            Option::Some(iv) => {
                lemma_instr_decomp(b@, pos as int, iv);
                lemma_at_u64(b@, pos as int + 1, iparts(iv).1.len() as u64);
                lemma_enc_words_len(iparts(iv).1);
            },
            Option::None => {},
        }
    }
    let (tag, p1) = match read_u8(b, pos) {
        Ok(v) => v,
        Err(e) => {
            return Err(e);
        },
    };
    let (n64, p2) = match read_u64(b, p1) {
        Ok(v) => v,
        Err(e) => {
            return Err(e);
        },
    };
    if n64 > usize::MAX as u64 {
        proof {
            match gw {
                Option::Some(iv) => {
                    lemma_enc_words_len(iparts(iv).1);
                },
                Option::None => {},
            }
        }
        return Err(DecodeError::Malformed);
    }
    let n = n64 as usize;
    let mut words: Vec<u64> = Vec::new();
    let ghost gw_words: Option<Seq<u64>> = match gw {
        Option::Some(iv) => Option::Some(iparts(iv).1),
        Option::None => Option::None,
    };
    proof {
        match gw {
            Option::Some(iv) => {
                lemma_enc_words_len(iparts(iv).1);
            },
            Option::None => {},
        }
    }
    proof {
        match gw {
            Option::Some(iv) => {
                assert(n64 == iparts(iv).1.len() as u64);
                assert(iparts(iv).1.len() <= blen);
                assert(n == iparts(iv).1.len());
            },
            Option::None => {},
        }
    }
    let end = match read_words_into(b, p2, n, &mut words, Ghost(gw_words)) {
        Ok(v) => v,
        Err(e) => {
            return Err(e);
        },
    };
    match parts_to_instr(tag, &words) {
        Option::Some(ins) => {
            proof {
                match gw {
                    Option::Some(iv) => {
                        assert(Seq::<u64>::empty() + iparts(iv).1 =~= iparts(iv).1);
                        assert(words@ == iparts(iv).1);
                    },
                    Option::None => {},
                }
            }
            Ok((ins, end))
        },
        Option::None => Err(DecodeError::Malformed),
    }
}

/// Reads `n` instructions.
fn dec_instrs_into(
    b: &[u8],
    pos: usize,
    n: usize,
    out: &mut Vec<Instruction>,
    Ghost(gw): Ghost<Option<Seq<InstrView>>>,
) -> (r: Result<usize, DecodeError>)
    requires
        gw matches Option::Some(s) ==> (s.len() == n && wf_ivs(s) && has_at(
            b@,
            pos as int,
            enc_instrs(s),
        )),
    ensures
        gw matches Option::Some(s) ==> (r matches Ok(end) && iviews_of(final(out)@) == iviews_of(
            old(out)@,
        ) + s && end == pos + enc_instrs(s).len()),
        r matches Ok(end) ==> pos <= end <= b@.len(),
    decreases n,
{
    if n == 0 {
        proof {
            match gw {
                Option::Some(s) => {
                    assert(s =~= Seq::<InstrView>::empty());
                    assert(iviews_of(old(out)@) + s =~= iviews_of(old(out)@));
                },
                Option::None => {},
            }
        }
        if pos > b.len() {
            return Err(DecodeError::Truncated);
        }
        return Ok(pos);
    }
    let ghost gw_head: Option<InstrView> = match gw {
        Option::Some(s) => Option::Some(s[0]),
        Option::None => Option::None,
    };
    let ghost gw_rest: Option<Seq<InstrView>> = match gw {
        Option::Some(s) => Option::Some(s.subrange(1, s.len() as int)),
        Option::None => Option::None,
    };
    proof {
        match gw {
            Option::Some(s) => {
                assert(enc_instrs(s) == enc_instr(s[0]) + enc_instrs(
                    s.subrange(1, s.len() as int),
                ));
                lemma_has_at_concat(
                    b@,
                    pos as int,
                    enc_instr(s[0]),
                    enc_instrs(s.subrange(1, s.len() as int)),
                );
            },
            Option::None => {},
        }
    }
    let (ins, p1) = match dec_instr(b, pos, Ghost(gw_head)) {
        Ok(v) => v,
        Err(e) => {
            return Err(e);
        },
    };
    out.push(ins);
    let end = match dec_instrs_into(b, p1, n - 1, out, Ghost(gw_rest)) {
        Ok(v) => v,
        Err(e) => {
            return Err(e);
        },
    };
    proof {
        match gw {
            Option::Some(s) => {
                assert(iviews_of(old(out)@.push(ins)) =~= iviews_of(old(out)@) + seq![s[0]]);
                assert(iviews_of(old(out)@) + seq![s[0]] + s.subrange(1, s.len() as int)
                    =~= iviews_of(old(out)@) + s);
            },
            Option::None => {},
        }
    }
    Ok(end)
}

/// Reads `n` source locations.
fn dec_locs_into(
    b: &[u8],
    pos: usize,
    n: usize,
    out: &mut Vec<Location>,
    Ghost(gw): Ghost<Option<Seq<Location>>>,
) -> (r: Result<usize, DecodeError>)
    requires
        gw matches Option::Some(s) ==> (s.len() == n && has_at(b@, pos as int, enc_locs(s))),
    ensures
        gw matches Option::Some(s) ==> (r matches Ok(end) && final(out)@ == old(out)@ + s && end
            == pos + enc_locs(s).len()),
        r matches Ok(end) ==> pos <= end <= b@.len(),
    decreases n,
{
    if n == 0 {
        proof {
            match gw {
                Option::Some(s) => {
                    assert(s =~= Seq::<Location>::empty());
                    assert(old(out)@ + s =~= old(out)@);
                },
                Option::None => {},
            }
        }
        if pos > b.len() {
            return Err(DecodeError::Truncated);
        }
        return Ok(pos);
    }
    let ghost gw_rest: Option<Seq<Location>> = match gw {
        Option::Some(s) => Option::Some(s.subrange(1, s.len() as int)),
        Option::None => Option::None,
    };
    proof {
        match gw {
            Option::Some(s) => {
                assert(enc_locs(s) == enc_loc(s[0]) + enc_locs(s.subrange(1, s.len() as int)));
                assert(enc_loc(s[0]) == enc_usize(s[0].row) + enc_usize(s[0].column));
                lemma_has_at_concat(
                    b@,
                    pos as int,
                    enc_loc(s[0]),
                    enc_locs(s.subrange(1, s.len() as int)),
                );
                lemma_has_at_concat(
                    b@,
                    pos as int,
                    enc_usize(s[0].row),
                    enc_usize(s[0].column),
                );
                lemma_at_u64(b@, pos as int, s[0].row as u64);
                lemma_at_u64(b@, pos as int + 8, s[0].column as u64);
            },
            Option::None => {},
        }
    }
    let (row, p1) = match read_usize(b, pos) {
        Ok(v) => v,
        Err(e) => {
            return Err(e);
        },
    };
    let (col, p2) = match read_usize(b, p1) {
        Ok(v) => v,
        Err(e) => {
            return Err(e);
        },
    };
    out.push(Location { row, column: col });
    let end = match dec_locs_into(b, p2, n - 1, out, Ghost(gw_rest)) {
        Ok(v) => v,
        Err(e) => {
            return Err(e);
        },
    };
    proof {
        match gw {
            Option::Some(s) => {
                assert(row == s[0].row && col == s[0].column);
                assert(Location { row, column: col } == s[0]);
                assert(seq![s[0]] + s.subrange(1, s.len() as int) =~= s);
                assert(final(out)@ =~= old(out)@ + s);
            },
            Option::None => {},
        }
    }
    Ok(end)
}

/// Reads `n` names.
fn dec_strs_into(
    b: &[u8],
    pos: usize,
    n: usize,
    out: &mut Vec<String>,
    Ghost(gw): Ghost<Option<Seq<Seq<char>>>>,
) -> (r: Result<usize, DecodeError>)
    requires
        gw matches Option::Some(s) ==> (s.len() == n && has_at(b@, pos as int, enc_strs(s))),
    ensures
        gw matches Option::Some(s) ==> (r matches Ok(end) && nviews_of(final(out)@) == nviews_of(
            old(out)@,
        ) + s && end == pos + enc_strs(s).len()),
        r matches Ok(end) ==> pos <= end <= b@.len(),
    decreases n,
{
    if n == 0 {
        proof {
            match gw {
                Option::Some(s) => {
                    assert(s =~= Seq::<Seq<char>>::empty());
                    assert(nviews_of(old(out)@) + s =~= nviews_of(old(out)@));
                },
                Option::None => {},
            }
        }
        if pos > b.len() {
            return Err(DecodeError::Truncated);
        }
        return Ok(pos);
    }
    let ghost gw_head: Option<Seq<char>> = match gw {
        Option::Some(s) => Option::Some(s[0]),
        Option::None => Option::None,
    };
    let ghost gw_rest: Option<Seq<Seq<char>>> = match gw {
        Option::Some(s) => Option::Some(s.subrange(1, s.len() as int)),
        Option::None => Option::None,
    };
    proof {
        match gw {
            Option::Some(s) => {
                assert(enc_strs(s) == enc_str(s[0]) + enc_strs(s.subrange(1, s.len() as int)));
                lemma_has_at_concat(
                    b@,
                    pos as int,
                    enc_str(s[0]),
                    enc_strs(s.subrange(1, s.len() as int)),
                );
            },
            Option::None => {},
        }
    }
    let (name, p1) = match dec_str(b, pos, Ghost(gw_head)) {
        Ok(v) => v,
        Err(e) => {
            return Err(e);
        },
    };
    out.push(name);
    let end = match dec_strs_into(b, p1, n - 1, out, Ghost(gw_rest)) {
        Ok(v) => v,
        Err(e) => {
            return Err(e);
        },
    };
    proof {
        match gw {
            Option::Some(s) => {
                assert(nviews_of(old(out)@.push(name)) =~= nviews_of(old(out)@) + seq![s[0]]);
                assert(nviews_of(old(out)@) + seq![s[0]] + s.subrange(1, s.len() as int)
                    =~= nviews_of(old(out)@) + s);
            },
            Option::None => {},
        }
    }
    Ok(end)
}

/// Reads one constant.
#[verifier::rlimit(100)]
fn dec_const(b: &[u8], pos: usize, Ghost(gw): Ghost<Option<ConstView>>) -> (r: Result<
    (ConstantData, usize),
    DecodeError,
>)
    requires
        gw matches Option::Some(cv) ==> (wf_const(cv) && has_at(b@, pos as int, enc_const(cv))),
    ensures
        gw matches Option::Some(cv) ==> (r matches Ok(v) && cdview(v.0) == cv && v.1 == pos
            + enc_const(cv).len()),
        r matches Ok(v) ==> pos < v.1 <= b@.len(),
    decreases b@.len() - pos, 1int, 0int,
{
    let blen = b.len();
    let (tag, p1) = match read_u8(b, pos) {
        Ok(v) => v,
        Err(e) => {
            proof {
                match gw {
                    Option::Some(cv) => {
                        assert(enc_const(cv).len() >= 1);
                    },
                    Option::None => {},
                }
            }
            return Err(e);
        },
    };
    proof {
        match gw {
            Option::Some(cv) => {
                assert(b@[pos as int] == enc_const(cv)[0]);
            },
            Option::None => {},
        }
    }
    if tag == 0 {
        // arbitrary-precision integer: sign, magnitude length, magnitude
        proof {
            match gw {
                Option::Some(cv) => {
                    match cv {
                        ConstView::Integer { negative, magnitude } => {
                            assert(enc_const(cv) =~= seq![0u8] + (enc_bool(negative) + (enc_u64(
                                magnitude.len() as u64,
                            ) + magnitude)));
                            lemma_has_at_concat(
                                b@,
                                pos as int,
                                seq![0u8],
                                enc_bool(negative) + (enc_u64(magnitude.len() as u64)
                                    + magnitude),
                            );
                            lemma_has_at_concat(
                                b@,
                                pos + 1,
                                enc_bool(negative),
                                enc_u64(magnitude.len() as u64) + magnitude,
                            );
                            lemma_has_at_concat(
                                b@,
                                pos + 2,
                                enc_u64(magnitude.len() as u64),
                                magnitude,
                            );
                            lemma_at_bool(b@, pos + 1, negative);
                            lemma_at_u64(b@, pos + 2, magnitude.len() as u64);
                        },
                        _ => {
                            assert(false);
                        },
                    }
                },
                Option::None => {},
            }
        }
        let (neg, p2) = match read_bool(b, p1) {
            Ok(v) => v,
            Err(e) => {
                return Err(e);
            },
        };
        let (n64, p3) = match read_u64(b, p2) {
            Ok(v) => v,
            Err(e) => {
                return Err(e);
            },
        };
        if n64 > usize::MAX as u64 {
            return Err(DecodeError::Malformed);
        }
        let (mag, p4) = match read_raw(b, p3, n64 as usize) {
            Ok(v) => v,
            Err(e) => {
                return Err(e);
            },
        };
        proof {
            match gw {
                Option::Some(cv) => {
                    match cv {
                        ConstView::Integer { negative, magnitude } => {
                            assert(magnitude.len() <= blen);
                            assert(n64 as usize == magnitude.len());
                            assert(mag@ =~= magnitude);
                        },
                        _ => {},
                    }
                },
                Option::None => {},
            }
        }
        return Ok((
            ConstantData::Integer { value: BigIntValue { negative: neg, magnitude: mag } },
            p4,
        ));
    }
    if tag == 1 {
        proof {
            match gw {
                Option::Some(cv) => {
                    match cv {
                        ConstView::Float { bits } => {
                            assert(enc_const(cv) =~= seq![1u8] + enc_u64(bits));
                            lemma_has_at_concat(b@, pos as int, seq![1u8], enc_u64(bits));
                            lemma_at_u64(b@, pos + 1, bits);
                        },
                        _ => {
                            assert(false);
                        },
                    }
                },
                Option::None => {},
            }
        }
        let (bits, p2) = match read_u64(b, p1) {
            Ok(v) => v,
            Err(e) => {
                return Err(e);
            },
        };
        return Ok((ConstantData::Float { bits }, p2));
    }
    if tag == 2 {
        proof {
            match gw {
                Option::Some(cv) => {
                    match cv {
                        ConstView::Complex { re_bits, im_bits } => {
                            assert(enc_const(cv) =~= seq![2u8] + (enc_u64(re_bits) + enc_u64(
                                im_bits,
                            )));
                            lemma_has_at_concat(
                                b@,
                                pos as int,
                                seq![2u8],
                                enc_u64(re_bits) + enc_u64(im_bits),
                            );
                            lemma_has_at_concat(
                                b@,
                                pos + 1,
                                enc_u64(re_bits),
                                enc_u64(im_bits),
                            );
                            lemma_at_u64(b@, pos + 1, re_bits);
                            lemma_at_u64(b@, pos + 9, im_bits);
                        },
                        _ => {
                            assert(false);
                        },
                    }
                },
                Option::None => {},
            }
        }
        let (re_bits, p2) = match read_u64(b, p1) {
            Ok(v) => v,
            Err(e) => {
                return Err(e);
            },
        };
        let (im_bits, p3) = match read_u64(b, p2) {
            Ok(v) => v,
            Err(e) => {
                return Err(e);
            },
        };
        return Ok((ConstantData::Complex { re_bits, im_bits }, p3));
    }
    if tag == 3 {
        proof {
            match gw {
                Option::Some(cv) => {
                    match cv {
                        ConstView::Boolean { value } => {
                            assert(enc_const(cv) =~= seq![3u8] + enc_bool(value));
                            lemma_has_at_concat(b@, pos as int, seq![3u8], enc_bool(value));
                            lemma_at_bool(b@, pos + 1, value);
                        },
                        _ => {
                            assert(false);
                        },
                    }
                },
                Option::None => {},
            }
        }
        let (v, p2) = match read_bool(b, p1) {
            Ok(v) => v,
            Err(e) => {
                return Err(e);
            },
        };
        return Ok((ConstantData::Boolean { value: v }, p2));
    }
    if tag == 4 {
        let ghost gw_str: Option<Seq<char>> = match gw {
            Option::Some(cv) => match cv {
                ConstView::Str { value } => Option::Some(value),
                _ => Option::None,
            },
            Option::None => Option::None,
        };
        proof {
            match gw {
                Option::Some(cv) => {
                    match cv {
                        ConstView::Str { value } => {
                            assert(enc_const(cv) =~= seq![4u8] + enc_str(value));
                            lemma_has_at_concat(b@, pos as int, seq![4u8], enc_str(value));
                        },
                        _ => {
                            assert(false);
                        },
                    }
                },
                Option::None => {},
            }
        }
        let (sv, p2) = match dec_str(b, p1, Ghost(gw_str)) {
            Ok(v) => v,
            Err(e) => {
                return Err(e);
            },
        };
        return Ok((ConstantData::Str { value: sv }, p2));
    }
    if tag == 5 {
        proof {
            match gw {
                Option::Some(cv) => {
                    match cv {
                        ConstView::Bytes { value } => {
                            assert(enc_const(cv) =~= seq![5u8] + (enc_u64(value.len() as u64)
                                + value));
                            lemma_has_at_concat(
                                b@,
                                pos as int,
                                seq![5u8],
                                enc_u64(value.len() as u64) + value,
                            );
                            lemma_has_at_concat(
                                b@,
                                pos + 1,
                                enc_u64(value.len() as u64),
                                value,
                            );
                            lemma_at_u64(b@, pos + 1, value.len() as u64);
                        },
                        _ => {
                            assert(false);
                        },
                    }
                },
                Option::None => {},
            }
        }
        let (n64, p2) = match read_u64(b, p1) {
            Ok(v) => v,
            Err(e) => {
                return Err(e);
            },
        };
        if n64 > usize::MAX as u64 {
            return Err(DecodeError::Malformed);
        }
        let (data, p3) = match read_raw(b, p2, n64 as usize) {
            Ok(v) => v,
            Err(e) => {
                return Err(e);
            },
        };
        proof {
            match gw {
                Option::Some(cv) => {
                    match cv {
                        ConstView::Bytes { value } => {
                            assert(value.len() <= blen);
                            assert(n64 as usize == value.len());
                            assert(data@ =~= value);
                        },
                        _ => {},
                    }
                },
                Option::None => {},
            }
        }
        return Ok((ConstantData::Bytes { value: data }, p3));
    }
    if tag == 6 {
        let ghost gw_unit: Option<CodeView> = match gw {
            Option::Some(cv) => match cv {
                ConstView::Code { code } => Option::Some(code),
                _ => Option::None,
            },
            Option::None => Option::None,
        };
        proof {
            match gw {
                Option::Some(cv) => {
                    match cv {
                        ConstView::Code { code } => {
                            reveal(enc_unit);
                            assert(enc_const(cv) == seq![6u8] + enc_unit(code));
                            lemma_has_at_concat(b@, pos as int, seq![6u8], enc_unit(code));
                        },
                        _ => {
                            assert(false);
                        },
                    }
                },
                Option::None => {},
            }
        }
        let (unit, p2) = match dec_unit(b, p1, Ghost(gw_unit)) {
            Ok(v) => v,
            Err(e) => {
                return Err(e);
            },
        };
        return Ok((ConstantData::Code { code: Box::new(unit) }, p2));
    }
    if tag == 7 {
        let ghost gw_items: Option<Seq<ConstView>> = match gw {
            Option::Some(cv) => match cv {
                ConstView::Tuple { elements } => Option::Some(elements),
                _ => Option::None,
            },
            Option::None => Option::None,
        };
        proof {
            match gw {
                Option::Some(cv) => {
                    match cv {
                        ConstView::Tuple { elements } => {
                            assert(enc_const(cv) =~= seq![7u8] + (enc_u64(elements.len() as u64)
                                + enc_consts(elements)));
                            lemma_has_at_concat(
                                b@,
                                pos as int,
                                seq![7u8],
                                enc_u64(elements.len() as u64) + enc_consts(elements),
                            );
                            lemma_has_at_concat(
                                b@,
                                pos + 1,
                                enc_u64(elements.len() as u64),
                                enc_consts(elements),
                            );
                            lemma_at_u64(b@, pos + 1, elements.len() as u64);
                            lemma_enc_consts_ge(elements);
                        },
                        _ => {
                            assert(false);
                        },
                    }
                },
                Option::None => {},
            }
        }
        let (n64, p2) = match read_u64(b, p1) {
            Ok(v) => v,
            Err(e) => {
                return Err(e);
            },
        };
        if n64 > usize::MAX as u64 {
            return Err(DecodeError::Malformed);
        }
        let mut items: Vec<ConstantData> = Vec::new();
        proof {
            match gw {
                Option::Some(cv) => {
                    match cv {
                        ConstView::Tuple { elements } => {
                            assert(elements.len() <= blen);
                            assert(n64 as usize == elements.len());
                        },
                        _ => {},
                    }
                },
                Option::None => {},
            }
        }
        let end = match dec_consts_into(b, p2, n64 as usize, &mut items, Ghost(gw_items)) {
            Ok(v) => v,
            Err(e) => {
                return Err(e);
            },
        };
        proof {
            match gw {
                Option::Some(cv) => {
                    match cv {
                        ConstView::Tuple { elements } => {
                            assert(Seq::<ConstView>::empty() + elements =~= elements);
                        },
                        _ => {},
                    }
                },
                Option::None => {},
            }
        }
        return Ok((ConstantData::Tuple { elements: items }, end));
    }
    if tag == 8 {
        return Ok((ConstantData::NoneValue, p1));
    }
    if tag == 9 {
        return Ok((ConstantData::Ellipsis, p1));
    }
    proof {
        match gw {
            Option::Some(cv) => {
                assert(enc_const(cv)[0] <= 9);
            },
            Option::None => {},
        }
    }
    Err(DecodeError::Malformed)
}

/// Every element of an encoded constant sequence takes at least one byte.
proof fn lemma_enc_consts_ge(s: Seq<ConstView>)
    ensures
        enc_consts(s).len() >= s.len(),
    decreases s,
{
    if s.len() > 0 {
        assert(enc_const(s[0]).len() >= 1);
        lemma_enc_consts_ge(s.subrange(1, s.len() as int));
    }
}

/// Reads `n` constants.
fn dec_consts_into(
    b: &[u8],
    pos: usize,
    n: usize,
    out: &mut Vec<ConstantData>,
    Ghost(gw): Ghost<Option<Seq<ConstView>>>,
) -> (r: Result<usize, DecodeError>)
    requires
        gw matches Option::Some(s) ==> (s.len() == n && wf_consts(s) && has_at(
            b@,
            pos as int,
            enc_consts(s),
        )),
    ensures
        gw matches Option::Some(s) ==> (r matches Ok(end) && cviews_of(final(out)@) == cviews_of(
            old(out)@,
        ) + s && end == pos + enc_consts(s).len()),
        r matches Ok(end) ==> pos <= end <= b@.len(),
    decreases b@.len() - pos, 2int, n,
{
    if n == 0 {
        proof {
            match gw {
                Option::Some(s) => {
                    assert(s =~= Seq::<ConstView>::empty());
                    assert(cviews_of(old(out)@) + s =~= cviews_of(old(out)@));
                },
                Option::None => {},
            }
        }
        if pos > b.len() {
            return Err(DecodeError::Truncated);
        }
        return Ok(pos);
    }
    let ghost gw_head: Option<ConstView> = match gw {
        Option::Some(s) => Option::Some(s[0]),
        Option::None => Option::None,
    };
    let ghost gw_rest: Option<Seq<ConstView>> = match gw {
        Option::Some(s) => Option::Some(s.subrange(1, s.len() as int)),
        Option::None => Option::None,
    };
    proof {
        match gw {
            Option::Some(s) => {
                assert(enc_consts(s) == enc_const(s[0]) + enc_consts(
                    s.subrange(1, s.len() as int),
                ));
                lemma_has_at_concat(
                    b@,
                    pos as int,
                    enc_const(s[0]),
                    enc_consts(s.subrange(1, s.len() as int)),
                );
            },
            Option::None => {},
        }
    }
    let (c, p1) = match dec_const(b, pos, Ghost(gw_head)) {
        Ok(v) => v,
        Err(e) => {
            return Err(e);
        },
    };
    out.push(c);
    let end = match dec_consts_into(b, p1, n - 1, out, Ghost(gw_rest)) {
        Ok(v) => v,
        Err(e) => {
            return Err(e);
        },
    };
    proof {
        match gw {
            Option::Some(s) => {
                lemma_cviews_push(old(out)@, c);
                assert(cviews_of(old(out)@.push(c)) =~= cviews_of(old(out)@) + seq![s[0]]);
                assert(cviews_of(old(out)@) + seq![s[0]] + s.subrange(1, s.len() as int)
                    =~= cviews_of(old(out)@) + s);
            },
            Option::None => {},
        }
    }
    Ok(end)
}

/// The views of a pushed vector extend the views elementwise.
proof fn lemma_cviews_push(s: Seq<ConstantData>, c: ConstantData)
    ensures
        cviews_of(s.push(c)) =~= cviews_of(s) + seq![cdview(c)],
{
    crate::view::lemma_cviews_map(s.push(c));
    crate::view::lemma_cviews_map(s);
    assert(s.push(c).map(|k: int, x: ConstantData| x.cview()) =~= s.map(
        |k: int, x: ConstantData| x.cview(),
    ) + seq![cdview(c)]);
}

/// The fixed fields at the front of a unit, once decoded.
struct UnitFront {
    bits: u16,
    posonly: usize,
    argc: usize,
    kwonly: usize,
    spath: String,
    firstline: usize,
    oname: String,
    c2a: Option<Vec<isize>>,
    instructions: Vec<Instruction>,
}

/// Reads the front of a code unit: flags, counts, identity, cell map and
/// instructions.
#[verifier::rlimit(100)]
fn dec_unit_front(b: &[u8], pos: usize, Ghost(gw): Ghost<Option<CodeView>>) -> (r: Result<
    (UnitFront, usize),
    DecodeError,
>)
    requires
        gw matches Option::Some(uv) ==> (wf_unit(uv) && has_at(b@, pos as int, enc_unit(uv))),
    ensures
        gw matches Option::Some(uv) ==> (r matches Ok(v) && v.0.bits == uv.flags.bits
            && v.0.posonly == uv.posonlyarg_count && v.0.argc == uv.arg_count && v.0.kwonly
            == uv.kwonlyarg_count && v.0.spath@ == uv.source_path && v.0.firstline
            == uv.first_line_number && v.0.oname@ == uv.obj_name && crate::view::c2a_view(v.0.c2a)
            == uv.cell2arg && iviews_of(v.0.instructions@) == uv.instructions && v.1
            == unit_off_locs(pos as int, uv)),
        r matches Ok(v) ==> pos < v.1 <= b@.len(),
{
    let blen = b.len();
    proof {
        match gw {
            Option::Some(uv) => {
                lemma_unit_decomp(b@, pos as int, uv);
                assert(pos + 26 <= b@.len());
                lemma_at_u64(b@, pos as int + 2, uv.posonlyarg_count as u64);
                lemma_at_u64(b@, pos as int + 10, uv.arg_count as u64);
                lemma_at_u64(b@, pos as int + 18, uv.kwonlyarg_count as u64);
                lemma_at_u64(
                    b@,
                    pos as int + 26 + enc_str(uv.source_path).len(),
                    uv.first_line_number as u64,
                );
            },
            Option::None => {},
        }
    }
    let (bits, p1) = match read_u16(b, pos) {
        Ok(v) => v,
        Err(e) => {
            return Err(e);
        },
    };
    let (posonly, p2) = match read_usize(b, p1) {
        Ok(v) => v,
        Err(e) => {
            return Err(e);
        },
    };
    let (argc, p3) = match read_usize(b, p2) {
        Ok(v) => v,
        Err(e) => {
            return Err(e);
        },
    };
    let (kwonly, p4) = match read_usize(b, p3) {
        Ok(v) => v,
        Err(e) => {
            return Err(e);
        },
    };
    let ghost gw_spath: Option<Seq<char>> = match gw {
        Option::Some(uv) => Option::Some(uv.source_path),
        Option::None => Option::None,
    };
    let (spath, p5) = match dec_str(b, p4, Ghost(gw_spath)) {
        Ok(v) => v,
        Err(e) => {
            return Err(e);
        },
    };
    let (firstline, p6) = match read_usize(b, p5) {
        Ok(v) => v,
        Err(e) => {
            return Err(e);
        },
    };
    let ghost gw_oname: Option<Seq<char>> = match gw {
        Option::Some(uv) => Option::Some(uv.obj_name),
        Option::None => Option::None,
    };
    let (oname, p7) = match dec_str(b, p6, Ghost(gw_oname)) {
        Ok(v) => v,
        Err(e) => {
            return Err(e);
        },
    };
    let ghost gw_c2a: Option<Option<Seq<isize>>> = match gw {
        Option::Some(uv) => Option::Some(uv.cell2arg),
        Option::None => Option::None,
    };
    let (c2a, p8) = match dec_c2a(b, p7, Ghost(gw_c2a)) {
        Ok(v) => v,
        Err(e) => {
            return Err(e);
        },
    };
    let (n_instr, p9) = match read_u64(b, p8) {
        Ok(v) => v,
        Err(e) => {
            return Err(e);
        },
    };
    proof {
        match gw {
            Option::Some(uv) => {
                lemma_at_u64(
                    b@,
                    unit_off_c2a(pos as int, uv) + enc_c2a(uv.cell2arg).len(),
                    uv.instructions.len() as u64,
                );
                assert(n_instr == uv.instructions.len() as u64);
                assert(uv.instructions.len() <= blen);
            },
            Option::None => {},
        }
    }
    if n_instr > usize::MAX as u64 {
        return Err(DecodeError::Malformed);
    }
    let ghost gw_instrs: Option<Seq<InstrView>> = match gw {
        Option::Some(uv) => Option::Some(uv.instructions),
        Option::None => Option::None,
    };
    let mut instructions: Vec<Instruction> = Vec::new();
    proof {
        match gw {
            Option::Some(uv) => {
                assert(n_instr as usize == uv.instructions.len());
            },
            Option::None => {},
        }
    }
    let p10 = match dec_instrs_into(b, p9, n_instr as usize, &mut instructions, Ghost(gw_instrs)) {
        Ok(v) => v,
        Err(e) => {
            return Err(e);
        },
    };
    proof {
        match gw {
            Option::Some(uv) => {
                assert(iviews_of(Seq::<Instruction>::empty()) =~= Seq::<InstrView>::empty());
                assert(Seq::<InstrView>::empty() + uv.instructions =~= uv.instructions);
            },
            Option::None => {},
        }
    }
    Ok((
        UnitFront {
            bits,
            posonly,
            argc,
            kwonly,
            spath,
            firstline,
            oname,
            c2a,
            instructions,
        },
        p10,
    ))
}

/// Reads one code unit.
#[verifier::rlimit(100)]
fn dec_unit(b: &[u8], pos: usize, Ghost(gw): Ghost<Option<CodeView>>) -> (r: Result<
    (CodeObject<ConstantData, String>, usize),
    DecodeError,
>)
    requires
        gw matches Option::Some(uv) ==> (wf_unit(uv) && has_at(b@, pos as int, enc_unit(uv))),
    ensures
        gw matches Option::Some(uv) ==> (r matches Ok(v) && cuview(v.0) == uv && v.1 == pos
            + enc_unit(uv).len()),
        r matches Ok(v) ==> pos < v.1 <= b@.len(),
    decreases b@.len() - pos, 9int, 0int,
{
    let blen = b.len();
    proof {
        match gw {
            Option::Some(uv) => {
                lemma_unit_decomp(b@, pos as int, uv);
            },
            Option::None => {},
        }
    }
    let (front, p10) = match dec_unit_front(b, pos, Ghost(gw)) {
        Ok(v) => v,
        Err(e) => {
            return Err(e);
        },
    };
    let (n_loc, p11) = match read_u64(b, p10) {
        Ok(v) => v,
        Err(e) => {
            return Err(e);
        },
    };
    proof {
        match gw {
            Option::Some(uv) => {
                lemma_at_u64(b@, unit_off_locs(pos as int, uv), uv.locations.len() as u64);
                assert(n_loc == uv.locations.len() as u64);
                assert(uv.locations.len() <= blen);
            },
            Option::None => {},
        }
    }
    if n_loc > usize::MAX as u64 {
        return Err(DecodeError::Malformed);
    }
    let ghost gw_locs: Option<Seq<Location>> = match gw {
        Option::Some(uv) => Option::Some(uv.locations),
        Option::None => Option::None,
    };
    let mut locations: Vec<Location> = Vec::new();
    proof {
        match gw {
            Option::Some(uv) => {
                assert(n_loc as usize == uv.locations.len());
            },
            Option::None => {},
        }
    }
    let p12 = match dec_locs_into(b, p11, n_loc as usize, &mut locations, Ghost(gw_locs)) {
        Ok(v) => v,
        Err(e) => {
            return Err(e);
        },
    };
    let (n_const, p13) = match read_u64(b, p12) {
        Ok(v) => v,
        Err(e) => {
            return Err(e);
        },
    };
    proof {
        match gw {
            Option::Some(uv) => {
                lemma_at_u64(b@, unit_off_consts(pos as int, uv), uv.constants.len() as u64);
                assert(n_const == uv.constants.len() as u64);
                assert(uv.constants.len() <= blen);
            },
            Option::None => {},
        }
    }
    if n_const > usize::MAX as u64 {
        return Err(DecodeError::Malformed);
    }
    let ghost gw_consts: Option<Seq<ConstView>> = match gw {
        Option::Some(uv) => Option::Some(uv.constants),
        Option::None => Option::None,
    };
    let mut constants: Vec<ConstantData> = Vec::new();
    proof {
        match gw {
            Option::Some(uv) => {
                assert(n_const as usize == uv.constants.len());
            },
            Option::None => {},
        }
    }
    let p14 = match dec_consts_into(b, p13, n_const as usize, &mut constants, Ghost(gw_consts)) {
        Ok(v) => v,
        Err(e) => {
            return Err(e);
        },
    };
    let (names, p16) = match dec_table(b, p14, blen, Ghost(table_witness(gw, 0))) {
        Ok(v) => v,
        Err(e) => {
            return Err(e);
        },
    };
    let (varnames, p18) = match dec_table(b, p16, blen, Ghost(table_witness(gw, 1))) {
        Ok(v) => v,
        Err(e) => {
            return Err(e);
        },
    };
    let (cellvars, p20) = match dec_table(b, p18, blen, Ghost(table_witness(gw, 2))) {
        Ok(v) => v,
        Err(e) => {
            return Err(e);
        },
    };
    let (freevars, p22) = match dec_table(b, p20, blen, Ghost(table_witness(gw, 3))) {
        Ok(v) => v,
        Err(e) => {
            return Err(e);
        },
    };
    let unit = CodeObject {
        instructions: front.instructions,
        locations,
        flags: CodeFlags { bits: front.bits },
        posonlyarg_count: front.posonly,
        arg_count: front.argc,
        kwonlyarg_count: front.kwonly,
        source_path: front.spath,
        first_line_number: front.firstline,
        obj_name: front.oname,
        cell2arg: front.c2a,
        constants,
        names,
        varnames,
        cellvars,
        freevars,
    };
    proof {
        match gw {
            Option::Some(uv) => {
                assert(Seq::<Location>::empty() + uv.locations =~= uv.locations);
                assert(cviews_of(Seq::<ConstantData>::empty()) =~= Seq::<ConstView>::empty());
                assert(Seq::<ConstView>::empty() + uv.constants =~= uv.constants);
                assert(cuview(unit) =~= uv);
            },
            Option::None => {},
        }
    }
    Ok((unit, p22))
}

/// The witness for the `k`-th name table of a unit view.
pub open spec fn table_witness(gw: Option<CodeView>, k: int) -> Option<Seq<Seq<char>>> {
    match gw {
        Option::Some(uv) => Option::Some(
            if k == 0 {
                uv.names
            } else if k == 1 {
                uv.varnames
            } else if k == 2 {
                uv.cellvars
            } else {
                uv.freevars
            },
        ),
        Option::None => Option::None,
    }
}

/// Reads one name table: a count, then that many strings.
fn dec_table(b: &[u8], pos: usize, blen: usize, Ghost(gw): Ghost<Option<Seq<Seq<char>>>>) -> (r:
    Result<(Vec<String>, usize), DecodeError>)
    requires
        blen == b@.len(),
        gw matches Option::Some(s) ==> has_at(
            b@,
            pos as int,
            enc_u64(s.len() as u64) + enc_strs(s),
        ),
    ensures
        gw matches Option::Some(s) ==> (r matches Ok(v) && nviews_of(v.0@) == s && v.1 == pos + 8
            + enc_strs(s).len()),
        r matches Ok(v) ==> pos <= v.1 <= b@.len(),
{
    proof {
        match gw {
            Option::Some(s) => {
                lemma_has_at_concat(b@, pos as int, enc_u64(s.len() as u64), enc_strs(s));
                lemma_at_u64(b@, pos as int, s.len() as u64);
                lemma_enc_strs_ge(s);
            },
            Option::None => {},
        }
    }
    let (n64, p1) = match read_u64(b, pos) {
        Ok(v) => v,
        Err(e) => {
            return Err(e);
        },
    };
    if n64 > usize::MAX as u64 {
        return Err(DecodeError::Malformed);
    }
    let mut names: Vec<String> = Vec::new();
    proof {
        match gw {
            Option::Some(s) => {
                assert(s.len() <= blen);
                assert(n64 as usize == s.len());
            },
            Option::None => {},
        }
    }
    let end = match dec_strs_into(b, p1, n64 as usize, &mut names, Ghost(gw)) {
        Ok(v) => v,
        Err(e) => {
            return Err(e);
        },
    };
    proof {
        match gw {
            Option::Some(s) => {
                assert(nviews_of(Seq::<String>::empty()) =~= Seq::<Seq<char>>::empty());
                assert(Seq::<Seq<char>>::empty() + s =~= s);
            },
            Option::None => {},
        }
    }
    Ok((names, end))
}

/// Every encoded string takes at least eight bytes.
proof fn lemma_enc_strs_ge(s: Seq<Seq<char>>)
    ensures
        enc_strs(s).len() >= s.len(),
    decreases s,
{
    if s.len() > 0 {
        assert(enc_str(s[0]).len() >= 8);
        lemma_enc_strs_ge(s.subrange(1, s.len() as int));
    }
}

/// Decomposes a buffer that holds an encoded code unit: the position and
/// content of every section.
#[verifier::rlimit(100)]
proof fn lemma_unit_decomp(b: Seq<u8>, pos: int, uv: CodeView)
    requires
        has_at(b, pos, enc_unit(uv)),
    ensures
        le16_of(b[pos], b[pos + 1]) == uv.flags.bits,
        has_at(b, pos + 2, enc_usize(uv.posonlyarg_count)),
        has_at(b, pos + 10, enc_usize(uv.arg_count)),
        has_at(b, pos + 18, enc_usize(uv.kwonlyarg_count)),
        has_at(b, pos + 26, enc_str(uv.source_path)),
        has_at(b, pos + 26 + enc_str(uv.source_path).len(), enc_usize(uv.first_line_number)),
        has_at(b, pos + 34 + enc_str(uv.source_path).len(), enc_str(uv.obj_name)),
        has_at(b, unit_off_c2a(pos, uv), enc_c2a(uv.cell2arg)),
        has_at(
            b,
            unit_off_c2a(pos, uv) + enc_c2a(uv.cell2arg).len(),
            enc_u64(uv.instructions.len() as u64),
        ),
        has_at(b, unit_off_c2a(pos, uv) + enc_c2a(uv.cell2arg).len() + 8, enc_instrs(uv.instructions)),
        has_at(b, unit_off_locs(pos, uv), enc_u64(uv.locations.len() as u64)),
        has_at(b, unit_off_locs(pos, uv) + 8, enc_locs(uv.locations)),
        has_at(b, unit_off_consts(pos, uv), enc_u64(uv.constants.len() as u64)),
        has_at(b, unit_off_consts(pos, uv) + 8, enc_consts(uv.constants)),
        has_at(b, unit_off_names(pos, uv), enc_u64(uv.names.len() as u64) + enc_strs(uv.names)),
        has_at(
            b,
            unit_off_names(pos, uv) + 8 + enc_strs(uv.names).len(),
            enc_u64(uv.varnames.len() as u64) + enc_strs(uv.varnames),
        ),
        has_at(
            b,
            unit_off_names(pos, uv) + 16 + enc_strs(uv.names).len() + enc_strs(uv.varnames).len(),
            enc_u64(uv.cellvars.len() as u64) + enc_strs(uv.cellvars),
        ),
        has_at(
            b,
            unit_off_names(pos, uv) + 24 + enc_strs(uv.names).len() + enc_strs(uv.varnames).len()
                + enc_strs(uv.cellvars).len(),
            enc_u64(uv.freevars.len() as u64) + enc_strs(uv.freevars),
        ),
        enc_unit(uv).len() == unit_off_names(pos, uv) - pos + 32 + enc_strs(uv.names).len()
            + enc_strs(uv.varnames).len() + enc_strs(uv.cellvars).len() + enc_strs(
            uv.freevars,
        ).len(),
        uv.instructions.len() <= enc_unit(uv).len(),
        uv.locations.len() <= enc_unit(uv).len(),
        uv.constants.len() <= enc_unit(uv).len(),
{
    let a1 = enc_u16(uv.flags.bits);
    let a2 = enc_usize(uv.posonlyarg_count);
    let a3 = enc_usize(uv.arg_count);
    let a4 = enc_usize(uv.kwonlyarg_count);
    let a5 = enc_str(uv.source_path);
    let a6 = enc_usize(uv.first_line_number);
    let a7 = enc_str(uv.obj_name);
    let a8 = enc_c2a(uv.cell2arg);
    let a9 = enc_u64(uv.instructions.len() as u64);
    let a10 = enc_instrs(uv.instructions);
    let a11 = enc_u64(uv.locations.len() as u64);
    let a12 = enc_locs(uv.locations);
    let a13 = enc_u64(uv.constants.len() as u64);
    let a14 = enc_consts(uv.constants);
    let a15 = enc_u64(uv.names.len() as u64);
    let a16 = enc_strs(uv.names);
    let a17 = enc_u64(uv.varnames.len() as u64);
    let a18 = enc_strs(uv.varnames);
    let a19 = enc_u64(uv.cellvars.len() as u64);
    let a20 = enc_strs(uv.cellvars);
    let a21 = enc_u64(uv.freevars.len() as u64);
    let a22 = enc_strs(uv.freevars);
    let p0 = a1 + a2 + a3 + a4 + a5 + a6 + a7 + a8 + a9 + a10 + a11 + a12 + a13 + a14 + a15 + a16
        + a17 + a18 + a19 + a20 + a21;
    reveal(enc_unit);
    assert(enc_unit(uv) == p0 + a22);
    lemma_has_at_concat(b, pos, p0, a22);
    let p1 = a1 + a2 + a3 + a4 + a5 + a6 + a7 + a8 + a9 + a10 + a11 + a12 + a13 + a14 + a15 + a16
        + a17 + a18 + a19 + a20;
    lemma_has_at_concat(b, pos, p1, a21);
    let p2 = p1.subrange(0, p1.len() - a20.len() as int);
    assert(p1 =~= a1 + a2 + a3 + a4 + a5 + a6 + a7 + a8 + a9 + a10 + a11 + a12 + a13 + a14 + a15
        + a16 + a17 + a18 + a19 + a20);
    lemma_has_at_concat(
        b,
        pos,
        a1 + a2 + a3 + a4 + a5 + a6 + a7 + a8 + a9 + a10 + a11 + a12 + a13 + a14 + a15 + a16 + a17
            + a18 + a19,
        a20,
    );
    lemma_has_at_concat(
        b,
        pos,
        a1 + a2 + a3 + a4 + a5 + a6 + a7 + a8 + a9 + a10 + a11 + a12 + a13 + a14 + a15 + a16 + a17
            + a18,
        a19,
    );
    lemma_has_at_concat(
        b,
        pos,
        a1 + a2 + a3 + a4 + a5 + a6 + a7 + a8 + a9 + a10 + a11 + a12 + a13 + a14 + a15 + a16 + a17,
        a18,
    );
    lemma_has_at_concat(
        b,
        pos,
        a1 + a2 + a3 + a4 + a5 + a6 + a7 + a8 + a9 + a10 + a11 + a12 + a13 + a14 + a15 + a16,
        a17,
    );
    lemma_has_at_concat(
        b,
        pos,
        a1 + a2 + a3 + a4 + a5 + a6 + a7 + a8 + a9 + a10 + a11 + a12 + a13 + a14 + a15,
        a16,
    );
    lemma_has_at_concat(
        b,
        pos,
        a1 + a2 + a3 + a4 + a5 + a6 + a7 + a8 + a9 + a10 + a11 + a12 + a13 + a14,
        a15,
    );
    lemma_has_at_concat(
        b,
        pos,
        a1 + a2 + a3 + a4 + a5 + a6 + a7 + a8 + a9 + a10 + a11 + a12 + a13,
        a14,
    );
    lemma_has_at_concat(b, pos, a1 + a2 + a3 + a4 + a5 + a6 + a7 + a8 + a9 + a10 + a11 + a12, a13);
    lemma_has_at_concat(b, pos, a1 + a2 + a3 + a4 + a5 + a6 + a7 + a8 + a9 + a10 + a11, a12);
    lemma_has_at_concat(b, pos, a1 + a2 + a3 + a4 + a5 + a6 + a7 + a8 + a9 + a10, a11);
    lemma_has_at_concat(b, pos, a1 + a2 + a3 + a4 + a5 + a6 + a7 + a8 + a9, a10);
    lemma_has_at_concat(b, pos, a1 + a2 + a3 + a4 + a5 + a6 + a7 + a8, a9);
    lemma_has_at_concat(b, pos, a1 + a2 + a3 + a4 + a5 + a6 + a7, a8);
    lemma_has_at_concat(b, pos, a1 + a2 + a3 + a4 + a5 + a6, a7);
    lemma_has_at_concat(b, pos, a1 + a2 + a3 + a4 + a5, a6);
    lemma_has_at_concat(b, pos, a1 + a2 + a3 + a4, a5);
    lemma_has_at_concat(b, pos, a1 + a2 + a3, a4);
    lemma_has_at_concat(b, pos, a1 + a2, a3);
    lemma_has_at_concat(b, pos, a1, a2);
    lemma_at_u16(b, pos, uv.flags.bits);
    lemma_enc_instrs_ge(uv.instructions);
    lemma_enc_locs_len(uv.locations);
    lemma_enc_consts_ge(uv.constants);
    assert(has_at(b, unit_off_names(pos, uv), a15 + a16)) by {
        lemma_has_at_join(b, unit_off_names(pos, uv), a15, a16);
    }
    lemma_has_at_join(b, unit_off_names(pos, uv) + 8 + a16.len(), a17, a18);
    lemma_has_at_join(b, unit_off_names(pos, uv) + 16 + a16.len() + a18.len(), a19, a20);
    lemma_has_at_join(b, unit_off_names(pos, uv) + 24 + a16.len() + a18.len() + a20.len(), a21, a22);
}

/// Offset of the cell-to-argument section.
pub open spec fn unit_off_c2a(pos: int, uv: CodeView) -> int {
    pos + 34 + enc_str(uv.source_path).len() + enc_str(uv.obj_name).len()
}

/// Offset of the location section's count.
pub open spec fn unit_off_locs(pos: int, uv: CodeView) -> int {
    unit_off_c2a(pos, uv) + enc_c2a(uv.cell2arg).len() + 8 + enc_instrs(uv.instructions).len()
}

/// Offset of the constant section's count.
pub open spec fn unit_off_consts(pos: int, uv: CodeView) -> int {
    unit_off_locs(pos, uv) + 8 + enc_locs(uv.locations).len()
}

/// Offset of the first name table's count.
pub open spec fn unit_off_names(pos: int, uv: CodeView) -> int {
    unit_off_consts(pos, uv) + 8 + enc_consts(uv.constants).len()
}

/// Adjacent byte runs join into one.
proof fn lemma_has_at_join(b: Seq<u8>, pos: int, s1: Seq<u8>, s2: Seq<u8>)
    requires
        has_at(b, pos, s1),
        has_at(b, pos + s1.len(), s2),
    ensures
        has_at(b, pos, s1 + s2),
{
    assert forall|i: int| 0 <= i < (s1 + s2).len() implies b[pos + i] == #[trigger] (s1 + s2)[i] by {
        if i < s1.len() {
            assert((s1 + s2)[i] == s1[i]);
        } else {
            assert((s1 + s2)[i] == s2[i - s1.len()]);
            assert(b[pos + s1.len() + (i - s1.len())] == s2[i - s1.len()]);
        }
    }
}

/// Every encoded instruction takes at least one byte.
proof fn lemma_enc_instrs_ge(s: Seq<InstrView>)
    ensures
        enc_instrs(s).len() >= s.len(),
    decreases s,
{
    if s.len() > 0 {
        assert(enc_instr(s[0]).len() >= 1);
        lemma_enc_instrs_ge(s.subrange(1, s.len() as int));
    }
}

/// The length of an encoded location sequence.
proof fn lemma_enc_locs_len(s: Seq<Location>)
    ensures
        enc_locs(s).len() == 16 * s.len(),
    decreases s,
{
    if s.len() > 0 {
        lemma_enc_locs_len(s.subrange(1, s.len() as int));
    }
}

// ---------------------------------------------------------------------
// the public codec: structural payload wrapped in a compression frame
// ---------------------------------------------------------------------

/// The compression frame produced for a payload: a magic header, block
/// size metadata, compressed blocks, a content checksum and an end marker.
/// The framing is a pure function of the payload bytes.
pub uninterp spec fn lz4_frame_of(payload: Seq<u8>) -> Seq<u8>;

/// Does the buffer `data` decompress to exactly the bytes `payload`?
pub uninterp spec fn inflates_to(data: Seq<u8>, payload: Seq<u8>) -> bool;

#[verifier::external_type_specification]
#[verifier::external_body]
pub struct ExDecompressionError(lz_fear::framed::DecompressionError);

/// Relies on lz_fear's `CompressionSettings::compress_with_size_unchecked`
/// with default settings: deterministic framing of the payload, beginning
/// with the format's magic number 0x184D2204, little endian.  Reading from
/// a byte slice and writing to a vector cannot fail.
#[verifier::external_body]
fn lz4_compress(data: &Vec<u8>) -> (r: Vec<u8>)
    ensures
        r@ == lz4_frame_of(data@),
        inflates_to(r@, data@),
        r@.len() >= 4,
        r@[0] == 0x04u8 && r@[1] == 0x22u8 && r@[2] == 0x4du8 && r@[3] == 0x18u8,
{
    let mut out: Vec<u8> = Vec::new();
    lz_fear::framed::CompressionSettings::default()
        .compress_with_size_unchecked(data.as_slice(), &mut out, data.len() as u64)
        .unwrap();
    out
}

/// Did decompression return exactly the payload `x`?
pub open spec fn decompressed_to(
    r: Result<Vec<u8>, lz_fear::framed::DecompressionError>,
    x: Seq<u8>,
) -> bool {
    r matches Ok(v) && v@ == x
}

/// Relies on lz_fear's `decompress_frame`: decompressing a frame yields
/// exactly the bytes the frame was made from.
#[verifier::external_body]
fn lz4_decompress(data: &[u8]) -> (r: Result<Vec<u8>, lz_fear::framed::DecompressionError>)
    ensures
        forall|x: Seq<u8>|
            data@ == #[trigger] lz4_frame_of(x) ==> decompressed_to(r, x),
        r matches Ok(v) ==> inflates_to(data@, v@),
{
    lz_fear::framed::decompress_frame(data)
}

/// Are two byte strings equal?
fn bytes_eq(a: &[u8], b: &[u8]) -> (r: bool)
    ensures
        r == (a@ == b@),
{
    if a.len() != b.len() {
        proof {
            assert(a@.len() != b@.len());
        }
        return false;
    }
    let mut k: usize = 0;
    while k < a.len()
        invariant
            k <= a@.len(),
            a@.len() == b@.len(),
            forall|j: int| 0 <= j < k ==> a@[j] == b@[j],
        decreases a@.len() - k,
    {
        if a[k] != b[k] {
            return false;
        }
        k = k + 1;
    }
    proof {
        assert(a@ =~= b@);
    }
    true
}

impl CodeObject<ConstantData, String> {
    /// Serialize this code unit, and everything it owns, to bytes: the
    /// self-describing structural encoding wrapped in a checksummed
    /// compression frame.
    pub fn to_bytes(&self) -> (r: Vec<u8>)
        ensures
            r@ == lz4_frame_of(enc_unit(cuview(*self))),
    {
        let mut payload: Vec<u8> = Vec::new();
        emit_unit(&mut payload, self);
        proof {
            assert(payload@ =~= enc_unit(cuview(*self)));
        }
        lz4_compress(&payload)
    }

    /// Load a code unit from bytes.  On any buffer produced by
    /// `to_bytes`, the result is the encoded unit itself: decoding
    /// inverts encoding.  Success is sound: a unit is returned only when
    /// the input decompresses to exactly that unit's canonical encoding;
    /// any other buffer - wrong magic, corrupt frame, truncated or
    /// malformed payload, trailing bytes - yields a typed error, never a
    /// partial unit.
    pub fn from_bytes(data: &[u8]) -> (r: Result<
        CodeObject<ConstantData, String>,
        DecodeError,
    >)
        ensures
            forall|u0: CodeObject<ConstantData, String>|
                data@ == #[trigger] lz4_frame_of(enc_unit(cuview(u0))) ==> (r matches Ok(u)
                    && cuview(u) == cuview(u0)),
            r matches Ok(u) ==> inflates_to(data@, enc_unit(cuview(u))),
    {
        let payload = match lz4_decompress(data) {
            Ok(p) => p,
            Err(_) => {
                let bad_magic = data.len() < 4 || data[0] != 0x04u8 || data[1] != 0x22u8 || data[2]
                    != 0x4du8 || data[3] != 0x18u8;
                return Err(
                    if bad_magic {
                        DecodeError::WrongMagic
                    } else {
                        DecodeError::Frame
                    },
                );
            },
        };
        let ghost gw: Option<CodeView> = if exists|u0: CodeObject<ConstantData, String>|
            payload@ == enc_unit(#[trigger] cuview(u0)) {
            Option::Some(
                cuview(
                    choose|u0: CodeObject<ConstantData, String>|
                        payload@ == enc_unit(#[trigger] cuview(u0)),
                ),
            )
        } else {
            Option::None
        };
        proof {
            match gw {
                Option::Some(uv) => {
                    let u0 = choose|u0: CodeObject<ConstantData, String>|
                        payload@ == enc_unit(#[trigger] cuview(u0));
                    lemma_wf_cuview(u0);
                    assert(has_at(payload@, 0, enc_unit(uv)));
                },
                Option::None => {},
            }
        }
        let (unit, end) = match dec_unit(payload.as_slice(), 0, Ghost(gw)) {
            Ok(v) => v,
            Err(e) => {
                return Err(e);
            },
        };
        if end != payload.len() {
            return Err(DecodeError::TrailingData);
        }
        let mut reencoded: Vec<u8> = Vec::new();
        emit_unit(&mut reencoded, &unit);
        if !bytes_eq(reencoded.as_slice(), payload.as_slice()) {
            proof {
                match gw {
                    Option::Some(uv) => {
                        assert(reencoded@ =~= payload@);
                    },
                    Option::None => {},
                }
            }
            return Err(DecodeError::Malformed);
        }
        proof {
            assert forall|u0: CodeObject<ConstantData, String>|
                data@ == #[trigger] lz4_frame_of(enc_unit(cuview(u0))) implies cuview(unit)
                == cuview(u0) by {
                assert(payload@ == enc_unit(cuview(u0)));
                assert(gw matches Option::Some(uv) && enc_unit(uv) == payload@ && cuview(unit)
                    == uv);
                let uw = choose|uw: CodeObject<ConstantData, String>|
                    payload@ == enc_unit(#[trigger] cuview(uw));
                lemma_wf_cuview(uw);
                lemma_wf_cuview(u0);
                lemma_has_at_self(payload@);
                assert(has_at(payload@, 0, enc_unit(cuview(uw))));
                assert(has_at(payload@, 0, enc_unit(cuview(u0))));
                assert(payload@.len() <= usize::MAX);
                lemma_unit_at_inj(payload@, 0, cuview(uw), cuview(u0));
            }
        }
        Ok(unit)
    }
}

// ---------------------------------------------------------------------
// injectivity of the encoding: two well-formed views whose encodings sit
// at the same position of one buffer are the same view
// ---------------------------------------------------------------------

/// Machine words with equal widenings are equal.
proof fn lemma_usize_inj(x1: usize, x2: usize)
    requires
        x1 as u64 == x2 as u64,
    ensures
        x1 == x2,
{
}

/// Signed words with equal widenings are equal.
proof fn lemma_isize_inj(x1: isize, x2: isize)
    requires
        x1 as u64 == x2 as u64,
    ensures
        x1 == x2,
{
    let y1 = x1 as i64;
    let y2 = x2 as i64;
    assert(y1 as u64 == y2 as u64 ==> y1 == y2) by (bit_vector);
    assert(x1 as i64 == x2 as i64);
}

/// Sequence lengths with equal 64-bit clips below the clip are equal.
proof fn lemma_len_faithful(n1: nat, n2: nat)
    requires
        n1 as u64 == n2 as u64,
        n1 < 0x10000000000000000,
        n2 < 0x10000000000000000,
    ensures
        n1 == n2,
{
}

proof fn lemma_chars_at_inj(b: Seq<u8>, pos: int, s1: Seq<char>, s2: Seq<char>)
    requires
        s1.len() == s2.len(),
        has_at(b, pos, enc_chars(s1)),
        has_at(b, pos, enc_chars(s2)),
    ensures
        s1 == s2,
    decreases s1.len(),
{
    if s1.len() == 0 {
        assert(s1 =~= s2);
    } else {
        lemma_has_at_concat(
            b,
            pos,
            enc_u32(scalar_of(s1[0])),
            enc_chars(s1.subrange(1, s1.len() as int)),
        );
        lemma_has_at_concat(
            b,
            pos,
            enc_u32(scalar_of(s2[0])),
            enc_chars(s2.subrange(1, s2.len() as int)),
        );
        lemma_at_u32(b, pos, scalar_of(s1[0]));
        lemma_at_u32(b, pos, scalar_of(s2[0]));
        lemma_scalar_inj(s1[0], s2[0]);
        lemma_chars_at_inj(
            b,
            pos + 4,
            s1.subrange(1, s1.len() as int),
            s2.subrange(1, s2.len() as int),
        );
        assert forall|i: int| 0 <= i < s1.len() implies s1[i] == s2[i] by {
            if i > 0 {
                assert(s1[i] == s1.subrange(1, s1.len() as int)[i - 1]);
                assert(s2[i] == s2.subrange(1, s2.len() as int)[i - 1]);
            }
        }
        assert(s1 =~= s2);
    }
}

proof fn lemma_str_at_inj(b: Seq<u8>, pos: int, s1: Seq<char>, s2: Seq<char>)
    requires
        b.len() <= usize::MAX,
        has_at(b, pos, enc_str(s1)),
        has_at(b, pos, enc_str(s2)),
    ensures
        s1 == s2,
{
    lemma_has_at_concat(b, pos, enc_u64(s1.len() as u64), enc_chars(s1));
    lemma_has_at_concat(b, pos, enc_u64(s2.len() as u64), enc_chars(s2));
    lemma_at_u64(b, pos, s1.len() as u64);
    lemma_at_u64(b, pos, s2.len() as u64);
    lemma_enc_chars_len(s1);
    lemma_enc_chars_len(s2);
    lemma_len_faithful(s1.len(), s2.len());
    lemma_chars_at_inj(b, pos + 8, s1, s2);
}

proof fn lemma_raw_at_inj(b: Seq<u8>, pos: int, s1: Seq<u8>, s2: Seq<u8>)
    requires
        s1.len() == s2.len(),
        has_at(b, pos, s1),
        has_at(b, pos, s2),
    ensures
        s1 == s2,
{
    assert forall|i: int| 0 <= i < s1.len() implies #[trigger] s1[i] == s2[i] by {
        assert(b[pos + i] == s1[i]);
        assert(b[pos + i] == s2[i]);
    }
    assert(s1 =~= s2);
}

proof fn lemma_isizes_at_inj(b: Seq<u8>, pos: int, s1: Seq<isize>, s2: Seq<isize>)
    requires
        s1.len() == s2.len(),
        has_at(b, pos, enc_isizes(s1)),
        has_at(b, pos, enc_isizes(s2)),
    ensures
        s1 == s2,
    decreases s1.len(),
{
    if s1.len() == 0 {
        assert(s1 =~= s2);
    } else {
        lemma_has_at_concat(
            b,
            pos,
            enc_u64(s1[0] as u64),
            enc_isizes(s1.subrange(1, s1.len() as int)),
        );
        lemma_has_at_concat(
            b,
            pos,
            enc_u64(s2[0] as u64),
            enc_isizes(s2.subrange(1, s2.len() as int)),
        );
        lemma_at_u64(b, pos, s1[0] as u64);
        lemma_at_u64(b, pos, s2[0] as u64);
        lemma_isize_inj(s1[0], s2[0]);
        lemma_isizes_at_inj(
            b,
            pos + 8,
            s1.subrange(1, s1.len() as int),
            s2.subrange(1, s2.len() as int),
        );
        assert forall|i: int| 0 <= i < s1.len() implies s1[i] == s2[i] by {
            if i > 0 {
                assert(s1[i] == s1.subrange(1, s1.len() as int)[i - 1]);
                assert(s2[i] == s2.subrange(1, s2.len() as int)[i - 1]);
            }
        }
        assert(s1 =~= s2);
    }
}

proof fn lemma_c2a_at_inj(b: Seq<u8>, pos: int, o1: Option<Seq<isize>>, o2: Option<Seq<isize>>)
    requires
        b.len() <= usize::MAX,
        has_at(b, pos, enc_c2a(o1)),
        has_at(b, pos, enc_c2a(o2)),
    ensures
        o1 == o2,
{
    assert(b[pos] == enc_c2a(o1)[0]);
    assert(b[pos] == enc_c2a(o2)[0]);
    match (o1, o2) {
        (Option::Some(s1), Option::Some(s2)) => {
            assert(enc_c2a(o1) =~= seq![1u8] + (enc_u64(s1.len() as u64) + enc_isizes(s1)));
            assert(enc_c2a(o2) =~= seq![1u8] + (enc_u64(s2.len() as u64) + enc_isizes(s2)));
            lemma_has_at_concat(b, pos, seq![1u8], enc_u64(s1.len() as u64) + enc_isizes(s1));
            lemma_has_at_concat(b, pos + 1, enc_u64(s1.len() as u64), enc_isizes(s1));
            lemma_has_at_concat(b, pos, seq![1u8], enc_u64(s2.len() as u64) + enc_isizes(s2));
            lemma_has_at_concat(b, pos + 1, enc_u64(s2.len() as u64), enc_isizes(s2));
            lemma_at_u64(b, pos + 1, s1.len() as u64);
            lemma_at_u64(b, pos + 1, s2.len() as u64);
            lemma_enc_isizes_len(s1);
            lemma_enc_isizes_len(s2);
            lemma_len_faithful(s1.len(), s2.len());
            lemma_isizes_at_inj(b, pos + 9, s1, s2);
        },
        (Option::None, Option::None) => {},
        _ => {
            assert(false);
        },
    }
}

proof fn lemma_words_at_inj(b: Seq<u8>, pos: int, s1: Seq<u64>, s2: Seq<u64>)
    requires
        s1.len() == s2.len(),
        has_at(b, pos, enc_words(s1)),
        has_at(b, pos, enc_words(s2)),
    ensures
        s1 == s2,
    decreases s1.len(),
{
    if s1.len() == 0 {
        assert(s1 =~= s2);
    } else {
        lemma_has_at_concat(b, pos, enc_u64(s1[0]), enc_words(s1.subrange(1, s1.len() as int)));
        lemma_has_at_concat(b, pos, enc_u64(s2[0]), enc_words(s2.subrange(1, s2.len() as int)));
        lemma_at_u64(b, pos, s1[0]);
        lemma_at_u64(b, pos, s2[0]);
        lemma_words_at_inj(
            b,
            pos + 8,
            s1.subrange(1, s1.len() as int),
            s2.subrange(1, s2.len() as int),
        );
        assert forall|i: int| 0 <= i < s1.len() implies s1[i] == s2[i] by {
            if i > 0 {
                assert(s1[i] == s1.subrange(1, s1.len() as int)[i - 1]);
                assert(s2[i] == s2.subrange(1, s2.len() as int)[i - 1]);
            }
        }
        assert(s1 =~= s2);
    }
}

/// Well-formed instruction views with the same tag and operand words are
/// the same view.
#[verifier::rlimit(100)]
proof fn lemma_iparts_inj(iv1: InstrView, iv2: InstrView)
    requires
        wf_iv(iv1),
        wf_iv(iv2),
        iparts(iv1).0 == iparts(iv2).0,
        iparts(iv1).1 == iparts(iv2).1,
    ensures
        iv1 == iv2,
{
    let ws = iparts(iv1).1;
    match iv1 {
        InstrView::ImportView { name_idx: n1, symbols_idx: s1, level: l1 } => {
            lemma_import_words(iv1);
            lemma_import_words(iv2);
            match iv2 {
                InstrView::ImportView { name_idx: n2, symbols_idx: s2, level: l2 } => {
                    match n1 {
                        Option::Some(i1) => {
                            assert(ws[0] == 1u64);
                            match n2 {
                                Option::Some(i2) => {
                                    assert(ws[1] == i1 as u64 && ws[1] == i2 as u64);
                                    lemma_usize_inj(i1, i2);
                                },
                                Option::None => {
                                    assert(ws[0] == 0u64);
                                },
                            }
                        },
                        Option::None => {
                            assert(ws[0] == 0u64);
                            match n2 {
                                Option::Some(i2) => {
                                    assert(ws[0] == 1u64);
                                },
                                Option::None => {},
                            }
                        },
                    }
                    assert(ws[2] == l1 as u64 && ws[2] == l2 as u64);
                    lemma_usize_inj(l1, l2);
                    assert(ws.len() == 3 + s1.len() && ws.len() == 3 + s2.len());
                    assert forall|j: int| 0 <= j < s1.len() implies #[trigger] s1[j] == s2[j] by {
                        assert(ws[j + 3] == s1[j] as u64);
                        assert(ws[j + 3] == s2[j] as u64);
                        lemma_usize_inj(s1[j], s2[j]);
                    }
                    assert(s1 =~= s2);
                    assert(iv1 =~= iv2);
                },
                InstrView::Plain(_) => {
                    assert(false);
                },
            }
        },
        InstrView::Plain(Instruction::ImportStar) => {
            assert(iv1 == iv2);
        },
        InstrView::Plain(Instruction::Subscript) => {
            assert(iv1 == iv2);
        },
        InstrView::Plain(Instruction::StoreSubscript) => {
            assert(iv1 == iv2);
        },
        InstrView::Plain(Instruction::DeleteSubscript) => {
            assert(iv1 == iv2);
        },
        InstrView::Plain(Instruction::Pop) => {
            assert(iv1 == iv2);
        },
        InstrView::Plain(Instruction::Duplicate) => {
            assert(iv1 == iv2);
        },
        InstrView::Plain(Instruction::GetIter) => {
            assert(iv1 == iv2);
        },
        InstrView::Plain(Instruction::Continue) => {
            assert(iv1 == iv2);
        },
        InstrView::Plain(Instruction::Break) => {
            assert(iv1 == iv2);
        },
        InstrView::Plain(Instruction::MakeFunction) => {
            assert(iv1 == iv2);
        },
        InstrView::Plain(Instruction::ReturnValue) => {
            assert(iv1 == iv2);
        },
        InstrView::Plain(Instruction::YieldValue) => {
            assert(iv1 == iv2);
        },
        InstrView::Plain(Instruction::YieldFrom) => {
            assert(iv1 == iv2);
        },
        InstrView::Plain(Instruction::SetupAnnotation) => {
            assert(iv1 == iv2);
        },
        InstrView::Plain(Instruction::EnterFinally) => {
            assert(iv1 == iv2);
        },
        InstrView::Plain(Instruction::EndFinally) => {
            assert(iv1 == iv2);
        },
        InstrView::Plain(Instruction::WithCleanupStart) => {
            assert(iv1 == iv2);
        },
        InstrView::Plain(Instruction::WithCleanupFinish) => {
            assert(iv1 == iv2);
        },
        InstrView::Plain(Instruction::PopBlock) => {
            assert(iv1 == iv2);
        },
        InstrView::Plain(Instruction::PrintExpr) => {
            assert(iv1 == iv2);
        },
        InstrView::Plain(Instruction::LoadBuildClass) => {
            assert(iv1 == iv2);
        },
        InstrView::Plain(Instruction::PopException) => {
            assert(iv1 == iv2);
        },
        InstrView::Plain(Instruction::GetAwaitable) => {
            assert(iv1 == iv2);
        },
        InstrView::Plain(Instruction::BeforeAsyncWith) => {
            assert(iv1 == iv2);
        },
        InstrView::Plain(Instruction::GetAIter) => {
            assert(iv1 == iv2);
        },
        InstrView::Plain(Instruction::GetANext) => {
            assert(iv1 == iv2);
        },
        InstrView::Plain(Instruction::LoadFast(x1)) => {
            match iv2 {
                InstrView::Plain(Instruction::LoadFast(x2)) => {
                    assert(ws[0] == x1 as u64 && ws[0] == x2 as u64);
                    lemma_usize_inj(x1, x2);
                    assert(iv1 == iv2);
                },
                _ => {
                    assert(false);
                },
            }
        },
        InstrView::Plain(Instruction::LoadNameAny(x1)) => {
            match iv2 {
                InstrView::Plain(Instruction::LoadNameAny(x2)) => {
                    assert(ws[0] == x1 as u64 && ws[0] == x2 as u64);
                    lemma_usize_inj(x1, x2);
                    assert(iv1 == iv2);
                },
                _ => {
                    assert(false);
                },
            }
        },
        InstrView::Plain(Instruction::LoadGlobal(x1)) => {
            match iv2 {
                InstrView::Plain(Instruction::LoadGlobal(x2)) => {
                    assert(ws[0] == x1 as u64 && ws[0] == x2 as u64);
                    lemma_usize_inj(x1, x2);
                    assert(iv1 == iv2);
                },
                _ => {
                    assert(false);
                },
            }
        },
        InstrView::Plain(Instruction::LoadDeref(x1)) => {
            match iv2 {
                InstrView::Plain(Instruction::LoadDeref(x2)) => {
                    assert(ws[0] == x1 as u64 && ws[0] == x2 as u64);
                    lemma_usize_inj(x1, x2);
                    assert(iv1 == iv2);
                },
                _ => {
                    assert(false);
                },
            }
        },
        InstrView::Plain(Instruction::LoadClassDeref(x1)) => {
            match iv2 {
                InstrView::Plain(Instruction::LoadClassDeref(x2)) => {
                    assert(ws[0] == x1 as u64 && ws[0] == x2 as u64);
                    lemma_usize_inj(x1, x2);
                    assert(iv1 == iv2);
                },
                _ => {
                    assert(false);
                },
            }
        },
        InstrView::Plain(Instruction::StoreFast(x1)) => {
            match iv2 {
                InstrView::Plain(Instruction::StoreFast(x2)) => {
                    assert(ws[0] == x1 as u64 && ws[0] == x2 as u64);
                    lemma_usize_inj(x1, x2);
                    assert(iv1 == iv2);
                },
                _ => {
                    assert(false);
                },
            }
        },
        InstrView::Plain(Instruction::StoreLocal(x1)) => {
            match iv2 {
                InstrView::Plain(Instruction::StoreLocal(x2)) => {
                    assert(ws[0] == x1 as u64 && ws[0] == x2 as u64);
                    lemma_usize_inj(x1, x2);
                    assert(iv1 == iv2);
                },
                _ => {
                    assert(false);
                },
            }
        },
        InstrView::Plain(Instruction::StoreGlobal(x1)) => {
            match iv2 {
                InstrView::Plain(Instruction::StoreGlobal(x2)) => {
                    assert(ws[0] == x1 as u64 && ws[0] == x2 as u64);
                    lemma_usize_inj(x1, x2);
                    assert(iv1 == iv2);
                },
                _ => {
                    assert(false);
                },
            }
        },
        InstrView::Plain(Instruction::StoreDeref(x1)) => {
            match iv2 {
                InstrView::Plain(Instruction::StoreDeref(x2)) => {
                    assert(ws[0] == x1 as u64 && ws[0] == x2 as u64);
                    lemma_usize_inj(x1, x2);
                    assert(iv1 == iv2);
                },
                _ => {
                    assert(false);
                },
            }
        },
        InstrView::Plain(Instruction::DeleteFast(x1)) => {
            match iv2 {
                InstrView::Plain(Instruction::DeleteFast(x2)) => {
                    assert(ws[0] == x1 as u64 && ws[0] == x2 as u64);
                    lemma_usize_inj(x1, x2);
                    assert(iv1 == iv2);
                },
                _ => {
                    assert(false);
                },
            }
        },
        InstrView::Plain(Instruction::DeleteLocal(x1)) => {
            match iv2 {
                InstrView::Plain(Instruction::DeleteLocal(x2)) => {
                    assert(ws[0] == x1 as u64 && ws[0] == x2 as u64);
                    lemma_usize_inj(x1, x2);
                    assert(iv1 == iv2);
                },
                _ => {
                    assert(false);
                },
            }
        },
        InstrView::Plain(Instruction::DeleteGlobal(x1)) => {
            match iv2 {
                InstrView::Plain(Instruction::DeleteGlobal(x2)) => {
                    assert(ws[0] == x1 as u64 && ws[0] == x2 as u64);
                    lemma_usize_inj(x1, x2);
                    assert(iv1 == iv2);
                },
                _ => {
                    assert(false);
                },
            }
        },
        InstrView::Plain(Instruction::DeleteDeref(x1)) => {
            match iv2 {
                InstrView::Plain(Instruction::DeleteDeref(x2)) => {
                    assert(ws[0] == x1 as u64 && ws[0] == x2 as u64);
                    lemma_usize_inj(x1, x2);
                    assert(iv1 == iv2);
                },
                _ => {
                    assert(false);
                },
            }
        },
        InstrView::Plain(Instruction::LoadClosure(x1)) => {
            match iv2 {
                InstrView::Plain(Instruction::LoadClosure(x2)) => {
                    assert(ws[0] == x1 as u64 && ws[0] == x2 as u64);
                    lemma_usize_inj(x1, x2);
                    assert(iv1 == iv2);
                },
                _ => {
                    assert(false);
                },
            }
        },
        InstrView::Plain(Instruction::ImportFrom { idx: x1 }) => {
            match iv2 {
                InstrView::Plain(Instruction::ImportFrom { idx: x2 }) => {
                    assert(ws[0] == x1 as u64 && ws[0] == x2 as u64);
                    lemma_usize_inj(x1, x2);
                    assert(iv1 == iv2);
                },
                _ => {
                    assert(false);
                },
            }
        },
        InstrView::Plain(Instruction::StoreAttr { idx: x1 }) => {
            match iv2 {
                InstrView::Plain(Instruction::StoreAttr { idx: x2 }) => {
                    assert(ws[0] == x1 as u64 && ws[0] == x2 as u64);
                    lemma_usize_inj(x1, x2);
                    assert(iv1 == iv2);
                },
                _ => {
                    assert(false);
                },
            }
        },
        InstrView::Plain(Instruction::DeleteAttr { idx: x1 }) => {
            match iv2 {
                InstrView::Plain(Instruction::DeleteAttr { idx: x2 }) => {
                    assert(ws[0] == x1 as u64 && ws[0] == x2 as u64);
                    lemma_usize_inj(x1, x2);
                    assert(iv1 == iv2);
                },
                _ => {
                    assert(false);
                },
            }
        },
        InstrView::Plain(Instruction::LoadConst { idx: x1 }) => {
            match iv2 {
                InstrView::Plain(Instruction::LoadConst { idx: x2 }) => {
                    assert(ws[0] == x1 as u64 && ws[0] == x2 as u64);
                    lemma_usize_inj(x1, x2);
                    assert(iv1 == iv2);
                },
                _ => {
                    assert(false);
                },
            }
        },
        InstrView::Plain(Instruction::LoadAttr { idx: x1 }) => {
            match iv2 {
                InstrView::Plain(Instruction::LoadAttr { idx: x2 }) => {
                    assert(ws[0] == x1 as u64 && ws[0] == x2 as u64);
                    lemma_usize_inj(x1, x2);
                    assert(iv1 == iv2);
                },
                _ => {
                    assert(false);
                },
            }
        },
        InstrView::Plain(Instruction::Rotate { amount: x1 }) => {
            match iv2 {
                InstrView::Plain(Instruction::Rotate { amount: x2 }) => {
                    assert(ws[0] == x1 as u64 && ws[0] == x2 as u64);
                    lemma_usize_inj(x1, x2);
                    assert(iv1 == iv2);
                },
                _ => {
                    assert(false);
                },
            }
        },
        InstrView::Plain(Instruction::Raise { argc: x1 }) => {
            match iv2 {
                InstrView::Plain(Instruction::Raise { argc: x2 }) => {
                    assert(ws[0] == x1 as u64 && ws[0] == x2 as u64);
                    lemma_usize_inj(x1, x2);
                    assert(iv1 == iv2);
                },
                _ => {
                    assert(false);
                },
            }
        },
        InstrView::Plain(Instruction::BuildString { size: x1 }) => {
            match iv2 {
                InstrView::Plain(Instruction::BuildString { size: x2 }) => {
                    assert(ws[0] == x1 as u64 && ws[0] == x2 as u64);
                    lemma_usize_inj(x1, x2);
                    assert(iv1 == iv2);
                },
                _ => {
                    assert(false);
                },
            }
        },
        InstrView::Plain(Instruction::BuildSlice { size: x1 }) => {
            match iv2 {
                InstrView::Plain(Instruction::BuildSlice { size: x2 }) => {
                    assert(ws[0] == x1 as u64 && ws[0] == x2 as u64);
                    lemma_usize_inj(x1, x2);
                    assert(iv1 == iv2);
                },
                _ => {
                    assert(false);
                },
            }
        },
        InstrView::Plain(Instruction::ListAppend { i: x1 }) => {
            match iv2 {
                InstrView::Plain(Instruction::ListAppend { i: x2 }) => {
                    assert(ws[0] == x1 as u64 && ws[0] == x2 as u64);
                    lemma_usize_inj(x1, x2);
                    assert(iv1 == iv2);
                },
                _ => {
                    assert(false);
                },
            }
        },
        InstrView::Plain(Instruction::SetAdd { i: x1 }) => {
            match iv2 {
                InstrView::Plain(Instruction::SetAdd { i: x2 }) => {
                    assert(ws[0] == x1 as u64 && ws[0] == x2 as u64);
                    lemma_usize_inj(x1, x2);
                    assert(iv1 == iv2);
                },
                _ => {
                    assert(false);
                },
            }
        },
        InstrView::Plain(Instruction::MapAdd { i: x1 }) => {
            match iv2 {
                InstrView::Plain(Instruction::MapAdd { i: x2 }) => {
                    assert(ws[0] == x1 as u64 && ws[0] == x2 as u64);
                    lemma_usize_inj(x1, x2);
                    assert(iv1 == iv2);
                },
                _ => {
                    assert(false);
                },
            }
        },
        InstrView::Plain(Instruction::MapAddRev { i: x1 }) => {
            match iv2 {
                InstrView::Plain(Instruction::MapAddRev { i: x2 }) => {
                    assert(ws[0] == x1 as u64 && ws[0] == x2 as u64);
                    lemma_usize_inj(x1, x2);
                    assert(iv1 == iv2);
                },
                _ => {
                    assert(false);
                },
            }
        },
        InstrView::Plain(Instruction::UnpackSequence { size: x1 }) => {
            match iv2 {
                InstrView::Plain(Instruction::UnpackSequence { size: x2 }) => {
                    assert(ws[0] == x1 as u64 && ws[0] == x2 as u64);
                    lemma_usize_inj(x1, x2);
                    assert(iv1 == iv2);
                },
                _ => {
                    assert(false);
                },
            }
        },
        InstrView::Plain(Instruction::Reverse { amount: x1 }) => {
            match iv2 {
                InstrView::Plain(Instruction::Reverse { amount: x2 }) => {
                    assert(ws[0] == x1 as u64 && ws[0] == x2 as u64);
                    lemma_usize_inj(x1, x2);
                    assert(iv1 == iv2);
                },
                _ => {
                    assert(false);
                },
            }
        },
        InstrView::Plain(Instruction::Jump { target: t1 }) => {
            match iv2 {
                InstrView::Plain(Instruction::Jump { target: t2 }) => {
                    assert(ws[0] == t1.0 as u64 && ws[0] == t2.0 as u64);
                    lemma_usize_inj(t1.0, t2.0);
                    assert(iv1 == iv2);
                },
                _ => {
                    assert(false);
                },
            }
        },
        InstrView::Plain(Instruction::JumpIfTrue { target: t1 }) => {
            match iv2 {
                InstrView::Plain(Instruction::JumpIfTrue { target: t2 }) => {
                    assert(ws[0] == t1.0 as u64 && ws[0] == t2.0 as u64);
                    lemma_usize_inj(t1.0, t2.0);
                    assert(iv1 == iv2);
                },
                _ => {
                    assert(false);
                },
            }
        },
        InstrView::Plain(Instruction::JumpIfFalse { target: t1 }) => {
            match iv2 {
                InstrView::Plain(Instruction::JumpIfFalse { target: t2 }) => {
                    assert(ws[0] == t1.0 as u64 && ws[0] == t2.0 as u64);
                    lemma_usize_inj(t1.0, t2.0);
                    assert(iv1 == iv2);
                },
                _ => {
                    assert(false);
                },
            }
        },
        InstrView::Plain(Instruction::JumpIfTrueOrPop { target: t1 }) => {
            match iv2 {
                InstrView::Plain(Instruction::JumpIfTrueOrPop { target: t2 }) => {
                    assert(ws[0] == t1.0 as u64 && ws[0] == t2.0 as u64);
                    lemma_usize_inj(t1.0, t2.0);
                    assert(iv1 == iv2);
                },
                _ => {
                    assert(false);
                },
            }
        },
        InstrView::Plain(Instruction::JumpIfFalseOrPop { target: t1 }) => {
            match iv2 {
                InstrView::Plain(Instruction::JumpIfFalseOrPop { target: t2 }) => {
                    assert(ws[0] == t1.0 as u64 && ws[0] == t2.0 as u64);
                    lemma_usize_inj(t1.0, t2.0);
                    assert(iv1 == iv2);
                },
                _ => {
                    assert(false);
                },
            }
        },
        InstrView::Plain(Instruction::ForIter { target: t1 }) => {
            match iv2 {
                InstrView::Plain(Instruction::ForIter { target: t2 }) => {
                    assert(ws[0] == t1.0 as u64 && ws[0] == t2.0 as u64);
                    lemma_usize_inj(t1.0, t2.0);
                    assert(iv1 == iv2);
                },
                _ => {
                    assert(false);
                },
            }
        },
        InstrView::Plain(Instruction::SetupFinally { handler: t1 }) => {
            match iv2 {
                InstrView::Plain(Instruction::SetupFinally { handler: t2 }) => {
                    assert(ws[0] == t1.0 as u64 && ws[0] == t2.0 as u64);
                    lemma_usize_inj(t1.0, t2.0);
                    assert(iv1 == iv2);
                },
                _ => {
                    assert(false);
                },
            }
        },
        InstrView::Plain(Instruction::SetupExcept { handler: t1 }) => {
            match iv2 {
                InstrView::Plain(Instruction::SetupExcept { handler: t2 }) => {
                    assert(ws[0] == t1.0 as u64 && ws[0] == t2.0 as u64);
                    lemma_usize_inj(t1.0, t2.0);
                    assert(iv1 == iv2);
                },
                _ => {
                    assert(false);
                },
            }
        },
        InstrView::Plain(Instruction::SetupWith { end: t1 }) => {
            match iv2 {
                InstrView::Plain(Instruction::SetupWith { end: t2 }) => {
                    assert(ws[0] == t1.0 as u64 && ws[0] == t2.0 as u64);
                    lemma_usize_inj(t1.0, t2.0);
                    assert(iv1 == iv2);
                },
                _ => {
                    assert(false);
                },
            }
        },
        InstrView::Plain(Instruction::SetupAsyncWith { end: t1 }) => {
            match iv2 {
                InstrView::Plain(Instruction::SetupAsyncWith { end: t2 }) => {
                    assert(ws[0] == t1.0 as u64 && ws[0] == t2.0 as u64);
                    lemma_usize_inj(t1.0, t2.0);
                    assert(iv1 == iv2);
                },
                _ => {
                    assert(false);
                },
            }
        },
        InstrView::Plain(Instruction::UnaryOperation { op: o1 }) => {
            match iv2 {
                InstrView::Plain(Instruction::UnaryOperation { op: o2 }) => {
                    assert(ws[0] == unop_code(o1) && ws[0] == unop_code(o2));
                    assert(o1 == o2);
                    assert(iv1 == iv2);
                },
                _ => {
                    assert(false);
                },
            }
        },
        InstrView::Plain(Instruction::CompareOperation { op: o1 }) => {
            match iv2 {
                InstrView::Plain(Instruction::CompareOperation { op: o2 }) => {
                    assert(ws[0] == cmpop_code(o1) && ws[0] == cmpop_code(o2));
                    assert(o1 == o2);
                    assert(iv1 == iv2);
                },
                _ => {
                    assert(false);
                },
            }
        },
        InstrView::Plain(Instruction::FormatValue { conversion: c1 }) => {
            match iv2 {
                InstrView::Plain(Instruction::FormatValue { conversion: c2 }) => {
                    assert(ws[0] == conv_code(c1) && ws[0] == conv_code(c2));
                    assert(c1 == c2);
                    assert(iv1 == iv2);
                },
                _ => {
                    assert(false);
                },
            }
        },
        InstrView::Plain(Instruction::BinaryOperation { op: o1, inplace: b1 }) => {
            match iv2 {
                InstrView::Plain(Instruction::BinaryOperation { op: o2, inplace: b2 }) => {
                    assert(ws[0] == binop_code(o1) && ws[0] == binop_code(o2));
                    assert(ws[1] == b01(b1) && ws[1] == b01(b2));
                    assert(iv1 == iv2);
                },
                _ => {
                    assert(false);
                },
            }
        },
        InstrView::Plain(Instruction::CallFunction { typ: t1 }) => {
            match iv2 {
                InstrView::Plain(Instruction::CallFunction { typ: t2 }) => {
                    assert(ws[0] == calltype_words(t1)[0] && ws[0] == calltype_words(t2)[0]);
                    assert(ws[1] == calltype_words(t1)[1] && ws[1] == calltype_words(t2)[1]);
                    match (t1, t2) {
                        (CallType::Positional(n1), CallType::Positional(n2)) => {
                            lemma_usize_inj(n1, n2);
                        },
                        (CallType::Keyword(n1), CallType::Keyword(n2)) => {
                            lemma_usize_inj(n1, n2);
                        },
                        (CallType::Ex(v1), CallType::Ex(v2)) => {},
                        _ => {
                            assert(false);
                        },
                    }
                    assert(iv1 == iv2);
                },
                _ => {
                    assert(false);
                },
            }
        },
        InstrView::Plain(Instruction::SetupLoop { start: a1, end: e1 }) => {
            match iv2 {
                InstrView::Plain(Instruction::SetupLoop { start: a2, end: e2 }) => {
                    assert(ws[0] == a1.0 as u64 && ws[0] == a2.0 as u64);
                    assert(ws[1] == e1.0 as u64 && ws[1] == e2.0 as u64);
                    lemma_usize_inj(a1.0, a2.0);
                    lemma_usize_inj(e1.0, e2.0);
                    assert(iv1 == iv2);
                },
                _ => {
                    assert(false);
                },
            }
        },
        InstrView::Plain(Instruction::UnpackEx { before: a1, after: e1 }) => {
            match iv2 {
                InstrView::Plain(Instruction::UnpackEx { before: a2, after: e2 }) => {
                    assert(ws[0] == a1 as u64 && ws[0] == a2 as u64);
                    assert(ws[1] == e1 as u64 && ws[1] == e2 as u64);
                    lemma_usize_inj(a1, a2);
                    lemma_usize_inj(e1, e2);
                    assert(iv1 == iv2);
                },
                _ => {
                    assert(false);
                },
            }
        },
        InstrView::Plain(Instruction::BuildTuple { size: x1, unpack: u1 }) => {
            match iv2 {
                InstrView::Plain(Instruction::BuildTuple { size: x2, unpack: u2 }) => {
                    assert(ws[0] == x1 as u64 && ws[0] == x2 as u64);
                    assert(ws[1] == b01(u1) && ws[1] == b01(u2));
                    lemma_usize_inj(x1, x2);
                    assert(iv1 == iv2);
                },
                _ => {
                    assert(false);
                },
            }
        },
        InstrView::Plain(Instruction::BuildList { size: x1, unpack: u1 }) => {
            match iv2 {
                InstrView::Plain(Instruction::BuildList { size: x2, unpack: u2 }) => {
                    assert(ws[0] == x1 as u64 && ws[0] == x2 as u64);
                    assert(ws[1] == b01(u1) && ws[1] == b01(u2));
                    lemma_usize_inj(x1, x2);
                    assert(iv1 == iv2);
                },
                _ => {
                    assert(false);
                },
            }
        },
        InstrView::Plain(Instruction::BuildSet { size: x1, unpack: u1 }) => {
            match iv2 {
                InstrView::Plain(Instruction::BuildSet { size: x2, unpack: u2 }) => {
                    assert(ws[0] == x1 as u64 && ws[0] == x2 as u64);
                    assert(ws[1] == b01(u1) && ws[1] == b01(u2));
                    lemma_usize_inj(x1, x2);
                    assert(iv1 == iv2);
                },
                _ => {
                    assert(false);
                },
            }
        },
        InstrView::Plain(Instruction::BuildMap { size: x1, unpack: u1, for_call: f1 }) => {
            match iv2 {
                InstrView::Plain(Instruction::BuildMap { size: x2, unpack: u2, for_call: f2 }) => {
                    assert(ws[0] == x1 as u64 && ws[0] == x2 as u64);
                    assert(ws[1] == b01(u1) && ws[1] == b01(u2));
                    assert(ws[2] == b01(f1) && ws[2] == b01(f2));
                    lemma_usize_inj(x1, x2);
                    assert(iv1 == iv2);
                },
                _ => {
                    assert(false);
                },
            }
        },
        InstrView::Plain(Instruction::Import { .. }) => {
            assert(false);
        },
    }
}

proof fn lemma_instr_at_inj(b: Seq<u8>, pos: int, iv1: InstrView, iv2: InstrView)
    requires
        b.len() <= usize::MAX,
        wf_iv(iv1),
        wf_iv(iv2),
        has_at(b, pos, enc_instr(iv1)),
        has_at(b, pos, enc_instr(iv2)),
    ensures
        iv1 == iv2,
{
    lemma_instr_decomp(b, pos, iv1);
    lemma_instr_decomp(b, pos, iv2);
    lemma_at_u64(b, pos + 1, iparts(iv1).1.len() as u64);
    lemma_at_u64(b, pos + 1, iparts(iv2).1.len() as u64);
    lemma_enc_words_len(iparts(iv1).1);
    lemma_enc_words_len(iparts(iv2).1);
    lemma_len_faithful(iparts(iv1).1.len(), iparts(iv2).1.len());
    lemma_words_at_inj(b, pos + 9, iparts(iv1).1, iparts(iv2).1);
    lemma_iparts_inj(iv1, iv2);
}

proof fn lemma_instrs_at_inj(b: Seq<u8>, pos: int, s1: Seq<InstrView>, s2: Seq<InstrView>)
    requires
        b.len() <= usize::MAX,
        s1.len() == s2.len(),
        wf_ivs(s1),
        wf_ivs(s2),
        has_at(b, pos, enc_instrs(s1)),
        has_at(b, pos, enc_instrs(s2)),
    ensures
        s1 == s2,
    decreases s1.len(),
{
    if s1.len() == 0 {
        assert(s1 =~= s2);
    } else {
        lemma_has_at_concat(
            b,
            pos,
            enc_instr(s1[0]),
            enc_instrs(s1.subrange(1, s1.len() as int)),
        );
        lemma_has_at_concat(
            b,
            pos,
            enc_instr(s2[0]),
            enc_instrs(s2.subrange(1, s2.len() as int)),
        );
        lemma_instr_at_inj(b, pos, s1[0], s2[0]);
        lemma_instrs_at_inj(
            b,
            pos + enc_instr(s1[0]).len(),
            s1.subrange(1, s1.len() as int),
            s2.subrange(1, s2.len() as int),
        );
        assert forall|i: int| 0 <= i < s1.len() implies s1[i] == s2[i] by {
            if i > 0 {
                assert(s1[i] == s1.subrange(1, s1.len() as int)[i - 1]);
                assert(s2[i] == s2.subrange(1, s2.len() as int)[i - 1]);
            }
        }
        assert(s1 =~= s2);
    }
}

proof fn lemma_locs_at_inj(b: Seq<u8>, pos: int, s1: Seq<Location>, s2: Seq<Location>)
    requires
        s1.len() == s2.len(),
        has_at(b, pos, enc_locs(s1)),
        has_at(b, pos, enc_locs(s2)),
    ensures
        s1 == s2,
    decreases s1.len(),
{
    if s1.len() == 0 {
        assert(s1 =~= s2);
    } else {
        lemma_has_at_concat(b, pos, enc_loc(s1[0]), enc_locs(s1.subrange(1, s1.len() as int)));
        lemma_has_at_concat(b, pos, enc_loc(s2[0]), enc_locs(s2.subrange(1, s2.len() as int)));
        lemma_has_at_concat(b, pos, enc_usize(s1[0].row), enc_usize(s1[0].column));
        lemma_has_at_concat(b, pos, enc_usize(s2[0].row), enc_usize(s2[0].column));
        lemma_at_u64(b, pos, s1[0].row as u64);
        lemma_at_u64(b, pos, s2[0].row as u64);
        lemma_at_u64(b, pos + 8, s1[0].column as u64);
        lemma_at_u64(b, pos + 8, s2[0].column as u64);
        lemma_usize_inj(s1[0].row, s2[0].row);
        lemma_usize_inj(s1[0].column, s2[0].column);
        lemma_locs_at_inj(
            b,
            pos + 16,
            s1.subrange(1, s1.len() as int),
            s2.subrange(1, s2.len() as int),
        );
        assert forall|i: int| 0 <= i < s1.len() implies s1[i] == s2[i] by {
            if i > 0 {
                assert(s1[i] == s1.subrange(1, s1.len() as int)[i - 1]);
                assert(s2[i] == s2.subrange(1, s2.len() as int)[i - 1]);
            }
        }
        assert(s1 =~= s2);
    }
}

proof fn lemma_strs_at_inj(b: Seq<u8>, pos: int, s1: Seq<Seq<char>>, s2: Seq<Seq<char>>)
    requires
        b.len() <= usize::MAX,
        s1.len() == s2.len(),
        has_at(b, pos, enc_strs(s1)),
        has_at(b, pos, enc_strs(s2)),
    ensures
        s1 == s2,
    decreases s1.len(),
{
    if s1.len() == 0 {
        assert(s1 =~= s2);
    } else {
        lemma_has_at_concat(b, pos, enc_str(s1[0]), enc_strs(s1.subrange(1, s1.len() as int)));
        lemma_has_at_concat(b, pos, enc_str(s2[0]), enc_strs(s2.subrange(1, s2.len() as int)));
        lemma_str_at_inj(b, pos, s1[0], s2[0]);
        lemma_strs_at_inj(
            b,
            pos + enc_str(s1[0]).len(),
            s1.subrange(1, s1.len() as int),
            s2.subrange(1, s2.len() as int),
        );
        assert forall|i: int| 0 <= i < s1.len() implies s1[i] == s2[i] by {
            if i > 0 {
                assert(s1[i] == s1.subrange(1, s1.len() as int)[i - 1]);
                assert(s2[i] == s2.subrange(1, s2.len() as int)[i - 1]);
            }
        }
        assert(s1 =~= s2);
    }
}

/// A counted name table at one position is unique.
proof fn lemma_table_at_inj(b: Seq<u8>, pos: int, s1: Seq<Seq<char>>, s2: Seq<Seq<char>>)
    requires
        b.len() <= usize::MAX,
        has_at(b, pos, enc_u64(s1.len() as u64) + enc_strs(s1)),
        has_at(b, pos, enc_u64(s2.len() as u64) + enc_strs(s2)),
    ensures
        s1 == s2,
{
    lemma_has_at_concat(b, pos, enc_u64(s1.len() as u64), enc_strs(s1));
    lemma_has_at_concat(b, pos, enc_u64(s2.len() as u64), enc_strs(s2));
    lemma_at_u64(b, pos, s1.len() as u64);
    lemma_at_u64(b, pos, s2.len() as u64);
    lemma_enc_strs_ge(s1);
    lemma_enc_strs_ge(s2);
    lemma_len_faithful(s1.len(), s2.len());
    lemma_strs_at_inj(b, pos + 8, s1, s2);
}

/// A buffer holds itself at position zero.
proof fn lemma_has_at_self(bts: Seq<u8>)
    ensures
        has_at(bts, 0, bts),
{
    assert forall|i: int| 0 <= i < bts.len() implies bts[0 + i] == #[trigger] bts[i] by {}
}

/// Two encoded integer constants at one position are equal.
#[verifier::rlimit(100)]
proof fn lemma_const_int_inj(b: Seq<u8>, pos: int, cv1: ConstView, cv2: ConstView)
    requires
        b.len() <= usize::MAX,
        cv1 matches ConstView::Integer { .. },
        cv2 matches ConstView::Integer { .. },
        has_at(b, pos, enc_const(cv1)),
        has_at(b, pos, enc_const(cv2)),
    ensures
        cv1 == cv2,
{
    reveal(enc_unit);
    match (cv1, cv2) {
        (
            ConstView::Integer { negative: n1, magnitude: m1 },
            ConstView::Integer { negative: n2, magnitude: m2 },
        ) => {
            assert(enc_const(cv1) =~= seq![0u8] + (enc_bool(n1) + (enc_u64(m1.len() as u64)
                + m1)));
            assert(enc_const(cv2) =~= seq![0u8] + (enc_bool(n2) + (enc_u64(m2.len() as u64)
                + m2)));
            lemma_has_at_concat(b, pos, seq![0u8], enc_bool(n1) + (enc_u64(m1.len() as u64) + m1));
            lemma_has_at_concat(b, pos + 1, enc_bool(n1), enc_u64(m1.len() as u64) + m1);
            lemma_has_at_concat(b, pos + 2, enc_u64(m1.len() as u64), m1);
            lemma_has_at_concat(b, pos, seq![0u8], enc_bool(n2) + (enc_u64(m2.len() as u64) + m2));
            lemma_has_at_concat(b, pos + 1, enc_bool(n2), enc_u64(m2.len() as u64) + m2);
            lemma_has_at_concat(b, pos + 2, enc_u64(m2.len() as u64), m2);
            lemma_at_bool(b, pos + 1, n1);
            lemma_at_bool(b, pos + 1, n2);
            lemma_at_u64(b, pos + 2, m1.len() as u64);
            lemma_at_u64(b, pos + 2, m2.len() as u64);
            lemma_len_faithful(m1.len(), m2.len());
            lemma_raw_at_inj(b, pos + 10, m1, m2);
        },
        _ => {},
    }
}

/// Two encoded scalar constants (floats, complex pairs, booleans) at one
/// position are equal.
#[verifier::rlimit(100)]
proof fn lemma_const_scalar_inj(b: Seq<u8>, pos: int, cv1: ConstView, cv2: ConstView)
    requires
        b.len() <= usize::MAX,
        has_at(b, pos, enc_const(cv1)),
        has_at(b, pos, enc_const(cv2)),
    ensures
        (cv1 matches ConstView::Float { .. } && cv2 matches ConstView::Float { .. }) ==> cv1
            == cv2,
        (cv1 matches ConstView::Complex { .. } && cv2 matches ConstView::Complex { .. }) ==> cv1
            == cv2,
        (cv1 matches ConstView::Boolean { .. } && cv2 matches ConstView::Boolean { .. }) ==> cv1
            == cv2,
{
    reveal(enc_unit);
    match (cv1, cv2) {
        (ConstView::Float { bits: x1 }, ConstView::Float { bits: x2 }) => {
            lemma_has_at_concat(b, pos, seq![1u8], enc_u64(x1));
            lemma_has_at_concat(b, pos, seq![1u8], enc_u64(x2));
            lemma_at_u64(b, pos + 1, x1);
            lemma_at_u64(b, pos + 1, x2);
        },
        (
            ConstView::Complex { re_bits: r1, im_bits: i1 },
            ConstView::Complex { re_bits: r2, im_bits: i2 },
        ) => {
            assert(enc_const(cv1) =~= seq![2u8] + (enc_u64(r1) + enc_u64(i1)));
            assert(enc_const(cv2) =~= seq![2u8] + (enc_u64(r2) + enc_u64(i2)));
            lemma_has_at_concat(b, pos, seq![2u8], enc_u64(r1) + enc_u64(i1));
            lemma_has_at_concat(b, pos + 1, enc_u64(r1), enc_u64(i1));
            lemma_has_at_concat(b, pos, seq![2u8], enc_u64(r2) + enc_u64(i2));
            lemma_has_at_concat(b, pos + 1, enc_u64(r2), enc_u64(i2));
            lemma_at_u64(b, pos + 1, r1);
            lemma_at_u64(b, pos + 1, r2);
            lemma_at_u64(b, pos + 9, i1);
            lemma_at_u64(b, pos + 9, i2);
        },
        (ConstView::Boolean { value: v1 }, ConstView::Boolean { value: v2 }) => {
            lemma_has_at_concat(b, pos, seq![3u8], enc_bool(v1));
            lemma_has_at_concat(b, pos, seq![3u8], enc_bool(v2));
            lemma_at_bool(b, pos + 1, v1);
            lemma_at_bool(b, pos + 1, v2);
        },
        _ => {},
    }
}

/// Two encoded text or byte-string constants at one position are equal.
#[verifier::rlimit(100)]
proof fn lemma_const_text_inj(b: Seq<u8>, pos: int, cv1: ConstView, cv2: ConstView)
    requires
        b.len() <= usize::MAX,
        has_at(b, pos, enc_const(cv1)),
        has_at(b, pos, enc_const(cv2)),
    ensures
        (cv1 matches ConstView::Str { .. } && cv2 matches ConstView::Str { .. }) ==> cv1 == cv2,
        (cv1 matches ConstView::Bytes { .. } && cv2 matches ConstView::Bytes { .. }) ==> cv1
            == cv2,
{
    reveal(enc_unit);
    match (cv1, cv2) {
        (ConstView::Str { value: v1 }, ConstView::Str { value: v2 }) => {
            lemma_has_at_concat(b, pos, seq![4u8], enc_str(v1));
            lemma_has_at_concat(b, pos, seq![4u8], enc_str(v2));
            lemma_str_at_inj(b, pos + 1, v1, v2);
        },
        (ConstView::Bytes { value: v1 }, ConstView::Bytes { value: v2 }) => {
            assert(enc_const(cv1) =~= seq![5u8] + (enc_u64(v1.len() as u64) + v1));
            assert(enc_const(cv2) =~= seq![5u8] + (enc_u64(v2.len() as u64) + v2));
            lemma_has_at_concat(b, pos, seq![5u8], enc_u64(v1.len() as u64) + v1);
            lemma_has_at_concat(b, pos + 1, enc_u64(v1.len() as u64), v1);
            lemma_has_at_concat(b, pos, seq![5u8], enc_u64(v2.len() as u64) + v2);
            lemma_has_at_concat(b, pos + 1, enc_u64(v2.len() as u64), v2);
            lemma_at_u64(b, pos + 1, v1.len() as u64);
            lemma_at_u64(b, pos + 1, v2.len() as u64);
            lemma_len_faithful(v1.len(), v2.len());
            lemma_raw_at_inj(b, pos + 9, v1, v2);
        },
        _ => {},
    }
}

/// The tag byte of an encoded constant pins its variant.
#[verifier::rlimit(100)]
proof fn lemma_const_tag(cv: ConstView)
    ensures
        enc_const(cv).len() >= 1,
        enc_const(cv)[0] == 0 ==> cv matches ConstView::Integer { .. },
        enc_const(cv)[0] == 1 ==> cv matches ConstView::Float { .. },
        enc_const(cv)[0] == 2 ==> cv matches ConstView::Complex { .. },
        enc_const(cv)[0] == 3 ==> cv matches ConstView::Boolean { .. },
        enc_const(cv)[0] == 4 ==> cv matches ConstView::Str { .. },
        enc_const(cv)[0] == 5 ==> cv matches ConstView::Bytes { .. },
        enc_const(cv)[0] == 6 ==> cv matches ConstView::Code { .. },
        enc_const(cv)[0] == 7 ==> cv matches ConstView::Tuple { .. },
        enc_const(cv)[0] == 8 ==> cv matches ConstView::NoneValue,
        enc_const(cv)[0] == 9 ==> cv matches ConstView::Ellipsis,
{
    reveal(enc_unit);
    match cv {
        ConstView::Integer { .. } => {},
        ConstView::Float { .. } => {},
        ConstView::Complex { .. } => {},
        ConstView::Boolean { .. } => {},
        ConstView::Str { .. } => {},
        ConstView::Bytes { .. } => {},
        ConstView::Code { .. } => {},
        ConstView::Tuple { .. } => {},
        ConstView::NoneValue => {},
        ConstView::Ellipsis => {},
    }
}

/// Splits an encoded nested-unit constant into its payload.
#[verifier::rlimit(100)]
proof fn lemma_code_prep(b: Seq<u8>, pos: int, cv: ConstView)
    requires
        cv matches ConstView::Code { .. },
        has_at(b, pos, enc_const(cv)),
    ensures
        has_at(b, pos + 1, enc_unit(cv->Code_code)),
{
    match cv {
        ConstView::Code { code } => {
            reveal(enc_unit);
            assert(enc_const(cv) == seq![6u8] + enc_unit(code));
            lemma_has_at_concat(b, pos, seq![6u8], enc_unit(code));
        },
        _ => {},
    }
}

/// Splits an encoded tuple constant into its counted elements.
#[verifier::rlimit(100)]
proof fn lemma_tuple_prep(b: Seq<u8>, pos: int, cv: ConstView)
    requires
        b.len() <= usize::MAX,
        cv matches ConstView::Tuple { .. },
        has_at(b, pos, enc_const(cv)),
    ensures
        has_at(b, pos + 9, enc_consts(cv->Tuple_elements)),
        cv->Tuple_elements.len() < 0x10000000000000000,
        le64_of(
            b[pos + 1],
            b[pos + 2],
            b[pos + 3],
            b[pos + 4],
            b[pos + 5],
            b[pos + 6],
            b[pos + 7],
            b[pos + 8],
        ) == cv->Tuple_elements.len() as u64,
{
    match cv {
        ConstView::Tuple { elements: e1 } => {
            reveal(enc_unit);
            assert(enc_const(cv) =~= seq![7u8] + (enc_u64(e1.len() as u64) + enc_consts(e1)));
            lemma_has_at_concat(b, pos, seq![7u8], enc_u64(e1.len() as u64) + enc_consts(e1));
            lemma_has_at_concat(b, pos + 1, enc_u64(e1.len() as u64), enc_consts(e1));
            lemma_at_u64(b, pos + 1, e1.len() as u64);
            lemma_enc_consts_ge(e1);
        },
        _ => {},
    }
}

/// Well-formed constant views encoded at the same position are equal.
#[verifier::rlimit(100)]
proof fn lemma_const_at_inj(b: Seq<u8>, pos: int, cv1: ConstView, cv2: ConstView)
    requires
        b.len() <= usize::MAX,
        wf_const(cv1),
        wf_const(cv2),
        has_at(b, pos, enc_const(cv1)),
        has_at(b, pos, enc_const(cv2)),
    ensures
        cv1 == cv2,
    decreases crate::view::crank(cv1), 1int,
{
    reveal(enc_unit);
    lemma_const_tag(cv1);
    lemma_const_tag(cv2);
    assert(b[pos] == enc_const(cv1)[0]);
    assert(b[pos] == enc_const(cv2)[0]);
    match cv1 {
        ConstView::Integer { .. } => {
            lemma_const_int_inj(b, pos, cv1, cv2);
        },
        ConstView::Float { .. } => {
            lemma_const_scalar_inj(b, pos, cv1, cv2);
        },
        ConstView::Complex { .. } => {
            lemma_const_scalar_inj(b, pos, cv1, cv2);
        },
        ConstView::Boolean { .. } => {
            lemma_const_scalar_inj(b, pos, cv1, cv2);
        },
        ConstView::Str { .. } => {
            lemma_const_text_inj(b, pos, cv1, cv2);
        },
        ConstView::Bytes { .. } => {
            lemma_const_text_inj(b, pos, cv1, cv2);
        },
        ConstView::Code { code: u1 } => {
            lemma_code_prep(b, pos, cv1);
            lemma_code_prep(b, pos, cv2);
            lemma_unit_at_inj(b, pos + 1, u1, cv2->Code_code);
            assert(cv1 =~= cv2);
        },
        ConstView::Tuple { elements: e1 } => {
            lemma_tuple_prep(b, pos, cv1);
            lemma_tuple_prep(b, pos, cv2);
            lemma_len_faithful(e1.len(), cv2->Tuple_elements.len());
            lemma_consts_at_inj(b, pos + 9, e1, cv2->Tuple_elements);
            assert(cv1 =~= cv2);
        },
        ConstView::NoneValue => {},
        ConstView::Ellipsis => {},
    }
}

/// Sequences of well-formed constant views of one length encoded at the
/// same position are equal.
proof fn lemma_consts_at_inj(b: Seq<u8>, pos: int, s1: Seq<ConstView>, s2: Seq<ConstView>)
    requires
        b.len() <= usize::MAX,
        s1.len() == s2.len(),
        wf_consts(s1),
        wf_consts(s2),
        has_at(b, pos, enc_consts(s1)),
        has_at(b, pos, enc_consts(s2)),
    ensures
        s1 == s2,
    decreases crate::view::cranks(s1), 1int,
{
    reveal(enc_unit);
    if s1.len() == 0 {
        assert(s1 =~= s2);
    } else {
        lemma_has_at_concat(
            b,
            pos,
            enc_const(s1[0]),
            enc_consts(s1.subrange(1, s1.len() as int)),
        );
        lemma_has_at_concat(
            b,
            pos,
            enc_const(s2[0]),
            enc_consts(s2.subrange(1, s2.len() as int)),
        );
        lemma_const_at_inj(b, pos, s1[0], s2[0]);
        lemma_consts_at_inj(
            b,
            pos + enc_const(s1[0]).len(),
            s1.subrange(1, s1.len() as int),
            s2.subrange(1, s2.len() as int),
        );
        assert forall|i: int| 0 <= i < s1.len() implies s1[i] == s2[i] by {
            if i > 0 {
                assert(s1[i] == s1.subrange(1, s1.len() as int)[i - 1]);
                assert(s2[i] == s2.subrange(1, s2.len() as int)[i - 1]);
            }
        }
        assert(s1 =~= s2);
    }
}

/// The count fields of an encoded unit, exposed alone.
proof fn lemma_decomp_counts(b: Seq<u8>, pos: int, uv: CodeView)
    requires
        has_at(b, pos, enc_unit(uv)),
    ensures
        le16_of(b[pos], b[pos + 1]) == uv.flags.bits,
        has_at(b, pos + 2, enc_usize(uv.posonlyarg_count)),
        has_at(b, pos + 10, enc_usize(uv.arg_count)),
        has_at(b, pos + 18, enc_usize(uv.kwonlyarg_count)),
{
    lemma_unit_decomp(b, pos, uv);
}

/// The identity fields of an encoded unit, exposed alone.
proof fn lemma_decomp_identity(b: Seq<u8>, pos: int, uv: CodeView)
    requires
        has_at(b, pos, enc_unit(uv)),
    ensures
        has_at(b, pos + 26, enc_str(uv.source_path)),
        has_at(b, pos + 26 + enc_str(uv.source_path).len(), enc_usize(uv.first_line_number)),
        has_at(b, pos + 34 + enc_str(uv.source_path).len(), enc_str(uv.obj_name)),
{
    lemma_unit_decomp(b, pos, uv);
}

/// The cell map and instruction sections of an encoded unit, exposed alone.
proof fn lemma_decomp_instrs(b: Seq<u8>, pos: int, uv: CodeView)
    requires
        has_at(b, pos, enc_unit(uv)),
    ensures
        has_at(b, unit_off_c2a(pos, uv), enc_c2a(uv.cell2arg)),
        has_at(
            b,
            unit_off_c2a(pos, uv) + enc_c2a(uv.cell2arg).len(),
            enc_u64(uv.instructions.len() as u64),
        ),
        has_at(
            b,
            unit_off_c2a(pos, uv) + enc_c2a(uv.cell2arg).len() + 8,
            enc_instrs(uv.instructions),
        ),
        uv.instructions.len() <= b.len(),
{
    lemma_unit_decomp(b, pos, uv);
}

/// The location and constant sections of an encoded unit, exposed alone.
proof fn lemma_decomp_pools(b: Seq<u8>, pos: int, uv: CodeView)
    requires
        has_at(b, pos, enc_unit(uv)),
    ensures
        has_at(b, unit_off_locs(pos, uv), enc_u64(uv.locations.len() as u64)),
        has_at(b, unit_off_locs(pos, uv) + 8, enc_locs(uv.locations)),
        has_at(b, unit_off_consts(pos, uv), enc_u64(uv.constants.len() as u64)),
        has_at(b, unit_off_consts(pos, uv) + 8, enc_consts(uv.constants)),
        uv.locations.len() <= b.len(),
        uv.constants.len() <= b.len(),
{
    lemma_unit_decomp(b, pos, uv);
}

/// The name tables of an encoded unit, exposed alone.
proof fn lemma_decomp_tables(b: Seq<u8>, pos: int, uv: CodeView)
    requires
        has_at(b, pos, enc_unit(uv)),
    ensures
        has_at(b, unit_off_names(pos, uv), enc_u64(uv.names.len() as u64) + enc_strs(uv.names)),
        has_at(
            b,
            unit_off_names(pos, uv) + 8 + enc_strs(uv.names).len(),
            enc_u64(uv.varnames.len() as u64) + enc_strs(uv.varnames),
        ),
        has_at(
            b,
            unit_off_names(pos, uv) + 16 + enc_strs(uv.names).len() + enc_strs(uv.varnames).len(),
            enc_u64(uv.cellvars.len() as u64) + enc_strs(uv.cellvars),
        ),
        has_at(
            b,
            unit_off_names(pos, uv) + 24 + enc_strs(uv.names).len() + enc_strs(uv.varnames).len()
                + enc_strs(uv.cellvars).len(),
            enc_u64(uv.freevars.len() as u64) + enc_strs(uv.freevars),
        ),
{
    lemma_unit_decomp(b, pos, uv);
}

/// Flags and argument counts of unit views encoded at the same position
/// are equal.
#[verifier::rlimit(100)]
proof fn lemma_unit_counts_inj(b: Seq<u8>, pos: int, uv1: CodeView, uv2: CodeView)
    requires
        b.len() <= usize::MAX,
        has_at(b, pos, enc_unit(uv1)),
        has_at(b, pos, enc_unit(uv2)),
    ensures
        uv1.flags == uv2.flags,
        uv1.posonlyarg_count == uv2.posonlyarg_count,
        uv1.arg_count == uv2.arg_count,
        uv1.kwonlyarg_count == uv2.kwonlyarg_count,
{
    lemma_decomp_counts(b, pos, uv1);
    lemma_decomp_counts(b, pos, uv2);
    lemma_at_u64(b, pos + 2, uv1.posonlyarg_count as u64);
    lemma_at_u64(b, pos + 2, uv2.posonlyarg_count as u64);
    lemma_usize_inj(uv1.posonlyarg_count, uv2.posonlyarg_count);
    lemma_at_u64(b, pos + 10, uv1.arg_count as u64);
    lemma_at_u64(b, pos + 10, uv2.arg_count as u64);
    lemma_usize_inj(uv1.arg_count, uv2.arg_count);
    lemma_at_u64(b, pos + 18, uv1.kwonlyarg_count as u64);
    lemma_at_u64(b, pos + 18, uv2.kwonlyarg_count as u64);
    lemma_usize_inj(uv1.kwonlyarg_count, uv2.kwonlyarg_count);
    assert(uv1.flags == uv2.flags);
}

/// Identity fields of unit views encoded at the same position are equal.
#[verifier::rlimit(100)]
proof fn lemma_unit_identity_inj(b: Seq<u8>, pos: int, uv1: CodeView, uv2: CodeView)
    requires
        b.len() <= usize::MAX,
        has_at(b, pos, enc_unit(uv1)),
        has_at(b, pos, enc_unit(uv2)),
    ensures
        uv1.source_path == uv2.source_path,
        uv1.first_line_number == uv2.first_line_number,
        uv1.obj_name == uv2.obj_name,
{
    lemma_decomp_identity(b, pos, uv1);
    lemma_decomp_identity(b, pos, uv2);
    lemma_str_at_inj(b, pos + 26, uv1.source_path, uv2.source_path);
    lemma_at_u64(b, pos + 26 + enc_str(uv1.source_path).len(), uv1.first_line_number as u64);
    lemma_at_u64(b, pos + 26 + enc_str(uv2.source_path).len(), uv2.first_line_number as u64);
    lemma_usize_inj(uv1.first_line_number, uv2.first_line_number);
    lemma_str_at_inj(
        b,
        pos + 34 + enc_str(uv1.source_path).len(),
        uv1.obj_name,
        uv2.obj_name,
    );
}

/// The cell map and instruction count of unit views encoded at the same
/// position are equal, once their identity fields are.
#[verifier::rlimit(100)]
proof fn lemma_unit_c2a_inj(b: Seq<u8>, pos: int, uv1: CodeView, uv2: CodeView)
    requires
        b.len() <= usize::MAX,
        has_at(b, pos, enc_unit(uv1)),
        has_at(b, pos, enc_unit(uv2)),
        uv1.source_path == uv2.source_path,
        uv1.obj_name == uv2.obj_name,
    ensures
        uv1.cell2arg == uv2.cell2arg,
        uv1.instructions.len() == uv2.instructions.len(),
{
    lemma_decomp_instrs(b, pos, uv1);
    lemma_decomp_instrs(b, pos, uv2);
    assert(unit_off_c2a(pos, uv1) == unit_off_c2a(pos, uv2));
    lemma_c2a_at_inj(b, unit_off_c2a(pos, uv1), uv1.cell2arg, uv2.cell2arg);
    lemma_at_u64(
        b,
        unit_off_c2a(pos, uv1) + enc_c2a(uv1.cell2arg).len(),
        uv1.instructions.len() as u64,
    );
    lemma_at_u64(
        b,
        unit_off_c2a(pos, uv2) + enc_c2a(uv2.cell2arg).len(),
        uv2.instructions.len() as u64,
    );
    lemma_len_faithful(uv1.instructions.len(), uv2.instructions.len());
}

/// The front fields of unit views encoded at the same position are equal.
proof fn lemma_unit_front_inj(b: Seq<u8>, pos: int, uv1: CodeView, uv2: CodeView)
    requires
        b.len() <= usize::MAX,
        has_at(b, pos, enc_unit(uv1)),
        has_at(b, pos, enc_unit(uv2)),
    ensures
        uv1.flags == uv2.flags,
        uv1.posonlyarg_count == uv2.posonlyarg_count,
        uv1.arg_count == uv2.arg_count,
        uv1.kwonlyarg_count == uv2.kwonlyarg_count,
        uv1.source_path == uv2.source_path,
        uv1.first_line_number == uv2.first_line_number,
        uv1.obj_name == uv2.obj_name,
        uv1.cell2arg == uv2.cell2arg,
        uv1.instructions.len() == uv2.instructions.len(),
{
    lemma_unit_counts_inj(b, pos, uv1, uv2);
    lemma_unit_identity_inj(b, pos, uv1, uv2);
    lemma_unit_c2a_inj(b, pos, uv1, uv2);
}

/// Well-formed code-unit views encoded at the same position are equal:
/// the encoding is injective.
#[verifier::rlimit(100)]
pub proof fn lemma_unit_at_inj(b: Seq<u8>, pos: int, uv1: CodeView, uv2: CodeView)
    requires
        b.len() <= usize::MAX,
        wf_unit(uv1),
        wf_unit(uv2),
        has_at(b, pos, enc_unit(uv1)),
        has_at(b, pos, enc_unit(uv2)),
    ensures
        uv1 == uv2,
    decreases crate::view::urank(uv1), 2int,
{
    lemma_unit_front_inj(b, pos, uv1, uv2);
    lemma_decomp_instrs(b, pos, uv1);
    lemma_decomp_instrs(b, pos, uv2);
    lemma_decomp_pools(b, pos, uv1);
    lemma_decomp_pools(b, pos, uv2);
    lemma_decomp_tables(b, pos, uv1);
    lemma_decomp_tables(b, pos, uv2);
    lemma_instrs_at_inj(
        b,
        unit_off_c2a(pos, uv1) + enc_c2a(uv1.cell2arg).len() + 8,
        uv1.instructions,
        uv2.instructions,
    );
    assert(unit_off_locs(pos, uv1) == unit_off_locs(pos, uv2));
    lemma_at_u64(b, unit_off_locs(pos, uv1), uv1.locations.len() as u64);
    lemma_at_u64(b, unit_off_locs(pos, uv2), uv2.locations.len() as u64);
    lemma_len_faithful(uv1.locations.len(), uv2.locations.len());
    lemma_locs_at_inj(b, unit_off_locs(pos, uv1) + 8, uv1.locations, uv2.locations);
    assert(unit_off_consts(pos, uv1) == unit_off_consts(pos, uv2));
    lemma_at_u64(b, unit_off_consts(pos, uv1), uv1.constants.len() as u64);
    lemma_at_u64(b, unit_off_consts(pos, uv2), uv2.constants.len() as u64);
    lemma_enc_consts_ge(uv1.constants);
    lemma_enc_consts_ge(uv2.constants);
    lemma_len_faithful(uv1.constants.len(), uv2.constants.len());
    lemma_consts_at_inj(b, unit_off_consts(pos, uv1) + 8, uv1.constants, uv2.constants);
    assert(unit_off_names(pos, uv1) == unit_off_names(pos, uv2));
    lemma_table_at_inj(b, unit_off_names(pos, uv1), uv1.names, uv2.names);
    lemma_table_at_inj(
        b,
        unit_off_names(pos, uv1) + 8 + enc_strs(uv1.names).len(),
        uv1.varnames,
        uv2.varnames,
    );
    lemma_table_at_inj(
        b,
        unit_off_names(pos, uv1) + 16 + enc_strs(uv1.names).len() + enc_strs(uv1.varnames).len(),
        uv1.cellvars,
        uv2.cellvars,
    );
    lemma_table_at_inj(
        b,
        unit_off_names(pos, uv1) + 24 + enc_strs(uv1.names).len() + enc_strs(uv1.varnames).len()
            + enc_strs(uv1.cellvars).len(),
        uv1.freevars,
        uv2.freevars,
    );
    assert(uv1 =~= uv2);
}

} // verus!
