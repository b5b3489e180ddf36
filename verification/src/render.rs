//! The disassembler: deterministic, side-effect-free text rendering of a
//! code unit.  Each line shows a jump-target marker, the right-justified
//! offset, the opcode name and an opcode-specific operand summary with
//! indexes resolved against the unit's name tables; nested code objects
//! are expanded recursively in expand mode, or dumped after the listing
//! otherwise.  The text is pinned by spec functions over the unit's view,
//! so rendering the same unit twice gives byte-identical text.

use vstd::prelude::*;
use vstd::string::StrSliceExecFns;
use vstd::string::StringExecFns;

use crate::code::{lbl_in, CodeObject, Location};
use crate::constant::{BigIntValue, BorrowedConstant, Constant, ConstantData, ConstantView, NameStr};
use crate::instr::{instr_has_target, iview, CallType, InstrView, Instruction, Label};
use crate::instr::{BinaryOperator, ComparisonOperator, ConversionFlag, UnaryOperator};
use crate::view::{crank, cranks, urank, uview, CodeView, ConstView};
use crate::view::lemma_cranks_elem;

verus! {

// ---------------------------------------------------------------------
// text primitives
// ---------------------------------------------------------------------

/// `n` spaces.
pub open spec fn spaces(n: nat) -> Seq<char>
    decreases n,
{
    if n == 0 {
        Seq::empty()
    } else {
        spaces((n - 1) as nat) + seq![' ']
    }
}

/// The decimal digit character for `d` (`d < 10`).
pub open spec fn digit_char(d: u64) -> char {
    if d == 0 { '0' } else if d == 1 { '1' } else if d == 2 { '2' } else if d == 3 { '3' }
    else if d == 4 { '4' } else if d == 5 { '5' } else if d == 6 { '6' } else if d == 7 { '7' }
    else if d == 8 { '8' } else { '9' }
}

/// The decimal digits of `v`.
pub open spec fn dec_digits(v: u64) -> Seq<char>
    decreases v,
{
    if v < 10 {
        seq![digit_char(v)]
    } else {
        dec_digits(v / 10) + seq![digit_char(v % 10)]
    }
}

/// The hexadecimal digit character for `d` (`d < 16`).
pub open spec fn hex_char(d: u64) -> char {
    if d < 10 { digit_char(d) }
    else if d == 10 { 'a' } else if d == 11 { 'b' } else if d == 12 { 'c' }
    else if d == 13 { 'd' } else if d == 14 { 'e' } else { 'f' }
}

/// The low `n` nibbles of `v` in hexadecimal, zero padded.
pub open spec fn hex_pad(v: u64, n: nat) -> Seq<char>
    decreases n,
{
    if n == 0 {
        Seq::empty()
    } else {
        hex_pad(v / 16, (n - 1) as nat) + seq![hex_char(v % 16)]
    }
}

/// An opcode name padded on the right to at least 20 columns.
pub open spec fn pad20(s: Seq<char>) -> Seq<char> {
    if s.len() >= 20 {
        s
    } else {
        s + spaces((20 - s.len()) as nat)
    }
}

/// An offset right-justified to at least 5 columns.
pub open spec fn pad5(s: Seq<char>) -> Seq<char> {
    if s.len() >= 5 {
        s
    } else {
        spaces((5 - s.len()) as nat) + s
    }
}

/// Appends `n` spaces.
fn push_spaces(out: &mut String, n: usize)
    ensures
        final(out)@ == old(out)@ + spaces(n as nat),
    decreases n,
{
    if n == 0 {
        proof {
            assert(old(out)@ + spaces(0) =~= old(out)@);
        }
        return ;
    }
    push_spaces(out, n - 1);
    out.append(" ");
    proof {
        reveal_strlit(" ");
        assert(" "@ =~= seq![' ']);
        assert(final(out)@ =~= old(out)@ + spaces(n as nat));
    }
}

/// Appends the decimal digits of `v`.
fn push_u64(out: &mut String, v: u64)
    ensures
        final(out)@ == old(out)@ + dec_digits(v),
    decreases v,
{
    if v < 10 {
        let d = digit_str(v);
        out.append(d);
        proof {
            assert(final(out)@ =~= old(out)@ + dec_digits(v));
        }
        return ;
    }
    push_u64(out, v / 10);
    let d = digit_str(v % 10);
    out.append(d);
    proof {
        assert(final(out)@ =~= old(out)@ + dec_digits(v));
    }
}

/// The one-character string for a decimal digit.
fn digit_str(d: u64) -> (r: &'static str)
    requires
        d < 10,
    ensures
        r@ == seq![digit_char(d)],
{
    let r = if d == 0 { "0" } else if d == 1 { "1" } else if d == 2 { "2" } else if d == 3 { "3" }
    else if d == 4 { "4" } else if d == 5 { "5" } else if d == 6 { "6" } else if d == 7 { "7" }
    else if d == 8 { "8" } else { "9" };
    proof {
        reveal_strlit("0");
        reveal_strlit("1");
        reveal_strlit("2");
        reveal_strlit("3");
        reveal_strlit("4");
        reveal_strlit("5");
        reveal_strlit("6");
        reveal_strlit("7");
        reveal_strlit("8");
        reveal_strlit("9");
    }
    r
}

/// The one-character string for a hexadecimal digit.
fn hex_str(d: u64) -> (r: &'static str)
    requires
        d < 16,
    ensures
        r@ == seq![hex_char(d)],
{
    if d < 10 {
        digit_str(d)
    } else {
        let r = if d == 10 { "a" } else if d == 11 { "b" } else if d == 12 { "c" } else if d == 13 {
            "d"
        } else if d == 14 {
            "e"
        } else {
            "f"
        };
        proof {
            reveal_strlit("a");
            reveal_strlit("b");
            reveal_strlit("c");
            reveal_strlit("d");
            reveal_strlit("e");
            reveal_strlit("f");
        }
        r
    }
}

/// Appends the low `n` nibbles of `v` in hexadecimal.
fn push_hex(out: &mut String, v: u64, n: usize)
    ensures
        final(out)@ == old(out)@ + hex_pad(v, n as nat),
    decreases n,
{
    if n == 0 {
        proof {
            assert(old(out)@ + hex_pad(v, 0) =~= old(out)@);
        }
        return ;
    }
    push_hex(out, v / 16, n - 1);
    let d = hex_str(v % 16);
    out.append(d);
    proof {
        assert(final(out)@ =~= old(out)@ + hex_pad(v, n as nat));
    }
}

/// Appends an opcode name padded to 20 columns.
fn push_pad20(out: &mut String, name: &str)
    ensures
        final(out)@ == old(out)@ + pad20(name@),
{
    out.append(name);
    let n = name.unicode_len();
    if n < 20 {
        push_spaces(out, 20 - n);
    }
    proof {
        assert(final(out)@ =~= old(out)@ + pad20(name@));
    }
}

/// Appends an offset right-justified to 5 columns.
fn push_pad5_u64(out: &mut String, v: u64)
    ensures
        final(out)@ == old(out)@ + pad5(dec_digits(v)),
{
    let mut digits = String::new();
    push_u64(&mut digits, v);
    proof {
        assert(Seq::<char>::empty() + dec_digits(v) =~= dec_digits(v));
    }
    let n = digits.as_str().unicode_len();
    if n < 5 {
        push_spaces(out, 5 - n);
    }
    out.append(digits.as_str());
    proof {
        assert(final(out)@ =~= old(out)@ + pad5(dec_digits(v)));
    }
}

/// Appends "true" or "false".
fn push_bool(out: &mut String, v: bool)
    ensures
        final(out)@ == old(out)@ + bool_text(v),
{
    if v {
        out.append("true");
    } else {
        out.append("false");
    }
}

/// The rendering of a boolean operand.
pub open spec fn bool_text(v: bool) -> Seq<char> {
    if v {
        "true"@
    } else {
        "false"@
    }
}

// ---------------------------------------------------------------------
// trusted text wrappers
// ---------------------------------------------------------------------

/// The decimal rendering of a signed big integer given as sign and
/// little-endian magnitude.
pub uninterp spec fn big_decimal_of(negative: bool, magnitude: Seq<u8>) -> Seq<char>;

/// Relies on num_bigint's BigInt: `from_bytes_le` then `to_string` renders
/// the integer in decimal; the text depends on sign and magnitude alone.
#[verifier::external_body]
fn big_decimal(v: &BigIntValue) -> (r: String)
    ensures
        r@ == big_decimal_of(v.negative, v.magnitude@),
{
    let sign = if v.negative {
        num_bigint::Sign::Minus
    } else {
        num_bigint::Sign::Plus
    };
    num_bigint::BigInt::from_bytes_le(sign, v.magnitude.as_slice()).to_string()
}

/// The quoted, escaped rendering of a string.
pub uninterp spec fn str_repr_of(s: Seq<char>) -> Seq<char>;

/// Relies on str's Debug formatting: quotes and escapes the text; the
/// result depends on the characters alone.
#[verifier::external_body]
fn str_repr(s: &str) -> (r: String)
    ensures
        r@ == str_repr_of(s@),
{
    format!("{:?}", s)
}

/// The quoted, escaped rendering of a byte string.
pub uninterp spec fn bytes_repr_of(b: Seq<u8>) -> Seq<char>;

/// Relies on bstr's Debug formatting for byte strings: quotes the bytes,
/// escaping the non-printable ones; the result depends on the bytes alone.
#[verifier::external_body]
fn bytes_repr(b: &[u8]) -> (r: String)
    ensures
        r@ == bytes_repr_of(b@),
{
    format!("{:?}", bstr::BStr::new(b))
}

// ---------------------------------------------------------------------
// operand texts
// ---------------------------------------------------------------------

pub open spec fn unop_name(op: UnaryOperator) -> Seq<char> {
    match op {
        UnaryOperator::Not => "Not"@,
        UnaryOperator::Invert => "Invert"@,
        UnaryOperator::Minus => "Minus"@,
        UnaryOperator::Plus => "Plus"@,
    }
}

pub open spec fn binop_name(op: BinaryOperator) -> Seq<char> {
    match op {
        BinaryOperator::Power => "Power"@,
        BinaryOperator::Multiply => "Multiply"@,
        BinaryOperator::MatrixMultiply => "MatrixMultiply"@,
        BinaryOperator::Divide => "Divide"@,
        BinaryOperator::FloorDivide => "FloorDivide"@,
        BinaryOperator::Modulo => "Modulo"@,
        BinaryOperator::Add => "Add"@,
        BinaryOperator::Subtract => "Subtract"@,
        BinaryOperator::Lshift => "Lshift"@,
        BinaryOperator::Rshift => "Rshift"@,
        BinaryOperator::And => "And"@,
        BinaryOperator::Xor => "Xor"@,
        BinaryOperator::Or => "Or"@,
    }
}

pub open spec fn cmpop_name(op: ComparisonOperator) -> Seq<char> {
    match op {
        ComparisonOperator::Greater => "Greater"@,
        ComparisonOperator::GreaterOrEqual => "GreaterOrEqual"@,
        ComparisonOperator::Less => "Less"@,
        ComparisonOperator::LessOrEqual => "LessOrEqual"@,
        ComparisonOperator::Equal => "Equal"@,
        ComparisonOperator::NotEqual => "NotEqual"@,
        ComparisonOperator::In => "In"@,
        ComparisonOperator::NotIn => "NotIn"@,
        ComparisonOperator::Is => "Is"@,
        ComparisonOperator::IsNot => "IsNot"@,
        ComparisonOperator::ExceptionMatch => "ExceptionMatch"@,
    }
}

pub open spec fn calltype_text(t: CallType) -> Seq<char> {
    match t {
        CallType::Positional(n) => "Positional("@ + dec_digits(n as u64) + ")"@,
        CallType::Keyword(n) => "Keyword("@ + dec_digits(n as u64) + ")"@,
        CallType::Ex(v) => "Ex("@ + bool_text(v) + ")"@,
    }
}

/// The table entry at `i`, or a question mark for an index the producer
/// left out of range.
pub open spec fn name_at(names: Seq<Seq<char>>, i: int) -> Seq<char> {
    if 0 <= i < names.len() {
        names[i]
    } else {
        "?"@
    }
}

/// Resolution of a joint cell/free index.
pub open spec fn cellfree_at(uv: CodeView, i: int) -> Seq<char> {
    if i < uv.cellvars.len() {
        name_at(uv.cellvars, i)
    } else {
        name_at(uv.freevars, i - uv.cellvars.len())
    }
}

/// The import instruction's optional module name, Debug style.
pub open spec fn optname_text(o: Option<usize>, names: Seq<Seq<char>>) -> Seq<char> {
    match o {
        Option::None => "None"@,
        Option::Some(i) => "Some("@ + str_repr_of(name_at(names, i as int)) + ")"@,
    }
}

/// The import instruction's symbol list, Debug style, comma separated.
pub open spec fn symbols_text(symbols: Seq<usize>, names: Seq<Seq<char>>) -> Seq<char>
    decreases symbols,
{
    if symbols.len() == 0 {
        Seq::empty()
    } else if symbols.len() == 1 {
        str_repr_of(name_at(names, symbols[0] as int))
    } else {
        str_repr_of(name_at(names, symbols[0] as int)) + ", "@ + symbols_text(
            symbols.subrange(1, symbols.len() as int),
            names,
        )
    }
}

/// The rendering of the constant-pool entry at `i`; an out-of-range
/// index is a producer error and renders as a question mark.
pub open spec fn const_at_text(uv: CodeView, i: int) -> Seq<char> {
    if 0 <= i < uv.constants.len() {
        const_text(uv.constants[i])
    } else {
        "?"@
    }
}

/// An operand line with one operand.
pub open spec fn w1(name: Seq<char>, a: Seq<char>) -> Seq<char> {
    pad20(name) + " ("@ + a + ")\n"@
}

pub open spec fn w2(name: Seq<char>, a: Seq<char>, b: Seq<char>) -> Seq<char> {
    pad20(name) + " ("@ + a + ", "@ + b + ")\n"@
}

pub open spec fn w3(name: Seq<char>, a: Seq<char>, b: Seq<char>, c: Seq<char>) -> Seq<char> {
    pad20(name) + " ("@ + a + ", "@ + b + ", "@ + c + ")\n"@
}

/// One constant rendered as a literal of the language: decimal integers,
/// quoted strings, prefixed byte strings, parenthesized tuples with the
/// singleton trailing comma, the None and Ellipsis spellings, a nested
/// code object's identity header.  Float and complex constants render as
/// their IEEE-754 bit patterns; the numeric literal text needs floating
/// point and so stands outside the verified core.
pub open spec fn const_text(cv: ConstView) -> Seq<char>
    decreases crank(cv),
{
    match cv {
        ConstView::Integer { negative, magnitude } => big_decimal_of(negative, magnitude),
        ConstView::Float { bits } => "float-bits:0x"@ + hex_pad(bits, 16),
        ConstView::Complex { re_bits, im_bits } => "complex-bits:0x"@ + hex_pad(re_bits, 16)
            + ":0x"@ + hex_pad(im_bits, 16),
        ConstView::Boolean { value } => if value {
            "True"@
        } else {
            "False"@
        },
        ConstView::Str { value } => str_repr_of(value),
        ConstView::Bytes { value } => "b"@ + bytes_repr_of(value),
        ConstView::Code { code } => code_header(code),
        ConstView::Tuple { elements } => if elements.len() == 1 {
            "("@ + const_text(elements[0]) + ",)"@
        } else {
            "("@ + tuple_items_text(elements) + ")"@
        },
        ConstView::NoneValue => "None"@,
        ConstView::Ellipsis => "..."@,
    }
}

/// Tuple elements, comma separated.
pub open spec fn tuple_items_text(s: Seq<ConstView>) -> Seq<char>
    decreases cranks(s),
{
    if s.len() == 0 {
        Seq::empty()
    } else if s.len() == 1 {
        const_text(s[0])
    } else {
        const_text(s[0]) + ", "@ + tuple_items_text(s.subrange(1, s.len() as int))
    }
}

/// A code unit's one-line identity, as in its debug form.
pub open spec fn code_header(uv: CodeView) -> Seq<char> {
    "<code object "@ + uv.obj_name + " at ??? file "@ + str_repr_of(uv.source_path) + ", line "@
        + dec_digits(uv.first_line_number as u64) + ">"@
}

/// Does some instruction of `s` carry offset `off` as a label?
pub open spec fn ivs_has_target(s: Seq<InstrView>, off: int) -> bool {
    exists|k: int|
        0 <= k < s.len() && (match #[trigger] s[k] {
            InstrView::Plain(i) => off == off && instr_has_target_int(i, off),
            InstrView::ImportView { .. } => false,
        })
}

/// `instr_has_target` over an integer offset.
pub open spec fn instr_has_target_int(i: Instruction, off: int) -> bool {
    0 <= off <= usize::MAX && instr_has_target(i, off as usize)
}

/// The operand line of one instruction, after the marker and offset.
pub open spec fn instr_text(iv: InstrView, uv: CodeView) -> Seq<char> {
    match iv {
        InstrView::Plain(Instruction::ImportStar) => "ImportStar\n"@,
        InstrView::Plain(Instruction::Subscript) => "Subscript\n"@,
        InstrView::Plain(Instruction::StoreSubscript) => "StoreSubscript\n"@,
        InstrView::Plain(Instruction::DeleteSubscript) => "DeleteSubscript\n"@,
        InstrView::Plain(Instruction::Pop) => "Pop\n"@,
        InstrView::Plain(Instruction::Duplicate) => "Duplicate\n"@,
        InstrView::Plain(Instruction::GetIter) => "GetIter\n"@,
        InstrView::Plain(Instruction::Continue) => "Continue\n"@,
        InstrView::Plain(Instruction::Break) => "Break\n"@,
        InstrView::Plain(Instruction::MakeFunction) => "MakeFunction\n"@,
        InstrView::Plain(Instruction::ReturnValue) => "ReturnValue\n"@,
        InstrView::Plain(Instruction::YieldValue) => "YieldValue\n"@,
        InstrView::Plain(Instruction::YieldFrom) => "YieldFrom\n"@,
        InstrView::Plain(Instruction::SetupAnnotation) => "SetupAnnotation\n"@,
        InstrView::Plain(Instruction::EnterFinally) => "EnterFinally\n"@,
        InstrView::Plain(Instruction::EndFinally) => "EndFinally\n"@,
        InstrView::Plain(Instruction::WithCleanupStart) => "WithCleanupStart\n"@,
        InstrView::Plain(Instruction::WithCleanupFinish) => "WithCleanupFinish\n"@,
        InstrView::Plain(Instruction::PopBlock) => "PopBlock\n"@,
        InstrView::Plain(Instruction::PrintExpr) => "PrintExpr\n"@,
        InstrView::Plain(Instruction::LoadBuildClass) => "LoadBuildClass\n"@,
        InstrView::Plain(Instruction::PopException) => "PopException\n"@,
        InstrView::Plain(Instruction::GetAwaitable) => "GetAwaitable\n"@,
        InstrView::Plain(Instruction::BeforeAsyncWith) => "BeforeAsyncWith\n"@,
        InstrView::Plain(Instruction::GetAIter) => "GetAIter\n"@,
        InstrView::Plain(Instruction::GetANext) => "GetANext\n"@,
        InstrView::Plain(Instruction::LoadNameAny(idx)) => w2("LoadNameAny"@, dec_digits(idx as u64), name_at(uv.names, idx as int)),
        InstrView::Plain(Instruction::LoadGlobal(idx)) => w2("LoadGlobal"@, dec_digits(idx as u64), name_at(uv.names, idx as int)),
        InstrView::Plain(Instruction::StoreLocal(idx)) => w2("StoreLocal"@, dec_digits(idx as u64), name_at(uv.names, idx as int)),
        InstrView::Plain(Instruction::StoreGlobal(idx)) => w2("StoreGlobal"@, dec_digits(idx as u64), name_at(uv.names, idx as int)),
        InstrView::Plain(Instruction::DeleteLocal(idx)) => w2("DeleteLocal"@, dec_digits(idx as u64), name_at(uv.names, idx as int)),
        InstrView::Plain(Instruction::DeleteGlobal(idx)) => w2("DeleteGlobal"@, dec_digits(idx as u64), name_at(uv.names, idx as int)),
        InstrView::Plain(Instruction::LoadFast(idx)) => w2("LoadFast"@, dec_digits(idx as u64), name_at(uv.varnames, idx as int)),
        InstrView::Plain(Instruction::StoreFast(idx)) => w2("StoreFast"@, dec_digits(idx as u64), name_at(uv.varnames, idx as int)),
        InstrView::Plain(Instruction::DeleteFast(idx)) => w2("DeleteFast"@, dec_digits(idx as u64), name_at(uv.varnames, idx as int)),
        InstrView::Plain(Instruction::LoadDeref(idx)) => w2("LoadDeref"@, dec_digits(idx as u64), cellfree_at(uv, idx as int)),
        InstrView::Plain(Instruction::LoadClassDeref(idx)) => w2("LoadClassDeref"@, dec_digits(idx as u64), cellfree_at(uv, idx as int)),
        InstrView::Plain(Instruction::StoreDeref(idx)) => w2("StoreDeref"@, dec_digits(idx as u64), cellfree_at(uv, idx as int)),
        InstrView::Plain(Instruction::DeleteDeref(idx)) => w2("DeleteDeref"@, dec_digits(idx as u64), cellfree_at(uv, idx as int)),
        InstrView::Plain(Instruction::LoadClosure(idx)) => w2("LoadClosure"@, dec_digits(idx as u64), cellfree_at(uv, idx as int)),
        InstrView::Plain(Instruction::ImportFrom { idx }) => w1("ImportFrom"@, name_at(uv.names, idx as int)),
        InstrView::Plain(Instruction::StoreAttr { idx }) => w1("StoreAttr"@, name_at(uv.names, idx as int)),
        InstrView::Plain(Instruction::DeleteAttr { idx }) => w1("DeleteAttr"@, name_at(uv.names, idx as int)),
        InstrView::Plain(Instruction::LoadAttr { idx }) => w1("LoadAttr"@, name_at(uv.names, idx as int)),
        InstrView::Plain(Instruction::LoadConst { idx }) => w1("LoadConst"@, const_at_text(uv, idx as int)),
        InstrView::Plain(Instruction::UnaryOperation { op }) => w1("UnaryOperation"@, unop_name(op)),
        InstrView::Plain(Instruction::BinaryOperation { op, inplace }) => w2("BinaryOperation"@, binop_name(op), bool_text(inplace)),
        InstrView::Plain(Instruction::CompareOperation { op }) => w1("CompareOperation"@, cmpop_name(op)),
        InstrView::Plain(Instruction::CallFunction { typ }) => w1("CallFunction"@, calltype_text(typ)),
        InstrView::Plain(Instruction::Rotate { amount }) => w1("Rotate"@, dec_digits(amount as u64)),
        InstrView::Plain(Instruction::Raise { argc }) => w1("Raise"@, dec_digits(argc as u64)),
        InstrView::Plain(Instruction::BuildString { size }) => w1("BuildString"@, dec_digits(size as u64)),
        InstrView::Plain(Instruction::BuildSlice { size }) => w1("BuildSlice"@, dec_digits(size as u64)),
        InstrView::Plain(Instruction::ListAppend { i }) => w1("ListAppend"@, dec_digits(i as u64)),
        InstrView::Plain(Instruction::SetAdd { i }) => w1("SetAdd"@, dec_digits(i as u64)),
        InstrView::Plain(Instruction::MapAdd { i }) => w1("MapAdd"@, dec_digits(i as u64)),
        InstrView::Plain(Instruction::MapAddRev { i }) => w1("MapAddRev"@, dec_digits(i as u64)),
        InstrView::Plain(Instruction::UnpackSequence { size }) => w1("UnpackSequence"@, dec_digits(size as u64)),
        InstrView::Plain(Instruction::Reverse { amount }) => w1("Reverse"@, dec_digits(amount as u64)),
        InstrView::Plain(Instruction::Jump { target }) => w1("Jump"@, dec_digits(target.0 as u64)),
        InstrView::Plain(Instruction::JumpIfTrue { target }) => w1("JumpIfTrue"@, dec_digits(target.0 as u64)),
        InstrView::Plain(Instruction::JumpIfFalse { target }) => w1("JumpIfFalse"@, dec_digits(target.0 as u64)),
        InstrView::Plain(Instruction::JumpIfTrueOrPop { target }) => w1("JumpIfTrueOrPop"@, dec_digits(target.0 as u64)),
        InstrView::Plain(Instruction::JumpIfFalseOrPop { target }) => w1("JumpIfFalseOrPop"@, dec_digits(target.0 as u64)),
        InstrView::Plain(Instruction::ForIter { target }) => w1("ForIter"@, dec_digits(target.0 as u64)),
        InstrView::Plain(Instruction::SetupFinally { handler }) => w1("SetupFinally"@, dec_digits(handler.0 as u64)),
        InstrView::Plain(Instruction::SetupExcept { handler }) => w1("SetupExcept"@, dec_digits(handler.0 as u64)),
        InstrView::Plain(Instruction::SetupWith { end }) => w1("SetupWith"@, dec_digits(end.0 as u64)),
        InstrView::Plain(Instruction::SetupAsyncWith { end }) => w1("SetupAsyncWith"@, dec_digits(end.0 as u64)),
        InstrView::Plain(Instruction::SetupLoop { start, end }) => w2("SetupLoop"@, dec_digits(start.0 as u64), dec_digits(end.0 as u64)),
        InstrView::Plain(Instruction::BuildTuple { size, unpack }) => w2("BuildTuple"@, dec_digits(size as u64), bool_text(unpack)),
        InstrView::Plain(Instruction::BuildList { size, unpack }) => w2("BuildList"@, dec_digits(size as u64), bool_text(unpack)),
        InstrView::Plain(Instruction::BuildSet { size, unpack }) => w2("BuildSet"@, dec_digits(size as u64), bool_text(unpack)),
        InstrView::Plain(Instruction::BuildMap { size, unpack, for_call }) => w3("BuildMap"@, dec_digits(size as u64), bool_text(unpack), bool_text(for_call)),
        InstrView::Plain(Instruction::UnpackEx { before, after }) => w2("UnpackEx"@, dec_digits(before as u64), dec_digits(after as u64)),
        InstrView::Plain(Instruction::FormatValue { conversion }) => "FormatValue\n"@,
        InstrView::Plain(Instruction::Import { .. }) => "Import\n"@,
        InstrView::ImportView { name_idx, symbols_idx, level } => w3(
            "Import"@,
            optname_text(name_idx, uv.names),
            "("@ + symbols_text(symbols_idx, uv.names) + ")"@,
            dec_digits(level as u64),
        ),
    }
}

// ---------------------------------------------------------------------
// executable rendering
// ---------------------------------------------------------------------

fn w1_s(name: &str, a: &str) -> (r: String)
    ensures
        r@ == w1(name@, a@),
{
    let mut out = String::new();
    push_pad20(&mut out, name);
    out.append(" (");
    out.append(a);
    out.append(")\n");
    proof {
        assert(out@ =~= w1(name@, a@));
    }
    out
}

fn w2_s(name: &str, a: &str, b: &str) -> (r: String)
    ensures
        r@ == w2(name@, a@, b@),
{
    let mut out = String::new();
    push_pad20(&mut out, name);
    out.append(" (");
    out.append(a);
    out.append(", ");
    out.append(b);
    out.append(")\n");
    proof {
        assert(out@ =~= w2(name@, a@, b@));
    }
    out
}

fn w3_s(name: &str, a: &str, b: &str, c: &str) -> (r: String)
    ensures
        r@ == w3(name@, a@, b@, c@),
{
    let mut out = String::new();
    push_pad20(&mut out, name);
    out.append(" (");
    out.append(a);
    out.append(", ");
    out.append(b);
    out.append(", ");
    out.append(c);
    out.append(")\n");
    proof {
        assert(out@ =~= w3(name@, a@, b@, c@));
    }
    out
}

fn unop_str(op: &UnaryOperator) -> (r: &'static str)
    ensures
        r@ == unop_name(*op),
{
    match op {
        UnaryOperator::Not => "Not",
        UnaryOperator::Invert => "Invert",
        UnaryOperator::Minus => "Minus",
        UnaryOperator::Plus => "Plus",
    }
}

fn binop_str(op: &BinaryOperator) -> (r: &'static str)
    ensures
        r@ == binop_name(*op),
{
    match op {
        BinaryOperator::Power => "Power",
        BinaryOperator::Multiply => "Multiply",
        BinaryOperator::MatrixMultiply => "MatrixMultiply",
        BinaryOperator::Divide => "Divide",
        BinaryOperator::FloorDivide => "FloorDivide",
        BinaryOperator::Modulo => "Modulo",
        BinaryOperator::Add => "Add",
        BinaryOperator::Subtract => "Subtract",
        BinaryOperator::Lshift => "Lshift",
        BinaryOperator::Rshift => "Rshift",
        BinaryOperator::And => "And",
        BinaryOperator::Xor => "Xor",
        BinaryOperator::Or => "Or",
    }
}

fn cmpop_str(op: &ComparisonOperator) -> (r: &'static str)
    ensures
        r@ == cmpop_name(*op),
{
    match op {
        ComparisonOperator::Greater => "Greater",
        ComparisonOperator::GreaterOrEqual => "GreaterOrEqual",
        ComparisonOperator::Less => "Less",
        ComparisonOperator::LessOrEqual => "LessOrEqual",
        ComparisonOperator::Equal => "Equal",
        ComparisonOperator::NotEqual => "NotEqual",
        ComparisonOperator::In => "In",
        ComparisonOperator::NotIn => "NotIn",
        ComparisonOperator::Is => "Is",
        ComparisonOperator::IsNot => "IsNot",
        ComparisonOperator::ExceptionMatch => "ExceptionMatch",
    }
}

fn calltype_x(t: &CallType) -> (r: String)
    ensures
        r@ == calltype_text(*t),
{
    let mut out = String::new();
    match t {
        CallType::Positional(n) => {
            out.append("Positional(");
            push_u64(&mut out, *n as u64);
            out.append(")");
        },
        CallType::Keyword(n) => {
            out.append("Keyword(");
            push_u64(&mut out, *n as u64);
            out.append(")");
        },
        CallType::Ex(v) => {
            out.append("Ex(");
            push_bool(&mut out, *v);
            out.append(")");
        },
    }
    proof {
        assert(out@ =~= calltype_text(*t));
    }
    out
}

/// The table entry at `i`, or a question mark.
fn name_at_x<'a, N: NameStr>(v: &'a Vec<N>, i: usize) -> (r: &'a str)
    ensures
        r@ == name_at(crate::view::nviews_of(v@), i as int),
{
    if i < v.len() {
        v[i].as_str_ref()
    } else {
        proof {
            reveal_strlit("?");
        }
        "?"
    }
}

/// Resolution of a joint cell/free index.
fn cellfree_x<'a, C: Constant>(u: &'a CodeObject<C, C::Name>, i: usize) -> (r: &'a str)
    ensures
        r@ == cellfree_at(uview(*u), i as int),
{
    if i < u.cellvars.len() {
        name_at_x(&u.cellvars, i)
    } else {
        name_at_x(&u.freevars, i - u.cellvars.len())
    }
}

fn optname_x<C: Constant>(u: &CodeObject<C, C::Name>, o: &Option<usize>) -> (r: String)
    ensures
        r@ == optname_text(*o, uview(*u).names),
{
    let mut out = String::new();
    match o {
        Option::None => {
            out.append("None");
        },
        Option::Some(i) => {
            out.append("Some(");
            let q = str_repr(name_at_x(&u.names, *i));
            out.append(q.as_str());
            out.append(")");
        },
    }
    proof {
        assert(out@ =~= optname_text(*o, uview(*u).names));
    }
    out
}

fn symbols_x<C: Constant>(u: &CodeObject<C, C::Name>, symbols: &Vec<usize>, j: usize) -> (r:
    String)
    requires
        j <= symbols@.len(),
    ensures
        r@ == symbols_text(symbols@.skip(j as int), uview(*u).names),
    decreases symbols@.len() - j,
{
    let mut out = String::new();
    if j >= symbols.len() {
        proof {
            assert(symbols@.skip(j as int) =~= Seq::<usize>::empty());
        }
        return out;
    }
    let q = str_repr(name_at_x(&u.names, symbols[j]));
    out.append(q.as_str());
    if j + 1 < symbols.len() {
        out.append(", ");
        let rest = symbols_x(u, symbols, j + 1);
        out.append(rest.as_str());
    }
    proof {
        let suf = symbols@.skip(j as int);
        assert(suf[0] == symbols@[j as int]);
        assert(suf.subrange(1, suf.len() as int) =~= symbols@.skip(j + 1));
        assert(out@ =~= symbols_text(suf, uview(*u).names));
    }
    out
}

/// A code unit's one-line identity.
fn code_header_x<C: Constant>(u: &CodeObject<C, C::Name>) -> (r: String)
    ensures
        r@ == code_header(uview(*u)),
{
    let mut out = String::new();
    out.append("<code object ");
    out.append(u.obj_name.as_str_ref());
    out.append(" at ??? file ");
    let q = str_repr(u.source_path.as_str_ref());
    out.append(q.as_str());
    out.append(", line ");
    push_u64(&mut out, u.first_line_number as u64);
    out.append(">");
    proof {
        assert(out@ =~= code_header(uview(*u)));
    }
    out
}

impl<'a, C: Constant> BorrowedConstant<'a, C, C::Name> {
    /// Renders the constant as a literal of the language.
    pub fn fmt_display(self) -> (r: String)
        ensures
            r@ == const_text(self.bview()),
        decreases crank(self.bview()),
    {
        let mut out = String::new();
        match self {
            BorrowedConstant::Integer { value } => {
                let d = big_decimal(value);
                out.append(d.as_str());
            },
            BorrowedConstant::Float { bits } => {
                out.append("float-bits:0x");
                push_hex(&mut out, bits, 16);
            },
            BorrowedConstant::Complex { re_bits, im_bits } => {
                out.append("complex-bits:0x");
                push_hex(&mut out, re_bits, 16);
                out.append(":0x");
                push_hex(&mut out, im_bits, 16);
            },
            BorrowedConstant::Boolean { value } => {
                if value {
                    out.append("True");
                } else {
                    out.append("False");
                }
            },
            BorrowedConstant::Str { value } => {
                let q = str_repr(value);
                out.append(q.as_str());
            },
            BorrowedConstant::Bytes { value } => {
                out.append("b");
                let q = bytes_repr(value);
                out.append(q.as_str());
            },
            BorrowedConstant::Code { code } => {
                let h = code_header_x(code);
                out.append(h.as_str());
            },
            BorrowedConstant::Tuple { elements } => {
                let ghost views = elements@.map(|k: int, c: C| c.cview());
                out.append("(");
                if elements.len() == 1 {
                    proof {
                        assert(self.bview() == (ConstView::Tuple { elements: views }));
                        assert(crank(self.bview()) == 1 + cranks(views));
                        assert(views[0] == elements@[0].cview());
                        lemma_cranks_elem(views, 0);
                    }
                    let b2 = elements[0].borrow_constant();
                    proof {
                        assert(crank(b2.bview()) < crank(self.bview()));
                    }
                    let item = b2.fmt_display();
                    out.append(item.as_str());
                    out.append(",)");
                } else {
                    proof {
                        assert(views.skip(0) =~= views);
                        assert(self.bview() == (ConstView::Tuple { elements: views }));
                        assert(crank(self.bview()) == 1 + cranks(views));
                    }
                    let items = tuple_items_x(elements, 0, Ghost(views));
                    out.append(items.as_str());
                    out.append(")");
                }
                proof {
                    assert(views.skip(0) =~= views);
                }
            },
            BorrowedConstant::NoneValue => {
                out.append("None");
            },
            BorrowedConstant::Ellipsis => {
                out.append("...");
            },
        }
        proof {
            assert(out@ =~= const_text(self.bview()));
        }
        out
    }
}

/// Tuple elements from index `j` on, comma separated.
fn tuple_items_x<C: Constant>(elements: &[C], j: usize, Ghost(views): Ghost<Seq<ConstView>>) -> (r:
    String)
    requires
        views == elements@.map(|k: int, c: C| c.cview()),
        j <= elements@.len(),
    ensures
        r@ == tuple_items_text(views.skip(j as int)),
    decreases cranks(views.skip(j as int)),
{
    let mut out = String::new();
    if j >= elements.len() {
        proof {
            assert(views.skip(j as int) =~= Seq::<ConstView>::empty());
        }
        return out;
    }
    proof {
        let suf = views.skip(j as int);
        assert(suf[0] == views[j as int]);
        assert(views[j as int] == elements@[j as int].cview());
        assert(suf.subrange(1, suf.len() as int) =~= views.skip(j + 1));
    }
    let item = elements[j].borrow_constant().fmt_display();
    out.append(item.as_str());
    if j + 1 < elements.len() {
        out.append(", ");
        let rest = tuple_items_x(elements, j + 1, Ghost(views));
        out.append(rest.as_str());
    }
    proof {
        let suf = views.skip(j as int);
        assert(out@ =~= tuple_items_text(suf));
    }
    out
}

/// The operand line of one instruction.
#[verifier::rlimit(100)]
fn instr_text_x<C: Constant>(u: &CodeObject<C, C::Name>, ins: &Instruction) -> (r: String)
    ensures
        r@ == instr_text(iview(*ins), uview(*u)),
{
    let out: String = match ins {
        Instruction::Import { name_idx, symbols_idx, level } => {
            let a = optname_x(u, name_idx);
            let mut b = String::new();
            b.append("(");
            let items = symbols_x(u, symbols_idx, 0);
            b.append(items.as_str());
            b.append(")");
            let mut c = String::new();
            push_u64(&mut c, *level as u64);
            proof {
                assert(symbols_idx@.skip(0) =~= symbols_idx@);
                assert(b@ =~= "("@ + symbols_text(symbols_idx@, uview(*u).names) + ")"@);
                assert(c@ =~= dec_digits(*level as u64));
            }
            w3_s("Import", a.as_str(), b.as_str(), c.as_str())
        },
        Instruction::ImportStar => { "ImportStar\n".to_owned() },
        Instruction::Subscript => { "Subscript\n".to_owned() },
        Instruction::StoreSubscript => { "StoreSubscript\n".to_owned() },
        Instruction::DeleteSubscript => { "DeleteSubscript\n".to_owned() },
        Instruction::Pop => { "Pop\n".to_owned() },
        Instruction::Duplicate => { "Duplicate\n".to_owned() },
        Instruction::GetIter => { "GetIter\n".to_owned() },
        Instruction::Continue => { "Continue\n".to_owned() },
        Instruction::Break => { "Break\n".to_owned() },
        Instruction::MakeFunction => { "MakeFunction\n".to_owned() },
        Instruction::ReturnValue => { "ReturnValue\n".to_owned() },
        Instruction::YieldValue => { "YieldValue\n".to_owned() },
        Instruction::YieldFrom => { "YieldFrom\n".to_owned() },
        Instruction::SetupAnnotation => { "SetupAnnotation\n".to_owned() },
        Instruction::EnterFinally => { "EnterFinally\n".to_owned() },
        Instruction::EndFinally => { "EndFinally\n".to_owned() },
        Instruction::WithCleanupStart => { "WithCleanupStart\n".to_owned() },
        Instruction::WithCleanupFinish => { "WithCleanupFinish\n".to_owned() },
        Instruction::PopBlock => { "PopBlock\n".to_owned() },
        Instruction::PrintExpr => { "PrintExpr\n".to_owned() },
        Instruction::LoadBuildClass => { "LoadBuildClass\n".to_owned() },
        Instruction::PopException => { "PopException\n".to_owned() },
        Instruction::GetAwaitable => { "GetAwaitable\n".to_owned() },
        Instruction::BeforeAsyncWith => { "BeforeAsyncWith\n".to_owned() },
        Instruction::GetAIter => { "GetAIter\n".to_owned() },
        Instruction::GetANext => { "GetANext\n".to_owned() },
        Instruction::LoadNameAny(idx) => {
            let mut a = String::new();
            push_u64(&mut a, *idx as u64);
            let b = name_at_x(&u.names, *idx);
            w2_s("LoadNameAny", a.as_str(), b)
        },
        Instruction::LoadGlobal(idx) => {
            let mut a = String::new();
            push_u64(&mut a, *idx as u64);
            let b = name_at_x(&u.names, *idx);
            w2_s("LoadGlobal", a.as_str(), b)
        },
        Instruction::StoreLocal(idx) => {
            let mut a = String::new();
            push_u64(&mut a, *idx as u64);
            let b = name_at_x(&u.names, *idx);
            w2_s("StoreLocal", a.as_str(), b)
        },
        Instruction::StoreGlobal(idx) => {
            let mut a = String::new();
            push_u64(&mut a, *idx as u64);
            let b = name_at_x(&u.names, *idx);
            w2_s("StoreGlobal", a.as_str(), b)
        },
        Instruction::DeleteLocal(idx) => {
            let mut a = String::new();
            push_u64(&mut a, *idx as u64);
            let b = name_at_x(&u.names, *idx);
            w2_s("DeleteLocal", a.as_str(), b)
        },
        Instruction::DeleteGlobal(idx) => {
            let mut a = String::new();
            push_u64(&mut a, *idx as u64);
            let b = name_at_x(&u.names, *idx);
            w2_s("DeleteGlobal", a.as_str(), b)
        },
        Instruction::LoadFast(idx) => {
            let mut a = String::new();
            push_u64(&mut a, *idx as u64);
            let b = name_at_x(&u.varnames, *idx);
            w2_s("LoadFast", a.as_str(), b)
        },
        Instruction::StoreFast(idx) => {
            let mut a = String::new();
            push_u64(&mut a, *idx as u64);
            let b = name_at_x(&u.varnames, *idx);
            w2_s("StoreFast", a.as_str(), b)
        },
        Instruction::DeleteFast(idx) => {
            let mut a = String::new();
            push_u64(&mut a, *idx as u64);
            let b = name_at_x(&u.varnames, *idx);
            w2_s("DeleteFast", a.as_str(), b)
        },
        Instruction::LoadDeref(idx) => {
            let mut a = String::new();
            push_u64(&mut a, *idx as u64);
            let b = cellfree_x(u, *idx);
            w2_s("LoadDeref", a.as_str(), b)
        },
        Instruction::LoadClassDeref(idx) => {
            let mut a = String::new();
            push_u64(&mut a, *idx as u64);
            let b = cellfree_x(u, *idx);
            w2_s("LoadClassDeref", a.as_str(), b)
        },
        Instruction::StoreDeref(idx) => {
            let mut a = String::new();
            push_u64(&mut a, *idx as u64);
            let b = cellfree_x(u, *idx);
            w2_s("StoreDeref", a.as_str(), b)
        },
        Instruction::DeleteDeref(idx) => {
            let mut a = String::new();
            push_u64(&mut a, *idx as u64);
            let b = cellfree_x(u, *idx);
            w2_s("DeleteDeref", a.as_str(), b)
        },
        Instruction::LoadClosure(idx) => {
            let mut a = String::new();
            push_u64(&mut a, *idx as u64);
            let b = cellfree_x(u, *idx);
            w2_s("LoadClosure", a.as_str(), b)
        },
        Instruction::ImportFrom { idx } => {
            let a = name_at_x(&u.names, *idx);
            w1_s("ImportFrom", a)
        },
        Instruction::StoreAttr { idx } => {
            let a = name_at_x(&u.names, *idx);
            w1_s("StoreAttr", a)
        },
        Instruction::DeleteAttr { idx } => {
            let a = name_at_x(&u.names, *idx);
            w1_s("DeleteAttr", a)
        },
        Instruction::LoadAttr { idx } => {
            let a = name_at_x(&u.names, *idx);
            w1_s("LoadAttr", a)
        },
        Instruction::LoadConst { idx } => {
            let a = const_at_x(u, *idx);
            w1_s("LoadConst", a.as_str())
        },
        Instruction::UnaryOperation { op } => {
            let a = unop_str(op);
            w1_s("UnaryOperation", a)
        },
        Instruction::BinaryOperation { op, inplace } => {
            let a = binop_str(op);
            let mut b = String::new();
            push_bool(&mut b, *inplace);
            w2_s("BinaryOperation", a, b.as_str())
        },
        Instruction::CompareOperation { op } => {
            let a = cmpop_str(op);
            w1_s("CompareOperation", a)
        },
        Instruction::CallFunction { typ } => {
            let a = calltype_x(typ);
            w1_s("CallFunction", a.as_str())
        },
        Instruction::Rotate { amount } => {
            let mut a = String::new();
            push_u64(&mut a, *amount as u64);
            w1_s("Rotate", a.as_str())
        },
        Instruction::Raise { argc } => {
            let mut a = String::new();
            push_u64(&mut a, *argc as u64);
            w1_s("Raise", a.as_str())
        },
        Instruction::BuildString { size } => {
            let mut a = String::new();
            push_u64(&mut a, *size as u64);
            w1_s("BuildString", a.as_str())
        },
        Instruction::BuildSlice { size } => {
            let mut a = String::new();
            push_u64(&mut a, *size as u64);
            w1_s("BuildSlice", a.as_str())
        },
        Instruction::ListAppend { i } => {
            let mut a = String::new();
            push_u64(&mut a, *i as u64);
            w1_s("ListAppend", a.as_str())
        },
        Instruction::SetAdd { i } => {
            let mut a = String::new();
            push_u64(&mut a, *i as u64);
            w1_s("SetAdd", a.as_str())
        },
        Instruction::MapAdd { i } => {
            let mut a = String::new();
            push_u64(&mut a, *i as u64);
            w1_s("MapAdd", a.as_str())
        },
        Instruction::MapAddRev { i } => {
            let mut a = String::new();
            push_u64(&mut a, *i as u64);
            w1_s("MapAddRev", a.as_str())
        },
        Instruction::UnpackSequence { size } => {
            let mut a = String::new();
            push_u64(&mut a, *size as u64);
            w1_s("UnpackSequence", a.as_str())
        },
        Instruction::Reverse { amount } => {
            let mut a = String::new();
            push_u64(&mut a, *amount as u64);
            w1_s("Reverse", a.as_str())
        },
        Instruction::Jump { target } => {
            let mut a = String::new();
            push_u64(&mut a, target.0 as u64);
            w1_s("Jump", a.as_str())
        },
        Instruction::JumpIfTrue { target } => {
            let mut a = String::new();
            push_u64(&mut a, target.0 as u64);
            w1_s("JumpIfTrue", a.as_str())
        },
        Instruction::JumpIfFalse { target } => {
            let mut a = String::new();
            push_u64(&mut a, target.0 as u64);
            w1_s("JumpIfFalse", a.as_str())
        },
        Instruction::JumpIfTrueOrPop { target } => {
            let mut a = String::new();
            push_u64(&mut a, target.0 as u64);
            w1_s("JumpIfTrueOrPop", a.as_str())
        },
        Instruction::JumpIfFalseOrPop { target } => {
            let mut a = String::new();
            push_u64(&mut a, target.0 as u64);
            w1_s("JumpIfFalseOrPop", a.as_str())
        },
        Instruction::ForIter { target } => {
            let mut a = String::new();
            push_u64(&mut a, target.0 as u64);
            w1_s("ForIter", a.as_str())
        },
        Instruction::SetupFinally { handler } => {
            let mut a = String::new();
            push_u64(&mut a, handler.0 as u64);
            w1_s("SetupFinally", a.as_str())
        },
        Instruction::SetupExcept { handler } => {
            let mut a = String::new();
            push_u64(&mut a, handler.0 as u64);
            w1_s("SetupExcept", a.as_str())
        },
        Instruction::SetupWith { end } => {
            let mut a = String::new();
            push_u64(&mut a, end.0 as u64);
            w1_s("SetupWith", a.as_str())
        },
        Instruction::SetupAsyncWith { end } => {
            let mut a = String::new();
            push_u64(&mut a, end.0 as u64);
            w1_s("SetupAsyncWith", a.as_str())
        },
        Instruction::SetupLoop { start, end } => {
            let mut a = String::new();
            push_u64(&mut a, start.0 as u64);
            let mut b = String::new();
            push_u64(&mut b, end.0 as u64);
            w2_s("SetupLoop", a.as_str(), b.as_str())
        },
        Instruction::BuildTuple { size, unpack } => {
            let mut a = String::new();
            push_u64(&mut a, *size as u64);
            let mut b = String::new();
            push_bool(&mut b, *unpack);
            w2_s("BuildTuple", a.as_str(), b.as_str())
        },
        Instruction::BuildList { size, unpack } => {
            let mut a = String::new();
            push_u64(&mut a, *size as u64);
            let mut b = String::new();
            push_bool(&mut b, *unpack);
            w2_s("BuildList", a.as_str(), b.as_str())
        },
        Instruction::BuildSet { size, unpack } => {
            let mut a = String::new();
            push_u64(&mut a, *size as u64);
            let mut b = String::new();
            push_bool(&mut b, *unpack);
            w2_s("BuildSet", a.as_str(), b.as_str())
        },
        Instruction::BuildMap { size, unpack, for_call } => {
            let mut a = String::new();
            push_u64(&mut a, *size as u64);
            let mut b = String::new();
            push_bool(&mut b, *unpack);
            let mut c = String::new();
            push_bool(&mut c, *for_call);
            w3_s("BuildMap", a.as_str(), b.as_str(), c.as_str())
        },
        Instruction::UnpackEx { before, after } => {
            let mut a = String::new();
            push_u64(&mut a, *before as u64);
            let mut b = String::new();
            push_u64(&mut b, *after as u64);
            w2_s("UnpackEx", a.as_str(), b.as_str())
        },
        Instruction::FormatValue { .. } => "FormatValue\n".to_owned(),
    };
    proof {
        assert(out@ == instr_text(iview(*ins), uview(*u)));
    }
    out
}

/// The rendering of the constant-pool entry at `i`.
fn const_at_x<C: Constant>(u: &CodeObject<C, C::Name>, i: usize) -> (r: String)
    ensures
        r@ == const_at_text(uview(*u), i as int),
{
    if i < u.constants.len() {
        u.constants[i].borrow_constant().fmt_display()
    } else {
        let mut out = String::new();
        out.append("?");
        proof {
            assert(out@ =~= "?"@);
        }
        out
    }
}

// ---------------------------------------------------------------------
// lines, units and recursive expansion
// ---------------------------------------------------------------------

/// The text of line `k` of a unit's listing: indentation, the `>>`
/// marker on jump targets, the right-justified offset, and the operand
/// line; a `LoadConst` of a nested code object expands recursively in
/// expand mode.
pub open spec fn line_text(uv: CodeView, k: int, expand: bool, ind: Seq<char>) -> Seq<char>
    decreases urank(uv), uv.instructions.len() - k, 0int,
    via line_text_dec
{
    let pre = ind + (if ivs_has_target(uv.instructions, k) {
        ">>"@
    } else {
        "  "@
    }) + " "@ + pad5(dec_digits(k as u64)) + " "@;
    match uv.instructions[k] {
        InstrView::Plain(Instruction::LoadConst { idx }) => {
            if expand && 0 <= idx < uv.constants.len() && (uv.constants[idx as int] matches
                ConstView::Code { code }) {
                pre + pad20("LoadConst"@) + " ("@ + code_header(
                    uv.constants[idx as int]->Code_code,
                ) + "):\n"@ + unit_lines(
                    uv.constants[idx as int]->Code_code,
                    0,
                    expand,
                    ind + spaces(10),
                )
            } else {
                pre + instr_text(uv.instructions[k], uv)
            }
        },
        _ => pre + instr_text(uv.instructions[k], uv),
    }
}

#[via_fn]
proof fn line_text_dec(uv: CodeView, k: int, expand: bool, ind: Seq<char>) {
    match uv.instructions[k] {
        InstrView::Plain(Instruction::LoadConst { idx }) => {
            if expand && 0 <= idx < uv.constants.len() && (uv.constants[idx as int] matches
                ConstView::Code { code }) {
                lemma_cranks_elem(uv.constants, idx as int);
            }
        },
        _ => {},
    }
}

/// The listing of a unit from instruction `k` on.
pub open spec fn unit_lines(uv: CodeView, k: int, expand: bool, ind: Seq<char>) -> Seq<char>
    decreases urank(uv), uv.instructions.len() - k, 1int,
{
    if k < 0 || k >= uv.instructions.len() {
        Seq::empty()
    } else {
        line_text(uv, k, expand, ind) + unit_lines(uv, k + 1, expand, ind)
    }
}

/// The full listing of a unit, indented `level` steps of ten columns.
pub open spec fn render_unit(uv: CodeView, expand: bool, level: nat) -> Seq<char> {
    unit_lines(uv, 0, expand, spaces(10 * level))
}

/// The non-expanding display: the unit's own listing, then a recursive
/// dump of every nested code object in its constant pool.
pub open spec fn render_full(uv: CodeView) -> Seq<char>
    decreases urank(uv), 0int, 0int,
{
    unit_lines(uv, 0, false, spaces(10)) + nested_dumps(uv.constants)
}

/// The dumps of the nested code objects among `s`.
pub open spec fn nested_dumps(s: Seq<ConstView>) -> Seq<char>
    decreases cranks(s), 0int, 0int,
    via nested_dumps_dec
{
    if s.len() == 0 {
        Seq::empty()
    } else {
        (match s[0] {
            ConstView::Code { code } => "\nDisassembly of "@ + code_header(code) + "\n"@
                + render_full(code),
            _ => Seq::empty(),
        }) + nested_dumps(s.subrange(1, s.len() as int))
    }
}

#[via_fn]
proof fn nested_dumps_dec(s: Seq<ConstView>) {
    if s.len() > 0 {
        match s[0] {
            ConstView::Code { code } => {
                assert(crank(s[0]) == 1 + urank(code));
                assert(cranks(s) == 1 + crank(s[0]) + cranks(s.subrange(1, s.len() as int)));
            },
            _ => {},
        }
    }
}

/// Labels of instructions and of their views agree.
proof fn lemma_targets_iview(s: Seq<Instruction>, off: usize)
    ensures
        crate::instr::is_jump_target(s, off) == ivs_has_target(crate::view::iviews_of(s), off as int),
{
    let vs = crate::view::iviews_of(s);
    if crate::instr::is_jump_target(s, off) {
        let k = choose|k: int|
            0 <= k < s.len() && instr_has_target(#[trigger] s[k], off);
        assert(vs[k] == iview(s[k]));
        match s[k] {
            Instruction::Import { .. } => {
                assert(!instr_has_target(s[k], off));
            },
            _ => {
                assert(vs[k] matches InstrView::Plain(i) && instr_has_target_int(i, off as int));
            },
        }
    }
    if ivs_has_target(vs, off as int) {
        let k = choose|k: int|
            0 <= k < vs.len() && (match #[trigger] vs[k] {
                InstrView::Plain(i) => instr_has_target_int(i, off as int),
                InstrView::ImportView { .. } => false,
            });
        assert(vs[k] == iview(s[k]));
        match s[k] {
            Instruction::Import { .. } => {},
            _ => {
                assert(instr_has_target(#[trigger] s[k], off));
            },
        }
    }
}

/// Does the sorted target vector hold offset `off`?
fn targets_contains(v: &Vec<Label>, off: usize) -> (r: bool)
    ensures
        r == lbl_in(v@, off),
{
    let mut k: usize = 0;
    while k < v.len()
        invariant
            k <= v@.len(),
            forall|j: int| 0 <= j < k ==> (#[trigger] v@[j]).0 != off,
        decreases v@.len() - k,
    {
        if v[k].0 == off {
            proof {
                assert(lbl_in(v@, off));
            }
            return true;
        }
        k = k + 1;
    }
    false
}

/// Renders the listing of `u` from instruction `k` on.
#[verifier::rlimit(100)]
fn render_from<C: Constant>(
    u: &CodeObject<C, C::Name>,
    targets: &Vec<Label>,
    k: usize,
    expand: bool,
    ind: &str,
) -> (r: String)
    requires
        forall|x: usize|
            lbl_in(targets@, x) <==> crate::instr::is_jump_target(u.instructions@, x),
    ensures
        r@ == unit_lines(uview(*u), k as int, expand, ind@),
    decreases urank(uview(*u)), u.instructions@.len() - k, 2int,
{
    let mut out = String::new();
    if k >= u.instructions.len() {
        return out;
    }
    out.append(ind);
    let hit = targets_contains(targets, k);
    proof {
        lemma_targets_iview(u.instructions@, k);
    }
    if hit {
        out.append(">>");
    } else {
        out.append("  ");
    }
    out.append(" ");
    push_pad5_u64(&mut out, k as u64);
    out.append(" ");
    let ghost pre = ind@ + (if ivs_has_target(uview(*u).instructions, k as int) {
        ">>"@
    } else {
        "  "@
    }) + " "@ + pad5(dec_digits(k as u64)) + " "@;
    proof {
        assert(out@ =~= pre);
    }
    let ins = &u.instructions[k];
    let mut expanded = false;
    match ins {
        Instruction::LoadConst { idx } => {
            if expand && *idx < u.constants.len() {
                match u.constants[*idx].borrow_constant() {
                    BorrowedConstant::Code { code } => {
                        expanded = true;
                        push_pad20(&mut out, "LoadConst");
                        out.append(" (");
                        let h = code_header_x(code);
                        out.append(h.as_str());
                        out.append("):\n");
                        let nested_targets = code.label_targets();
                        let mut nested_ind = String::new();
                        nested_ind.append(ind);
                        push_spaces(&mut nested_ind, 10);
                        proof {
                            let uv = uview(*u);
                            assert(uv.constants[*idx as int] == u.constants@[*idx as int].cview());
                            lemma_cranks_elem(uv.constants, *idx as int);
                        }
                        let nested = render_from(code, &nested_targets, 0, expand, nested_ind.as_str());
                        out.append(nested.as_str());
                    },
                    _ => {},
                }
            }
        },
        _ => {},
    }
    if !expanded {
        let line = instr_text_x(u, ins);
        out.append(line.as_str());
    }
    proof {
        assert(out@ =~= line_text(uview(*u), k as int, expand, ind@));
    }
    let rest = render_from(u, targets, k + 1, expand, ind);
    let mut whole = out;
    whole.append(rest.as_str());
    proof {
        assert(whole@ =~= unit_lines(uview(*u), k as int, expand, ind@));
    }
    whole
}

/// The dumps of the nested code objects among the constants, from `j` on.
fn dumps_from<C: Constant>(consts: &Vec<C>, j: usize, Ghost(views): Ghost<Seq<ConstView>>) -> (r:
    String)
    requires
        views == consts@.map(|k: int, c: C| c.cview()),
        j <= consts@.len(),
    ensures
        r@ == nested_dumps(views.skip(j as int)),
    decreases cranks(views.skip(j as int)), 1int, 0int,
{
    let mut out = String::new();
    if j >= consts.len() {
        proof {
            assert(views.skip(j as int) =~= Seq::<ConstView>::empty());
        }
        return out;
    }
    proof {
        let suf = views.skip(j as int);
        assert(suf[0] == views[j as int]);
        assert(views[j as int] == consts@[j as int].cview());
        assert(suf.subrange(1, suf.len() as int) =~= views.skip(j + 1));
    }
    match consts[j].borrow_constant() {
        BorrowedConstant::Code { code } => {
            out.append("\nDisassembly of ");
            let h = code_header_x(code);
            out.append(h.as_str());
            out.append("\n");
            proof {
                let suf = views.skip(j as int);
                assert(suf[0] == (ConstView::Code { code: uview(*code) }));
                assert(crank(suf[0]) == 1 + urank(uview(*code)));
                assert(cranks(suf) == 1 + crank(suf[0]) + cranks(
                    suf.subrange(1, suf.len() as int),
                ));
            }
            let body = render_whole(code);
            out.append(body.as_str());
        },
        _ => {},
    }
    let rest = dumps_from(consts, j + 1, Ghost(views));
    out.append(rest.as_str());
    proof {
        assert(out@ =~= nested_dumps(views.skip(j as int)));
    }
    out
}

/// The non-expanding display of one unit, with its nested dumps.
fn render_whole<C: Constant>(u: &CodeObject<C, C::Name>) -> (r: String)
    ensures
        r@ == render_full(uview(*u)),
    decreases urank(uview(*u)), 0int, 1int,
{
    let targets = u.label_targets();
    let mut ind = String::new();
    push_spaces(&mut ind, 10);
    proof {
        assert(ind@ =~= spaces(10));
        assert(Seq::<char>::empty() + spaces(10) =~= spaces(10));
    }
    let mut out = render_from(u, &targets, 0, false, ind.as_str());
    let ghost views = u.constants@.map(|k: int, c: C| c.cview());
    proof {
        assert(views.skip(0) =~= views);
        assert(urank(uview(*u)) == 1 + cranks(views));
    }
    let dumps = dumps_from(&u.constants, 0, Ghost(views));
    out.append(dumps.as_str());
    proof {
        assert(views.skip(0) =~= views);
        assert(out@ =~= render_full(uview(*u)));
    }
    out
}

impl<C: Constant> CodeObject<C, C::Name> {
    /// The disassembly of this unit, deterministic in its value: the
    /// text is a function of the unit's view alone.
    pub fn render(&self, expand_codeobjects: bool) -> (r: String)
        ensures
            r@ == render_unit(uview(*self), expand_codeobjects, 1),
    {
        let targets = self.label_targets();
        let mut ind = String::new();
        push_spaces(&mut ind, 10);
        proof {
            assert(ind@ =~= spaces(10));
            assert(spaces(10 * 1) =~= spaces(10));
        }
        render_from(self, &targets, 0, expand_codeobjects, ind.as_str())
    }

    /// The disassembly with nested code objects expanded in place.
    pub fn display_expand_codeobjects(&self) -> (r: String)
        ensures
            r@ == render_unit(uview(*self), true, 1),
    {
        self.render(true)
    }

    /// The plain display: this unit's listing, then a dump of every
    /// nested code object found in its constant pool.
    pub fn display_text(&self) -> (r: String)
        ensures
            r@ == render_full(uview(*self)),
    {
        render_whole(self)
    }

    /// The unit's one-line debug identity.
    pub fn debug_text(&self) -> (r: String)
        ensures
            r@ == code_header(uview(*self)),
    {
        code_header_x(self)
    }
}

} // verus!
