//! The code-unit container: instructions, locations, constants, name tables
//! and metadata, plus jump-target analysis, argument-shape derivation, and
//! re-representation through a constant bag.

use vstd::prelude::*;
use vstd::slice::slice_subrange;

use crate::constant::{Constant, ConstantBag, ConstantData, ConstantView, NameStr};
use crate::instr::{instr_has_target, is_jump_target, iview, Instruction, Label};
use crate::view::{c2a_view, iviews_of, nviews_of, uview};

verus! {

/// Sourcecode location.
#[derive(Clone, Copy, Debug, PartialEq, Eq, Structural)]
pub struct Location {
    pub row: usize,
    pub column: usize,
}

impl Location {
    pub fn new(row: usize, column: usize) -> (r: Self)
        ensures
            r.row == row,
            r.column == column,
    {
        Location { row, column }
    }

    pub fn row(&self) -> (r: usize)
        ensures
            r == self.row,
    {
        self.row
    }

    pub fn column(&self) -> (r: usize)
        ensures
            r == self.column,
    {
        self.column
    }
}

impl Default for Location {
    fn default() -> (r: Self)
        ensures
            r.row == 0 && r.column == 0,
    {
        Location { row: 0, column: 0 }
    }
}

/// A fixed bit set describing a code unit's calling convention and kind.
#[derive(Clone, Copy, Debug, PartialEq, Eq, Structural, Hash)]
pub struct CodeFlags {
    pub bits: u16,
}

impl CodeFlags {
    /// The function's positional defaults are on the stack when it is made.
    pub const HAS_DEFAULTS: u16 = 0x01;

    /// Keyword-only defaults are on the stack when the function is made.
    pub const HAS_KW_ONLY_DEFAULTS: u16 = 0x02;

    /// An annotation dictionary is on the stack when the function is made.
    pub const HAS_ANNOTATIONS: u16 = 0x04;

    /// A fresh local namespace is allocated on every call.
    pub const NEW_LOCALS: u16 = 0x08;

    pub const IS_GENERATOR: u16 = 0x10;

    pub const IS_COROUTINE: u16 = 0x20;

    pub const HAS_VARARGS: u16 = 0x40;

    pub const HAS_VARKEYWORDS: u16 = 0x80;

    pub const IS_OPTIMIZED: u16 = 0x0100;

    /// The mask covering every defined flag.
    pub const ALL_BITS: u16 = 0x01ff;

    /// Does this set contain every flag of `mask`?
    pub open spec fn has(&self, mask: u16) -> bool {
        self.bits & mask == mask
    }

    /// Runtime test for `has`.
    #[verifier::when_used_as_spec(has)]
    pub fn contains(&self, mask: u16) -> (r: bool)
        ensures
            r == self.has(mask),
    {
        self.bits & mask == mask
    }

    /// The union of two flag sets.
    pub fn union(self, other: CodeFlags) -> (r: CodeFlags)
        ensures
            r.bits == self.bits | other.bits,
    {
        CodeFlags { bits: self.bits | other.bits }
    }

    /// Keeps only bits that correspond to defined flags.
    pub fn from_bits_truncate(bits: u16) -> (r: CodeFlags)
        ensures
            r.bits == bits & CodeFlags::ALL_BITS,
    {
        CodeFlags { bits: bits & CodeFlags::ALL_BITS }
    }

    /// The association list from human-readable flag name to flag value,
    /// used only for introspection and formatting.  The async-generator
    /// entry is the union of the generator and coroutine bits.
    pub fn name_mapping() -> (r: Vec<(&'static str, CodeFlags)>)
        ensures
            r@.len() == 5,
            r@[0].1.bits == CodeFlags::IS_GENERATOR,
            r@[1].1.bits == CodeFlags::IS_COROUTINE,
            r@[2].1.bits == CodeFlags::IS_GENERATOR | CodeFlags::IS_COROUTINE,
            r@[3].1.bits == CodeFlags::HAS_VARARGS,
            r@[4].1.bits == CodeFlags::HAS_VARKEYWORDS,
            r@[0].0@ == "GENERATOR"@,
            r@[1].0@ == "COROUTINE"@,
            r@[2].0@ == "ASYNC_GENERATOR"@,
            r@[3].0@ == "VARARGS"@,
            r@[4].0@ == "VARKEYWORDS"@,
    {
        let mut r: Vec<(&'static str, CodeFlags)> = Vec::new();
        r.push(("GENERATOR", CodeFlags { bits: CodeFlags::IS_GENERATOR }));
        r.push(("COROUTINE", CodeFlags { bits: CodeFlags::IS_COROUTINE }));
        r.push(
            ("ASYNC_GENERATOR", CodeFlags { bits: CodeFlags::IS_GENERATOR | CodeFlags::IS_COROUTINE }),
        );
        r.push(("VARARGS", CodeFlags { bits: CodeFlags::HAS_VARARGS }));
        r.push(("VARKEYWORDS", CodeFlags { bits: CodeFlags::HAS_VARKEYWORDS }));
        r
    }
}

impl Default for CodeFlags {
    /// The default flag set: fresh locals are allocated on call, nothing
    /// else is set.
    fn default() -> (r: Self)
        ensures
            r.bits == CodeFlags::NEW_LOCALS,
    {
        CodeFlags { bits: CodeFlags::NEW_LOCALS }
    }
}

/// Primary container of a single code object.  Each function of the source
/// language has one; so does a module.
pub struct CodeObject<C = ConstantData, N = String> {
    pub instructions: Vec<Instruction>,
    pub locations: Vec<Location>,
    pub flags: CodeFlags,
    /// Number of positional-only arguments.
    pub posonlyarg_count: usize,
    pub arg_count: usize,
    pub kwonlyarg_count: usize,
    pub source_path: String,
    pub first_line_number: usize,
    /// Name of the object that created this code object.
    pub obj_name: String,
    pub cell2arg: Option<Vec<isize>>,
    pub constants: Vec<C>,
    pub names: Vec<N>,
    pub varnames: Vec<N>,
    pub cellvars: Vec<N>,
    pub freevars: Vec<N>,
}

/// A frozen module: a compiled unit together with its package bit.
pub struct FrozenModule<C = ConstantData, N = String> {
    pub code: CodeObject<C, N>,
    pub package: bool,
}

/// The logical parameter groups of a code unit, reconstructed read-only
/// from its local-name table.
pub struct Arguments<'a, N: NameStr> {
    pub posonlyargs: &'a [N],
    pub args: &'a [N],
    pub vararg: Option<&'a N>,
    pub kwonlyargs: &'a [N],
    pub varkwarg: Option<&'a N>,
}

/// Is offset `off` one of the labels held by `s`?
pub open spec fn lbl_in(s: Seq<Label>, off: usize) -> bool {
    exists|k: int| 0 <= k < s.len() && (#[trigger] s[k]).0 == off
}

/// Are the labels in strictly increasing offset order (hence unique)?
pub open spec fn strictly_sorted(s: Seq<Label>) -> bool {
    forall|i: int, j: int| 0 <= i < j < s.len() ==> s[i].0 < s[j].0
}

/// Inserts offset `off` into a strictly sorted label vector, keeping it
/// strictly sorted; inserting an offset already present changes nothing.
fn insert_label(v: &mut Vec<Label>, off: usize)
    requires
        strictly_sorted(old(v)@),
    ensures
        strictly_sorted(final(v)@),
        forall|x: usize| lbl_in(final(v)@, x) <==> (lbl_in(old(v)@, x) || x == off),
{
    let mut i: usize = 0;
    loop
        invariant
            i <= v@.len(),
            strictly_sorted(v@),
            v@ == old(v)@,
            forall|j: int| 0 <= j < i ==> (#[trigger] v@[j]).0 < off,
        ensures
            i <= v@.len(),
            v@ == old(v)@,
            forall|j: int| 0 <= j < i ==> (#[trigger] v@[j]).0 < off,
            i == v@.len() || v@[i as int].0 >= off,
        decreases v@.len() - i,
    {
        if i >= v.len() {
            break ;
        }
        if v[i].0 >= off {
            break ;
        }
        i = i + 1;
    }
    if i < v.len() && v[i].0 == off {
        proof {
            assert(lbl_in(v@, off));
        }
        return ;
    }
    v.insert(i, Label(off));
    proof {
        let s_old = old(v)@;
        let s_new = v@;
        assert(s_new == s_old.insert(i as int, Label(off)));
        assert forall|x: usize| lbl_in(s_new, x) implies (lbl_in(s_old, x) || x == off) by {
            let k = choose|k: int| 0 <= k < s_new.len() && (#[trigger] s_new[k]).0 == x;
            if k < i {
                assert(s_old[k].0 == x);
            } else if k == i {
            } else {
                assert(s_old[k - 1].0 == x);
            }
        }
        assert forall|x: usize| (lbl_in(s_old, x) || x == off) implies lbl_in(s_new, x) by {
            if x == off {
                assert(s_new[i as int].0 == off);
            } else {
                let k = choose|k: int| 0 <= k < s_old.len() && (#[trigger] s_old[k]).0 == x;
                if k < i {
                    assert(s_new[k].0 == x);
                } else {
                    assert(s_new[k + 1].0 == x);
                }
            }
        }
        assert forall|a: int, b: int| 0 <= a < b < s_new.len() implies s_new[a].0 < s_new[b].0 by {
            if i < s_old.len() {
                assert(s_old[i as int].0 > off);
            }
            if a < i {
                assert(s_new[a] == s_old[a]);
            }
        }
    }
}

/// Extending the scanned prefix by one instruction adds exactly that
/// instruction's targets.
proof fn lemma_jump_target_push(s: Seq<Instruction>, k: int, x: usize)
    requires
        0 <= k < s.len(),
    ensures
        is_jump_target(s.subrange(0, k + 1), x) <==> (is_jump_target(s.subrange(0, k), x)
            || instr_has_target(s[k], x)),
{
    let pre = s.subrange(0, k);
    let ext = s.subrange(0, k + 1);
    if is_jump_target(ext, x) {
        let j = choose|j: int| 0 <= j < ext.len() && instr_has_target(#[trigger] ext[j], x);
        if j < k {
            assert(pre[j] == ext[j]);
            assert(instr_has_target(pre[j], x));
        } else {
            assert(ext[j] == s[k]);
        }
    }
    if is_jump_target(pre, x) {
        let j = choose|j: int| 0 <= j < pre.len() && instr_has_target(#[trigger] pre[j], x);
        assert(ext[j] == pre[j]);
        assert(instr_has_target(ext[j], x));
    }
    if instr_has_target(s[k], x) {
        assert(ext[k] == s[k]);
        assert(instr_has_target(ext[k], x));
    }
}

impl<C: Constant> CodeObject<C, C::Name> {
    /// A fresh code unit: the given flags, counts and identity, and empty
    /// instruction, constant and name tables.
    pub fn new(
        flags: CodeFlags,
        posonlyarg_count: usize,
        arg_count: usize,
        kwonlyarg_count: usize,
        source_path: String,
        first_line_number: usize,
        obj_name: String,
    ) -> (r: Self)
        ensures
            r.instructions@.len() == 0,
            r.locations@.len() == 0,
            r.flags == flags,
            r.posonlyarg_count == posonlyarg_count,
            r.arg_count == arg_count,
            r.kwonlyarg_count == kwonlyarg_count,
            r.source_path@ == source_path@,
            r.first_line_number == first_line_number,
            r.obj_name@ == obj_name@,
            r.cell2arg is None,
            r.constants@.len() == 0,
            r.names@.len() == 0,
            r.varnames@.len() == 0,
            r.cellvars@.len() == 0,
            r.freevars@.len() == 0,
    {
        CodeObject {
            instructions: Vec::new(),
            locations: Vec::new(),
            flags,
            posonlyarg_count,
            arg_count,
            kwonlyarg_count,
            source_path,
            first_line_number,
            obj_name,
            cell2arg: Option::None,
            constants: Vec::new(),
            names: Vec::new(),
            varnames: Vec::new(),
            cellvars: Vec::new(),
            freevars: Vec::new(),
        }
    }

    /// The set of instruction offsets that are branch or handler targets,
    /// in strictly increasing order: an offset is listed exactly when some
    /// instruction of this unit carries it as a label.
    pub fn label_targets(&self) -> (r: Vec<Label>)
        ensures
            strictly_sorted(r@),
            forall|x: usize| lbl_in(r@, x) <==> is_jump_target(self.instructions@, x),
    {
        let mut r: Vec<Label> = Vec::new();
        let mut k: usize = 0;
        while k < self.instructions.len()
            invariant
                k <= self.instructions@.len(),
                strictly_sorted(r@),
                forall|x: usize| lbl_in(r@, x) <==> is_jump_target(
                    self.instructions@.subrange(0, k as int),
                    x,
                ),
            decreases self.instructions@.len() - k,
        {
            let ins = &self.instructions[k];
            match ins {
                Instruction::Jump { target } => insert_label(&mut r, target.0),
                Instruction::JumpIfTrue { target } => insert_label(&mut r, target.0),
                Instruction::JumpIfFalse { target } => insert_label(&mut r, target.0),
                Instruction::JumpIfTrueOrPop { target } => insert_label(&mut r, target.0),
                Instruction::JumpIfFalseOrPop { target } => insert_label(&mut r, target.0),
                Instruction::ForIter { target } => insert_label(&mut r, target.0),
                Instruction::SetupFinally { handler } => insert_label(&mut r, handler.0),
                Instruction::SetupExcept { handler } => insert_label(&mut r, handler.0),
                Instruction::SetupWith { end } => insert_label(&mut r, end.0),
                Instruction::SetupAsyncWith { end } => insert_label(&mut r, end.0),
                Instruction::SetupLoop { start, end } => {
                    insert_label(&mut r, start.0);
                    insert_label(&mut r, end.0);
                },
                _ => {},
            }
            proof {
                assert forall|x: usize| lbl_in(r@, x) <==> is_jump_target(
                    self.instructions@.subrange(0, k as int + 1),
                    x,
                ) by {
                    lemma_jump_target_push(self.instructions@, k as int, x);
                }
            }
            k = k + 1;
        }
        proof {
            assert(self.instructions@.subrange(0, self.instructions@.len() as int)
                =~= self.instructions@);
        }
        r
    }

    /// The number of names the local-name table must hold for the declared
    /// argument shape.
    pub open spec fn formals_len(&self) -> int {
        self.arg_count + self.kwonlyarg_count + (if self.flags.has(CodeFlags::HAS_VARARGS) {
            1int
        } else {
            0int
        }) + (if self.flags.has(CodeFlags::HAS_VARKEYWORDS) {
            1int
        } else {
            0int
        })
    }

    /// Reconstructs the logical parameter groups by slicing the local-name
    /// table according to the declared counts and flags.
    pub fn arg_names<'a>(&'a self) -> (r: Arguments<'a, C::Name>)
        requires
            self.posonlyarg_count <= self.arg_count,
            self.formals_len() <= self.varnames@.len(),
        ensures
            r.posonlyargs@ == self.varnames@.subrange(0, self.posonlyarg_count as int),
            r.args@ == self.varnames@.subrange(0, self.arg_count as int),
            r.kwonlyargs@ == self.varnames@.subrange(
                self.arg_count as int,
                self.arg_count + self.kwonlyarg_count,
            ),
            if self.flags.has(CodeFlags::HAS_VARARGS) {
                r.vararg matches Some(n) && *n == self.varnames@[self.arg_count
                    + self.kwonlyarg_count]
            } else {
                r.vararg is None
            },
            if self.flags.has(CodeFlags::HAS_VARKEYWORDS) {
                r.varkwarg matches Some(n) && *n == self.varnames@[self.arg_count
                    + self.kwonlyarg_count + (if self.flags.has(CodeFlags::HAS_VARARGS) {
                    1int
                } else {
                    0int
                })]
            } else {
                r.varkwarg is None
            },
    {
        let total = self.varnames.len();
        proof {
            assert(self.arg_count + self.kwonlyarg_count <= total);
        }
        let nargs = self.arg_count;
        let nkwargs = self.kwonlyarg_count;
        let mut varargspos: usize = nargs + nkwargs;
        let whole = self.varnames.as_slice();
        let posonlyargs = slice_subrange(whole, 0, self.posonlyarg_count);
        let args = slice_subrange(whole, 0, nargs);
        let kwonlyargs = slice_subrange(whole, nargs, varargspos);

        let vararg = if self.flags.contains(CodeFlags::HAS_VARARGS) {
            let n = &self.varnames[varargspos];
            varargspos = varargspos + 1;
            Some(n)
        } else {
            None
        };
        let varkwarg = if self.flags.contains(CodeFlags::HAS_VARKEYWORDS) {
            Some(&self.varnames[varargspos])
        } else {
            None
        };

        Arguments { posonlyargs, args, vararg, kwonlyargs, varkwarg }
    }

    /// Resolves an index into the joint cell/free table: indexes below the
    /// cell-name count name a cell variable, the rest a free variable.
    pub fn cell_or_free_name<'a>(&'a self, i: usize) -> (r: &'a C::Name)
        requires
            i < self.cellvars@.len() + self.freevars@.len(),
        ensures
            r.str_view() == (if i < self.cellvars@.len() {
                self.cellvars@[i as int].str_view()
            } else {
                self.freevars@[i - self.cellvars@.len()].str_view()
            }),
    {
        if i < self.cellvars.len() {
            &self.cellvars[i]
        } else {
            &self.freevars[i - self.cellvars.len()]
        }
    }

    /// Re-represents this unit through `bag` by cloning: same instructions,
    /// locations, flags and metadata; constants and names re-made by the
    /// bag, nested units mapped recursively.  The view is preserved.
    pub fn map_clone_bag<Bag: ConstantBag>(&self, bag: &Bag) -> (r: CodeObject<
        Bag::Constant,
        <Bag::Constant as Constant>::Name,
    >)
        ensures
            uview(r) == uview(*self),
    {
        let ghost target = self.constants@.map(|k: int, c: C| c.cview());
        let mut constants: Vec<Bag::Constant> = Vec::new();
        let mut k: usize = 0;
        while k < self.constants.len()
            invariant
                k <= self.constants@.len(),
                target == self.constants@.map(|j: int, c: C| c.cview()),
                constants@.len() == k,
                forall|j: int| 0 <= j < k ==> (#[trigger] constants@[j]).cview() == target[j],
            decreases self.constants@.len() - k,
        {
            proof {
                assert(target[k as int] == self.constants@[k as int].cview());
            }
            let b = self.constants[k].borrow_constant();
            constants.push(bag.make_constant_borrowed(b));
            k = k + 1;
        }
        let r = CodeObject {
            instructions: copy_instructions(&self.instructions),
            locations: copy_locations(&self.locations),
            flags: self.flags,
            posonlyarg_count: self.posonlyarg_count,
            arg_count: self.arg_count,
            kwonlyarg_count: self.kwonlyarg_count,
            source_path: self.source_path.clone(),
            first_line_number: self.first_line_number,
            obj_name: self.obj_name.clone(),
            cell2arg: copy_cell2arg(&self.cell2arg),
            constants,
            names: names_map_bag(&self.names, bag),
            varnames: names_map_bag(&self.varnames, bag),
            cellvars: names_map_bag(&self.cellvars, bag),
            freevars: names_map_bag(&self.freevars, bag),
        };
        proof {
            assert(r.constants@.map(|j: int, c: Bag::Constant| c.cview()) =~= target);
            assert(uview(r) =~= uview(*self));
        }
        r
    }

    /// Re-represents this unit through `bag`, consuming it.  The view is
    /// preserved: same instruction sequence and flags, only constants,
    /// names and nested units re-represented.
    pub fn map_bag<Bag: ConstantBag>(self, bag: &Bag) -> (r: CodeObject<
        Bag::Constant,
        <Bag::Constant as Constant>::Name,
    >)
        ensures
            uview(r) == uview(self),
    {
        self.map_clone_bag(bag)
    }
}

/// Copies an instruction vector; every view is preserved.
pub(crate) fn copy_instructions(v: &Vec<Instruction>) -> (r: Vec<Instruction>)
    ensures
        iviews_of(r@) == iviews_of(v@),
{
    let mut r: Vec<Instruction> = Vec::new();
    let mut k: usize = 0;
    while k < v.len()
        invariant
            k <= v@.len(),
            r@.len() == k,
            forall|j: int| 0 <= j < k ==> iview(#[trigger] r@[j]) == iview(v@[j]),
        decreases v@.len() - k,
    {
        let ins = v[k].duplicate();
        r.push(ins);
        k = k + 1;
    }
    proof {
        assert(iviews_of(r@) =~= iviews_of(v@));
    }
    r
}

/// Copies a location vector.
pub(crate) fn copy_locations(v: &Vec<Location>) -> (r: Vec<Location>)
    ensures
        r@ == v@,
{
    let mut r: Vec<Location> = Vec::new();
    let mut k: usize = 0;
    while k < v.len()
        invariant
            k <= v@.len(),
            r@ =~= v@.subrange(0, k as int),
        decreases v@.len() - k,
    {
        r.push(v[k]);
        k = k + 1;
    }
    proof {
        assert(r@ =~= v@);
    }
    r
}

/// Copies the optional cell-to-argument map.
pub(crate) fn copy_cell2arg(o: &Option<Vec<isize>>) -> (r: Option<Vec<isize>>)
    ensures
        c2a_view(r) == c2a_view(*o),
{
    match o {
        Option::None => Option::None,
        Option::Some(v) => {
            let mut c: Vec<isize> = Vec::new();
            let mut k: usize = 0;
            while k < v.len()
                invariant
                    k <= v@.len(),
                    c@ =~= v@.subrange(0, k as int),
                decreases v@.len() - k,
            {
                c.push(v[k]);
                k = k + 1;
            }
            proof {
                assert(c@ =~= v@);
            }
            Option::Some(c)
        },
    }
}

/// Copies a name table into owned strings; every view is preserved.
pub(crate) fn names_to_strings<N: NameStr>(v: &Vec<N>) -> (r: Vec<String>)
    ensures
        nviews_of(r@) == nviews_of(v@),
{
    let mut r: Vec<String> = Vec::new();
    let mut k: usize = 0;
    while k < v.len()
        invariant
            k <= v@.len(),
            r@.len() == k,
            forall|j: int| 0 <= j < k ==> (#[trigger] r@[j])@ == v@[j].str_view(),
        decreases v@.len() - k,
    {
        let s = v[k].as_str_ref().to_owned();
        r.push(s);
        k = k + 1;
    }
    proof {
        assert(nviews_of(r@) =~= nviews_of(v@));
    }
    r
}

/// Re-makes a name table through a bag; every view is preserved.
pub(crate) fn names_map_bag<N: NameStr, Bag: ConstantBag>(v: &Vec<N>, bag: &Bag) -> (r: Vec<
    <Bag::Constant as Constant>::Name>)
    ensures
        nviews_of(r@) == nviews_of(v@),
{
    let mut r: Vec<<Bag::Constant as Constant>::Name> = Vec::new();
    let mut k: usize = 0;
    while k < v.len()
        invariant
            k <= v@.len(),
            r@.len() == k,
            forall|j: int| 0 <= j < k ==> (#[trigger] r@[j]).str_view() == v@[j].str_view(),
        decreases v@.len() - k,
    {
        let n = bag.make_name_ref(v[k].as_str_ref());
        r.push(n);
        k = k + 1;
    }
    proof {
        assert(nviews_of(r@) =~= nviews_of(v@));
    }
    r
}

} // verus!
