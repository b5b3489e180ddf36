use bytecode::code::{Arguments, CodeFlags, CodeObject, Location};
use bytecode::codec::DecodeError;
use bytecode::constant::{BasicBag, BigIntValue, BorrowedConstant, Constant, ConstantData};
use bytecode::instr::{CallType, Instruction, Label};

fn sample_nested_unit() -> CodeObject {
    let mut u: CodeObject = CodeObject::new(
        CodeFlags::default(),
        0,
        1,
        0,
        String::from("inner.py"),
        3,
        String::from("inner"),
    );
    u.instructions.push(Instruction::LoadFast(0));
    u.instructions.push(Instruction::ReturnValue);
    u.locations.push(Location::new(3, 0));
    u.locations.push(Location::new(3, 4));
    u.varnames.push(String::from("x"));
    u
}

fn sample_unit() -> CodeObject {
    let mut u: CodeObject = CodeObject::new(
        CodeFlags { bits: CodeFlags::NEW_LOCALS | CodeFlags::HAS_VARARGS },
        1,
        2,
        1,
        String::from("main.py"),
        1,
        String::from("<module>"),
    );
    u.instructions.push(Instruction::LoadConst { idx: 0 });
    u.instructions.push(Instruction::Import {
        name_idx: Some(0),
        symbols_idx: vec![1, 2],
        level: 0,
    });
    u.instructions.push(Instruction::Jump { target: Label(5) });
    u.instructions.push(Instruction::BinaryOperation {
        op: bytecode::instr::BinaryOperator::Add,
        inplace: false,
    });
    u.instructions.push(Instruction::CallFunction { typ: CallType::Positional(2) });
    u.instructions.push(Instruction::LoadConst { idx: 1 });
    u.instructions.push(Instruction::ReturnValue);
    for k in 0..7 {
        u.locations.push(Location::new(1, k));
    }
    u.constants.push(ConstantData::Tuple {
        elements: vec![
            ConstantData::Integer {
                value: BigIntValue { negative: true, magnitude: vec![0xff, 0x10, 0x07] },
            },
            ConstantData::Float { bits: (1.5f64).to_bits() },
            ConstantData::Complex { re_bits: (0.5f64).to_bits(), im_bits: (2.0f64).to_bits() },
            ConstantData::Boolean { value: true },
            ConstantData::Str { value: String::from("héllo\nworld") },
            ConstantData::Bytes { value: vec![0, 1, 2, 254, 255] },
            ConstantData::NoneValue,
            ConstantData::Ellipsis,
            ConstantData::Tuple { elements: vec![] },
        ],
    });
    u.constants.push(ConstantData::Code { code: Box::new(sample_nested_unit()) });
    u.names.push(String::from("os"));
    u.names.push(String::from("path"));
    u.names.push(String::from("sep"));
    u.varnames.push(String::from("a"));
    u.varnames.push(String::from("b"));
    u.varnames.push(String::from("kw"));
    u.varnames.push(String::from("args"));
    u.cellvars.push(String::from("x"));
    u.freevars.push(String::from("y"));
    u.cell2arg = Some(vec![-1, 0]);
    u
}

#[test]
fn roundtrip_structurally_equal() {
    let u = sample_unit();
    let bytes = u.to_bytes();
    let v = CodeObject::from_bytes(&bytes).expect("decoding an encoded unit succeeds");
    assert_eq!(u.instructions, v.instructions);
    assert_eq!(u.locations, v.locations);
    assert_eq!(u.flags, v.flags);
    assert_eq!(u.posonlyarg_count, v.posonlyarg_count);
    assert_eq!(u.arg_count, v.arg_count);
    assert_eq!(u.kwonlyarg_count, v.kwonlyarg_count);
    assert_eq!(u.source_path, v.source_path);
    assert_eq!(u.first_line_number, v.first_line_number);
    assert_eq!(u.obj_name, v.obj_name);
    assert_eq!(u.cell2arg, v.cell2arg);
    assert_eq!(u.names, v.names);
    assert_eq!(u.varnames, v.varnames);
    assert_eq!(u.cellvars, v.cellvars);
    assert_eq!(u.freevars, v.freevars);
    // the constant pools agree because re-encoding is canonical
    assert_eq!(bytes, v.to_bytes());
    match &v.constants[1] {
        ConstantData::Code { code } => {
            assert_eq!(code.obj_name, "inner");
            assert_eq!(code.instructions.len(), 2);
        }
        other => panic!("expected a nested code unit, got {:?}", std::mem::discriminant(other)),
    }
}

#[test]
fn roundtrip_empty_unit() {
    let u: CodeObject = CodeObject::new(
        CodeFlags::default(),
        0,
        0,
        0,
        String::new(),
        0,
        String::new(),
    );
    let bytes = u.to_bytes();
    let v = CodeObject::from_bytes(&bytes).expect("empty unit round-trips");
    assert_eq!(bytes, v.to_bytes());
    assert_eq!(v.instructions.len(), 0);
}

#[test]
fn corrupted_buffer_is_rejected() {
    let u = sample_unit();
    let bytes = u.to_bytes();
    // truncating by one byte
    let truncated = &bytes[..bytes.len() - 1];
    assert!(CodeObject::from_bytes(truncated).is_err());
    // flipping a byte inside the checksummed region
    let mut flipped = bytes.clone();
    let mid = flipped.len() / 2;
    flipped[mid] ^= 0x40;
    assert!(CodeObject::from_bytes(&flipped).is_err());
}

#[test]
fn wrong_magic_is_its_own_error() {
    let garbage = vec![9u8, 9, 9, 9, 1, 2, 3];
    assert!(matches!(CodeObject::from_bytes(&garbage), Err(DecodeError::WrongMagic)));
    let empty: Vec<u8> = Vec::new();
    assert!(matches!(CodeObject::from_bytes(&empty), Err(DecodeError::WrongMagic)));
}

#[test]
fn label_targets_collects_exactly_the_targets() {
    let mut u: CodeObject = CodeObject::new(
        CodeFlags::default(),
        0,
        0,
        0,
        String::new(),
        0,
        String::new(),
    );
    for _ in 0..5 {
        u.instructions.push(Instruction::Pop);
    }
    u.instructions.push(Instruction::ForIter { target: Label(9) });
    for _ in 0..5 {
        u.instructions.push(Instruction::Duplicate);
    }
    u.instructions.push(Instruction::Jump { target: Label(5) });
    let targets = u.label_targets();
    assert_eq!(targets, vec![Label(5), Label(9)]);

    // the same instructions in another order give the same set
    let mut w: CodeObject = CodeObject::new(
        CodeFlags::default(),
        0,
        0,
        0,
        String::new(),
        0,
        String::new(),
    );
    w.instructions.push(Instruction::Jump { target: Label(5) });
    for _ in 0..10 {
        w.instructions.push(Instruction::Pop);
    }
    w.instructions.push(Instruction::ForIter { target: Label(9) });
    assert_eq!(w.label_targets(), vec![Label(5), Label(9)]);
}

#[test]
fn argument_descriptor_slices_the_local_names() {
    let mut u: CodeObject = CodeObject::new(
        CodeFlags {
            bits: CodeFlags::NEW_LOCALS | CodeFlags::HAS_VARARGS | CodeFlags::HAS_VARKEYWORDS,
        },
        0,
        2,
        1,
        String::new(),
        0,
        String::new(),
    );
    for n in ["a", "b", "kw", "args", "kwargs"] {
        u.varnames.push(String::from(n));
    }
    let args: Arguments<String> = u.arg_names();
    assert_eq!(args.args, &["a".to_string(), "b".to_string()][..]);
    assert_eq!(args.kwonlyargs, &["kw".to_string()][..]);
    assert_eq!(args.vararg, Some(&"args".to_string()));
    assert_eq!(args.varkwarg, Some(&"kwargs".to_string()));
    assert_eq!(args.posonlyargs.len(), 0);
}

#[test]
fn cell_and_free_names_resolve_through_one_index_space() {
    let mut u: CodeObject = CodeObject::new(
        CodeFlags::default(),
        0,
        0,
        0,
        String::new(),
        0,
        String::new(),
    );
    u.cellvars.push(String::from("x"));
    u.freevars.push(String::from("y"));
    assert_eq!(u.cell_or_free_name(0).as_str(), "x");
    assert_eq!(u.cell_or_free_name(1).as_str(), "y");
}

#[test]
fn identity_bag_mapping_preserves_the_unit() {
    let u = sample_unit();
    let before = u.to_bytes();
    let mapped = u.map_clone_bag(&BasicBag);
    assert_eq!(mapped.to_bytes(), before);
    let moved = u.map_bag(&BasicBag);
    assert_eq!(moved.to_bytes(), before);
}

#[test]
fn default_flags_allocate_fresh_locals_only() {
    let f = CodeFlags::default();
    assert_eq!(f.bits, CodeFlags::NEW_LOCALS);
    assert!(f.contains(CodeFlags::NEW_LOCALS));
    assert!(!f.contains(CodeFlags::IS_GENERATOR));
}

#[test]
fn flag_name_mapping_lists_the_introspection_names() {
    let m = CodeFlags::name_mapping();
    assert_eq!(m.len(), 5);
    assert_eq!(m[0], ("GENERATOR", CodeFlags { bits: CodeFlags::IS_GENERATOR }));
    assert_eq!(
        m[2],
        ("ASYNC_GENERATOR", CodeFlags { bits: CodeFlags::IS_GENERATOR | CodeFlags::IS_COROUTINE })
    );
    assert_eq!(m[4], ("VARKEYWORDS", CodeFlags { bits: CodeFlags::HAS_VARKEYWORDS }));
}

#[test]
fn from_bits_truncate_drops_undefined_bits() {
    let f = CodeFlags::from_bits_truncate(0xffff);
    assert_eq!(f.bits, CodeFlags::ALL_BITS);
    let g = CodeFlags { bits: CodeFlags::IS_GENERATOR }.union(CodeFlags {
        bits: CodeFlags::IS_COROUTINE,
    });
    assert_eq!(g.bits, 0x30);
}

#[test]
fn borrowed_view_converts_back_to_owned_data() {
    let c = ConstantData::Tuple {
        elements: vec![
            ConstantData::Str { value: String::from("s") },
            ConstantData::Integer {
                value: BigIntValue { negative: false, magnitude: vec![42] },
            },
        ],
    };
    let copied = c.borrow_constant().into_data();
    match copied {
        ConstantData::Tuple { elements } => {
            assert_eq!(elements.len(), 2);
            match &elements[0] {
                ConstantData::Str { value } => assert_eq!(value, "s"),
                _ => panic!("first element should be a string"),
            }
            match &elements[1] {
                ConstantData::Integer { value } => {
                    assert!(!value.negative);
                    assert_eq!(value.magnitude, vec![42]);
                }
                _ => panic!("second element should be an integer"),
            }
        }
        _ => panic!("expected a tuple"),
    }
    let b: BorrowedConstant<ConstantData, String> = BorrowedConstant::Ellipsis;
    match b.into_data() {
        ConstantData::Ellipsis => {}
        _ => panic!("ellipsis stays ellipsis"),
    }
}

#[test]
fn locations_carry_row_and_column() {
    let l = Location::new(7, 30);
    assert_eq!(l.row(), 7);
    assert_eq!(l.column(), 30);
    let d = Location::default();
    assert_eq!((d.row(), d.column()), (0, 0));
}

#[test]
fn rendering_is_deterministic() {
    let u = sample_unit();
    let a = u.render(true);
    let b = u.render(true);
    assert_eq!(a, b);
    assert_eq!(u.display_text(), u.display_text());
    assert_eq!(u.display_expand_codeobjects(), a);
}

#[test]
fn rendering_one_line_exactly() {
    let mut u: CodeObject = CodeObject::new(
        CodeFlags::default(),
        0,
        0,
        0,
        String::new(),
        0,
        String::new(),
    );
    u.instructions.push(Instruction::Jump { target: Label(0) });
    assert_eq!(
        u.render(false),
        "          >>     0 Jump                 (0)\n"
    );
    u.instructions.push(Instruction::LoadFast(0));
    u.varnames.push(String::from("a"));
    assert_eq!(
        u.render(false),
        "          >>     0 Jump                 (0)\n                 1 LoadFast             (0, a)\n"
    );
}

#[test]
fn expansion_includes_the_nested_listing() {
    let u = sample_unit();
    let expanded = u.display_expand_codeobjects();
    // the nested unit's own instruction lines appear, one level deeper
    assert!(expanded.contains("<code object inner at ??? file \"inner.py\", line 3>"));
    assert!(expanded.contains("                    0 LoadFast             (0, x)\n"));
    // without expansion the nested unit is dumped after the listing
    let plain = u.display_text();
    assert!(plain.contains("\nDisassembly of <code object inner at ??? file \"inner.py\", line 3>\n"));
}

#[test]
fn constants_render_as_literals() {
    let one = ConstantData::Integer {
        value: BigIntValue { negative: false, magnitude: vec![1] },
    };
    assert_eq!(one.borrow_constant().fmt_display(), "1");
    let neg = ConstantData::Integer {
        value: BigIntValue { negative: true, magnitude: vec![0x2a] },
    };
    assert_eq!(neg.borrow_constant().fmt_display(), "-42");
    let singleton = ConstantData::Tuple {
        elements: vec![ConstantData::Integer {
            value: BigIntValue { negative: false, magnitude: vec![1] },
        }],
    };
    assert_eq!(singleton.borrow_constant().fmt_display(), "(1,)");
    let empty = ConstantData::Tuple { elements: vec![] };
    assert_eq!(empty.borrow_constant().fmt_display(), "()");
    let pair = ConstantData::Tuple {
        elements: vec![ConstantData::NoneValue, ConstantData::Ellipsis],
    };
    assert_eq!(pair.borrow_constant().fmt_display(), "(None, ...)");
    let s = ConstantData::Str { value: String::from("a\nb") };
    assert_eq!(s.borrow_constant().fmt_display(), "\"a\\nb\"");
    let t = ConstantData::Boolean { value: true };
    assert_eq!(t.borrow_constant().fmt_display(), "True");
    let by = ConstantData::Bytes { value: vec![65, 0] };
    assert_eq!(by.borrow_constant().fmt_display(), "b\"A\\0\"");
}

#[test]
fn debug_identity_line() {
    let u = sample_nested_unit();
    assert_eq!(
        u.debug_text(),
        "<code object inner at ??? file \"inner.py\", line 3>"
    );
}
