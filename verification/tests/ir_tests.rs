use ssa_ir::basic_block::BasicBlock;
use ssa_ir::dfg::DataFlowGraph;
use ssa_ir::function::{Function, InlineType, RuntimeType};
use ssa_ir::instruction::{
    BinaryOp, ConstrainError, Instruction, TerminatorInstruction, STRING_ERROR_SELECTOR,
};
use ssa_ir::printer::{
    display_constrain_error, display_function, display_instruction,
    try_to_extract_string_from_error_payload, value,
};
use ssa_ir::program::{AtomicCounter, Ssa};
use ssa_ir::typ::Type;
use ssa_ir::value::{BasicBlockId, FunctionId, ValueId};

fn arith_main() -> Function {
    let main_id = FunctionId(0);
    let mut f = Function::new(String::from("main"), main_id);
    let v0 = f.add_parameter(Type::Field);
    let one = f.dfg.numeric_constant(1u128, Type::Field);
    let three = f.dfg.numeric_constant(3u128, Type::Field);
    let entry = f.entry_block;
    let i1 = f.dfg.insert_instruction(
        entry,
        Instruction::Binary { operator: BinaryOp::Add, lhs: v0, rhs: one },
        vec![Type::Field],
    );
    let v3 = f.dfg.instruction_results(i1)[0];
    let i2 = f.dfg.insert_instruction(
        entry,
        Instruction::Binary { operator: BinaryOp::Mul, lhs: v3, rhs: three },
        vec![Type::Field],
    );
    let v4 = f.dfg.instruction_results(i2)[0];
    f.dfg.set_terminator(entry, TerminatorInstruction::Return { return_values: vec![v4] });
    f
}

#[test]
fn serialization_roundtrip() {
    let f = arith_main();
    let err_types: Vec<(u64, Type)> = Vec::new();
    let ssa = Ssa::new(vec![f], err_types);
    let (functions, used_globals, main_id) = ssa.into_parts();
    let deserialized_ssa = Ssa::from_parts(functions, used_globals, main_id);
    let actual_string = deserialized_ssa.print();
    let expected_string = "acir(inline) fn main f0 {\n  \
        b0(v0: Field):\n    \
            v3 = add v0, Field 1\n    \
            v4 = mul v3, Field 3\n    \
            return v4\n\
        }\n";
    assert_eq!(actual_string, expected_string);
}

#[test]
fn cyclic_blocks_render_once() {
    let mut f = Function::new(String::from("looper"), FunctionId(0));
    let b0 = f.entry_block;
    let b1 = f.dfg.make_block();
    f.dfg
        .set_terminator(b0, TerminatorInstruction::Jmp { destination: b1, arguments: vec![] });
    f.dfg
        .set_terminator(b1, TerminatorInstruction::Jmp { destination: b0, arguments: vec![] });
    let text = display_function(&f);
    assert_eq!(
        text,
        "acir(inline) fn looper f0 {\n  b0():\n    jmp b1()\n  b1():\n    jmp b0()\n}"
    );
}

#[test]
fn constrain_with_string_payload() {
    let mut f = Function::new(String::from("main"), FunctionId(0));
    let v0 = f.add_parameter(Type::Field);
    let b = f.dfg.numeric_constant(98u128, Type::Field);
    let a = f.dfg.numeric_constant(97u128, Type::Field);
    let d = f.dfg.numeric_constant(100u128, Type::Field);
    let arr = f.dfg.make_array(
        vec![b, a, d],
        Type::Array { element_types: vec![Type::Field], length: 3 },
    );
    let entry = f.entry_block;
    let i = f.dfg.insert_instruction(
        entry,
        Instruction::Constrain {
            lhs: v0,
            rhs: v0,
            error: Some(ConstrainError::Dynamic(STRING_ERROR_SELECTOR, vec![arr])),
        },
        vec![],
    );
    let mut out = String::new();
    display_instruction(&f, i, &mut out);
    assert_eq!(out, "    constrain v0 == v0 'bad'\n");
}

#[test]
fn string_payload_decodes_and_falls_back() {
    let mut f = Function::new(String::from("main"), FunctionId(0));
    let v0 = f.add_parameter(Type::Field);
    let mut ids = Vec::new();
    for c in [104u128, 101, 108, 108, 111] {
        ids.push(f.dfg.numeric_constant(c, Type::Field));
    }
    let arr = f.dfg.make_array(
        ids,
        Type::Array { element_types: vec![Type::Field], length: 5 },
    );
    let decoded =
        try_to_extract_string_from_error_payload(STRING_ERROR_SELECTOR, &vec![arr], &f.dfg);
    assert_eq!(decoded, Some(String::from("hello")));

    // a wrong selector, or more than one value, yields no string
    let wrong = try_to_extract_string_from_error_payload(7, &vec![arr], &f.dfg);
    assert_eq!(wrong, None);
    let two = try_to_extract_string_from_error_payload(STRING_ERROR_SELECTOR, &vec![arr, arr], &f.dfg);
    assert_eq!(two, None);

    // rendering then falls back to the raw value list
    let err = ConstrainError::Dynamic(STRING_ERROR_SELECTOR, vec![v0, v0]);
    let mut out = String::new();
    display_constrain_error(&f, &err, &mut out);
    assert_eq!(out, ", data v0, v0\n");
}

#[test]
fn lossy_byte_truncation_in_payload() {
    let mut f = Function::new(String::from("main"), FunctionId(0));
    // every constant truncates to its low 8 bits, however wide: 321 and
    // 2^64 + 66 decode as 'A' and 'B'
    let big: u128 = 0xFFFF_FFFF_FFFF_FFFFu128 + 1 + 66;
    let c1 = f.dfg.numeric_constant(321u128, Type::Field);
    let c2 = f.dfg.numeric_constant(big, Type::Field);
    let arr = f.dfg.make_array(
        vec![c1, c2],
        Type::Array { element_types: vec![Type::Field], length: 2 },
    );
    let decoded =
        try_to_extract_string_from_error_payload(STRING_ERROR_SELECTOR, &vec![arr], &f.dfg);
    assert_eq!(decoded, Some(String::from("AB")));
}

#[test]
fn static_string_renders_in_debug_form() {
    let mut f = Function::new(String::from("main"), FunctionId(0));
    let _ = f.add_parameter(Type::Field);
    let plain = ConstrainError::StaticString(String::from("bad"));
    let mut out = String::new();
    display_constrain_error(&f, &plain, &mut out);
    assert_eq!(out, " '\"bad\"'\n");

    let escaped = ConstrainError::StaticString(String::from("a\nb"));
    let mut out2 = String::new();
    display_constrain_error(&f, &escaped, &mut out2);
    assert_eq!(out2, " '\"a\\nb\"'\n");
}

#[test]
fn resolve_is_idempotent_and_reroutes() {
    let mut dfg = DataFlowGraph::new();
    let c0 = dfg.numeric_constant(7u128, Type::Field);
    let c1 = dfg.numeric_constant(9u128, Type::Field);
    assert_eq!(dfg.resolve(c1), c1);
    dfg.replace_value(c1, c0);
    assert_eq!(dfg.resolve(c1), c0);
    assert_eq!(dfg.resolve(dfg.resolve(c1)), dfg.resolve(c1));
}

#[test]
fn results_are_singly_defined() {
    let mut f = Function::new(String::from("main"), FunctionId(0));
    let v0 = f.add_parameter(Type::Field);
    let entry = f.entry_block;
    let i1 = f.dfg.insert_instruction(entry, Instruction::Not { value: v0 }, vec![Type::Field]);
    let i2 = f.dfg.insert_instruction(entry, Instruction::Not { value: v0 }, vec![Type::Field]);
    let r1 = f.dfg.instruction_results(i1)[0];
    let r2 = f.dfg.instruction_results(i2)[0];
    assert_ne!(r1, r2);
}

#[test]
fn allocator_seeds_past_maximum_id() {
    let f0 = Function::new(String::from("main"), FunctionId(0));
    let f2 = Function::new(String::from("two"), FunctionId(2));
    let f5 = Function::new(String::from("five"), FunctionId(5));
    let err_types: Vec<(u64, Type)> = Vec::new();
    let mut ssa = Ssa::new(vec![f0, f2, f5], err_types);
    let new_id = ssa.add_fn(|id| Function::new(String::from("six"), id));
    assert_eq!(new_id, FunctionId(6));
    let after = ssa.add_fn(|id| Function::new(String::from("seven"), id));
    assert_eq!(after, FunctionId(7));
}

#[test]
fn counter_hands_out_increasing_ids() {
    let mut c = AtomicCounter::starting_after(5);
    let a = c.next();
    let b = c.next();
    assert_eq!(a, 6);
    assert_eq!(b, 7);
    assert!(a < b);
}

#[test]
fn entry_point_index_is_dense_and_deterministic() {
    let build = || {
        let main = Function::new(String::from("main"), FunctionId(0));
        let mut fold = Function::new(String::from("folded"), FunctionId(3));
        fold.runtime = RuntimeType::Acir(InlineType::Fold);
        let plain = Function::new(String::from("plain"), FunctionId(5));
        let err_types: Vec<(u64, Type)> = Vec::new();
        Ssa::new(vec![main, fold, plain], err_types)
    };
    let s1 = build().generate_entry_point_index();
    let s2 = build().generate_entry_point_index();
    assert_eq!(s1.get_entry_point_index(&FunctionId(0)), Some(0));
    assert_eq!(s1.get_entry_point_index(&FunctionId(3)), Some(1));
    // a non-entry function has no index, rather than a default one
    assert_eq!(s1.get_entry_point_index(&FunctionId(5)), None);
    assert_eq!(
        s1.entry_point_to_generated_index,
        s2.entry_point_to_generated_index
    );
}

#[test]
fn arrays_display_nested_with_lane_types() {
    let mut f = Function::new(String::from("main"), FunctionId(0));
    let one = f.dfg.numeric_constant(1u128, Type::Field);
    let two = f.dfg.numeric_constant(2u128, Type::Field);
    let inner = f.dfg.make_array(
        vec![one, two],
        Type::Array { element_types: vec![Type::Field], length: 2 },
    );
    let outer = f.dfg.make_array(
        vec![inner, one],
        Type::Array {
            element_types: vec![
                Type::Array { element_types: vec![Type::Field], length: 2 },
                Type::Field,
            ],
            length: 1,
        },
    );
    assert_eq!(value(&f, inner), "[Field 1, Field 2] of Field");
    assert_eq!(
        value(&f, outer),
        "[[Field 1, Field 2] of Field, Field 1] of ([Field; 2], Field)"
    );
}

#[test]
fn call_displays_result_types() {
    let mut f = Function::new(String::from("main"), FunctionId(0));
    let v0 = f.add_parameter(Type::Field);
    let callee = f.dfg.function_value(FunctionId(1));
    let entry = f.entry_block;
    let i = f.dfg.insert_instruction(
        entry,
        Instruction::Call { func: callee, arguments: vec![v0] },
        vec![Type::Field, Type::Unsigned { bit_size: 32 }],
    );
    let mut out = String::new();
    display_instruction(&f, i, &mut out);
    assert_eq!(out, "    v2, v3 = call f1(v0) -> (Field, u32)\n");
}

#[test]
fn unterminated_block_shows_placeholder() {
    let f = Function::new(String::from("main"), FunctionId(0));
    let text = display_function(&f);
    assert_eq!(
        text,
        "acir(inline) fn main f0 {\n  b0():\n    (no terminator instruction)\n}"
    );
}

#[test]
fn jmpif_and_walker_cover_both_branches() {
    let mut f = Function::new(String::from("cond"), FunctionId(0));
    let v0 = f.add_parameter(Type::Unsigned { bit_size: 1 });
    let b0 = f.entry_block;
    let b1 = f.dfg.make_block();
    let b2 = f.dfg.make_block();
    f.dfg.set_terminator(
        b0,
        TerminatorInstruction::JmpIf { condition: v0, then_destination: b1, else_destination: b2 },
    );
    f.dfg
        .set_terminator(b1, TerminatorInstruction::Return { return_values: vec![] });
    f.dfg
        .set_terminator(b2, TerminatorInstruction::Return { return_values: vec![] });
    let text = display_function(&f);
    assert_eq!(
        text,
        "acir(inline) fn cond f0 {\n  b0(v0: u1):\n    jmpif v0 then: b1, else: b2\n  b1():\n    return\n  b2():\n    return\n}"
    );
}

#[test]
fn main_lookup_and_entry_classification() {
    let main = Function::new(String::from("main"), FunctionId(1));
    let mut fold = Function::new(String::from("folded"), FunctionId(4));
    fold.runtime = RuntimeType::Acir(InlineType::Fold);
    let err_types: Vec<(u64, Type)> = Vec::new();
    let ssa = Ssa::new(vec![main, fold], err_types);
    assert_eq!(ssa.main().name, "main");
    assert!(ssa.is_entry_point(FunctionId(1)));
    assert!(ssa.is_entry_point(FunctionId(4)));
    let _ = BasicBlock::new();
    let _ = BasicBlockId(0);
    let _ = ValueId(0);
}
