use ratson::lexer::{Instruction, Lexer, LexerMode};
use ratson::value::Value;
use ratson::vm::{Vm, VmError};

fn run_program(input: &[u8]) -> Result<Option<Value>, VmError> {
    let mut vm = Vm::new(input);
    vm.run()
}

#[test]
fn test_flip() {
    let mut lexer = Lexer::new(b"b?b");
    assert_eq!(Some(Some(Instruction::Ishl)), lexer.next());
    assert_eq!(Some(Some(Instruction::Snew)), lexer.next());
    assert_eq!(Some(Some(Instruction::Fnan)), lexer.next());
}

#[test]
fn primary_table_is_complete() {
    let cases: [(u8, Instruction); 23] = [
        (b'B', Instruction::Inew),
        (b'u', Instruction::Iinc),
        (b'b', Instruction::Ishl),
        (b'a', Instruction::Iadd),
        (b'A', Instruction::Ineg),
        (b'e', Instruction::Isht),
        (b'i', Instruction::Itof),
        (b'\'', Instruction::Itou),
        (b'q', Instruction::Finf),
        (b't', Instruction::Fnan),
        (b'p', Instruction::Fneg),
        (b'?', Instruction::Snew),
        (b'!', Instruction::Sadd),
        (b'~', Instruction::Onew),
        (b'M', Instruction::Oadd),
        (b'@', Instruction::Anew),
        (b's', Instruction::Aadd),
        (b'z', Instruction::Bnew),
        (b'o', Instruction::Bneg),
        (b'.', Instruction::Nnew),
        (b'E', Instruction::Gdup),
        (b'#', Instruction::Gpop),
        (b'%', Instruction::Gswp),
    ];
    for (byte, inst) in cases {
        let mut mode = LexerMode::A;
        assert_eq!(mode.byte_to_instruction(byte), Some(inst));
        if inst == Instruction::Snew {
            assert_eq!(mode, LexerMode::S);
        } else {
            assert_eq!(mode, LexerMode::A);
        }
    }
}

#[test]
fn secondary_table_is_complete() {
    let cases: [(u8, Instruction); 23] = [
        (b'S', Instruction::Inew),
        (b'h', Instruction::Iinc),
        (b'a', Instruction::Ishl),
        (b'k', Instruction::Iadd),
        (b'r', Instruction::Ineg),
        (b'A', Instruction::Isht),
        (b'z', Instruction::Itof),
        (b'i', Instruction::Itou),
        (b'm', Instruction::Finf),
        (b'b', Instruction::Fnan),
        (b'u', Instruction::Fneg),
        (b'$', Instruction::Snew),
        (b'-', Instruction::Sadd),
        (b'+', Instruction::Onew),
        (b'g', Instruction::Oadd),
        (b'v', Instruction::Anew),
        (b'?', Instruction::Aadd),
        (b'^', Instruction::Bnew),
        (b'!', Instruction::Bneg),
        (b'y', Instruction::Nnew),
        (b'/', Instruction::Gdup),
        (b'e', Instruction::Gpop),
        (b':', Instruction::Gswp),
    ];
    for (byte, inst) in cases {
        let mut mode = LexerMode::S;
        assert_eq!(mode.byte_to_instruction(byte), Some(inst));
        if inst == Instruction::Snew {
            assert_eq!(mode, LexerMode::A);
        } else {
            assert_eq!(mode, LexerMode::S);
        }
    }
}

#[test]
fn unrecognized_bytes_yield_no_value() {
    assert_eq!(run_program(b"cdfgjklmnrvwxy KH129"), Ok(None));
}

#[test]
fn empty_input_yields_no_value() {
    assert_eq!(run_program(b""), Ok(None));
}

#[test]
fn mode_flips_back_on_second_new_string() {
    let mut lexer = Lexer::new(b"?$b");
    assert_eq!(Some(Some(Instruction::Snew)), lexer.next());
    assert_eq!(Some(Some(Instruction::Snew)), lexer.next());
    assert_eq!(Some(Some(Instruction::Ishl)), lexer.next());
    assert_eq!(None, lexer.next());
}

#[test]
fn tokenizer_is_deterministic() {
    let input = b"b?b$SaA~M@!xyz%#E.";
    let mut first: Vec<Option<Instruction>> = Vec::new();
    let mut lexer = Lexer::new(input);
    while let Some(tok) = lexer.next() {
        first.push(tok);
    }
    let mut second: Vec<Option<Instruction>> = Vec::new();
    let mut lexer = Lexer::new(input);
    while let Some(tok) = lexer.next() {
        second.push(tok);
    }
    assert_eq!(first, second);
    assert_eq!(first.len(), input.len());
}

#[test]
fn itof_is_a_bit_reinterpretation() {
    assert_eq!(run_program(b"Bi"), Ok(Some(Value::Float(0))));
    assert_eq!(f64::from_bits(0), 0.0);
    // Int(-1) reinterpreted: all bits set, a NaN-class pattern, not -1.0.
    assert_eq!(run_program(b"BuAi"), Ok(Some(Value::Float(u64::MAX))));
    assert_eq!(u64::MAX, (-1i64) as u64);
    assert!(f64::from_bits(u64::MAX).is_nan());
    assert_ne!(f64::from_bits(u64::MAX).to_bits(), (-1.0f64).to_bits());
}

#[test]
fn itou_is_a_bit_reinterpretation() {
    assert_eq!(run_program(b"BuA'"), Ok(Some(Value::Uint(u64::MAX))));
}

#[test]
fn sadd_appends_only_the_low_byte() {
    // Builds Int(321) = 0x0141 next to an empty string; Sadd keeps 0x41.
    assert_eq!(
        run_program(b"?Shaahaaaaaah-"),
        Ok(Some(Value::String(vec![0x41])))
    );
}

#[test]
fn snew_pushes_an_empty_string() {
    assert_eq!(run_program(b"?"), Ok(Some(Value::String(Vec::new()))));
}

#[test]
fn gswp_swaps_the_top_two() {
    // Stack [Int(1), Int(2)] becomes [Int(2), Int(1)]: the new top is Int(1) ...
    assert_eq!(run_program(b"BuBuu%"), Ok(Some(Value::Int(1))));
    // ... and below it sits Int(2).
    assert_eq!(run_program(b"BuBuu%#"), Ok(Some(Value::Int(2))));
}

#[test]
fn gswp_underflow_is_a_fault() {
    assert_eq!(run_program(b"%"), Err(VmError::StackUnderflow));
    assert_eq!(run_program(b"B%"), Err(VmError::StackUnderflow));
}

#[test]
fn oadd_with_a_duplicate_key_overwrites() {
    // Two inserts under the empty key: one entry remains, with the second value.
    assert_eq!(
        run_program(b"~?Sg$BuM"),
        Ok(Some(Value::Object(vec![(Vec::new(), Value::Int(1))])))
    );
}

#[test]
fn end_to_end_primary_increments() {
    // Inew, Iinc, Iinc build Int(2); Iadd lacks its second operand and is a
    // no-op, so the top stays Int(2).
    assert_eq!(run_program(b"Buua"), Ok(Some(Value::Int(2))));
}

#[test]
fn iadd_adds_in_place() {
    assert_eq!(run_program(b"BuBuua"), Ok(Some(Value::Int(3))));
}

#[test]
fn ishl_wraps_like_the_native_shift() {
    // Shifting Int(1) left 64 times wraps around to zero.
    let mut program: Vec<u8> = b"Bu".to_vec();
    program.extend(std::iter::repeat(b'b').take(64));
    assert_eq!(run_program(&program), Ok(Some(Value::Int(0))));
}

#[test]
fn isht_uses_the_shift_count_modulo_64() {
    // Int(1) shifted by Int(64): the count is masked to 0, leaving Int(1).
    assert_eq!(run_program(b"BuBubbbbbbe"), Ok(Some(Value::Int(1))));
}

#[test]
fn ineg_negates() {
    assert_eq!(run_program(b"BuuuA"), Ok(Some(Value::Int(-3))));
}

#[test]
fn type_mismatch_is_a_silent_no_op() {
    // Iinc on a Bool changes nothing.
    assert_eq!(run_program(b"zu"), Ok(Some(Value::Bool(false))));
    // Iinc on a Float changes nothing.
    assert_eq!(
        run_program(b"qu"),
        Ok(Some(Value::Float(0x7FF0000000000000)))
    );
}

#[test]
fn missing_operands_are_a_silent_no_op() {
    // Iinc on an empty stack.
    assert_eq!(run_program(b"u"), Ok(None));
    // Iadd with only one element leaves the stack unchanged.
    assert_eq!(run_program(b"Ba"), Ok(Some(Value::Int(0))));
}

#[test]
fn floats_are_the_documented_constants() {
    let inf = run_program(b"q");
    assert_eq!(inf, Ok(Some(Value::Float(0x7FF0000000000000))));
    if let Ok(Some(Value::Float(bits))) = inf {
        assert!(f64::from_bits(bits).is_infinite());
        assert!(f64::from_bits(bits) > 0.0);
    }
    let neg_inf = run_program(b"qp");
    assert_eq!(neg_inf, Ok(Some(Value::Float(0xFFF0000000000000))));
    if let Ok(Some(Value::Float(bits))) = neg_inf {
        assert!(f64::from_bits(bits).is_infinite());
        assert!(f64::from_bits(bits) < 0.0);
    }
    let nan = run_program(b"t");
    assert_eq!(nan, Ok(Some(Value::Float(0x7FF8000000000000))));
    if let Ok(Some(Value::Float(bits))) = nan {
        assert!(f64::from_bits(bits).is_nan());
    }
    // Negating a NaN flips only its sign bit.
    assert_eq!(run_program(b"tp"), Ok(Some(Value::Float(0xFFF8000000000000))));
}

#[test]
fn arrays_collect_values_in_order() {
    assert_eq!(run_program(b"@"), Ok(Some(Value::Array(Vec::new()))));
    assert_eq!(
        run_program(b"@zs"),
        Ok(Some(Value::Array(vec![Value::Bool(false)])))
    );
    assert_eq!(
        run_program(b"@.szs"),
        Ok(Some(Value::Array(vec![Value::Nil, Value::Bool(false)])))
    );
}

#[test]
fn bools_toggle() {
    assert_eq!(run_program(b"z"), Ok(Some(Value::Bool(false))));
    assert_eq!(run_program(b"zo"), Ok(Some(Value::Bool(true))));
    assert_eq!(run_program(b"zoo"), Ok(Some(Value::Bool(false))));
}

#[test]
fn nil_is_a_value() {
    assert_eq!(run_program(b"."), Ok(Some(Value::Nil)));
}

#[test]
fn gdup_duplicates_the_top() {
    assert_eq!(run_program(b"BuEa"), Ok(Some(Value::Int(2))));
}

#[test]
fn gpop_discards_the_top() {
    assert_eq!(run_program(b"Bu#"), Ok(None));
    assert_eq!(run_program(b"#"), Ok(None));
}
