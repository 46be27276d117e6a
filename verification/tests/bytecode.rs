use ufo::bytecode::Bytecode;
use ufo::instruction::{ArgValue, Instruction, OP_KICK, OP_NEXT_OFFSET};
use ufo::opencl::{align_up, plan_interpreter_run, TrackRunOptions};
use ufo::UfoError;

fn arg(value: f64) -> ArgValue {
    ArgValue { bits64: value.to_bits(), bits32: (value as f32).to_bits() }
}

#[test]
fn emits_legacy_compatible_32_bit_words() {
    let bytecode = Bytecode::from_instructions(
        vec![
            Instruction::drift("d1", arg(1.2), true),
            Instruction::kick("k1", vec![arg(0.0), arg(0.1)], Vec::new(), false, false),
            Instruction::rewind("rw"),
        ],
        false,
    );
    assert_eq!(bytecode.emit_bytes().unwrap().len(), 24);
    assert_eq!(bytecode.emit_u32_words().unwrap().len(), 6);
}

#[test]
fn emits_legacy_compatible_64_bit_words() {
    let bytecode = Bytecode::from_instructions(vec![Instruction::rewind("rw")], true);
    assert_eq!(bytecode.emit_bytes().unwrap(), vec![255, 0, 128, 0, 0, 0, 0, 0]);
}

#[test]
fn chunks_bytecode_with_next_offsets_and_padding() {
    let bytecode = Bytecode::from_instructions(
        vec![
            Instruction::drift("d1", arg(1.0), false),
            Instruction::drift("d2", arg(2.0), false),
            Instruction::rewind("rw"),
        ],
        false,
    );
    let chunked = bytecode.chunked(4).unwrap();
    assert!(chunked.instructions().iter().any(|i| i.kind == "next_offset"));
    assert_eq!(chunked.word_count(), 7);
}

#[test]
fn rewind_encoding_matches_interpreter_layout() {
    let bytecode = Bytecode::from_instructions(vec![Instruction::rewind("rw")], false);
    assert_eq!(bytecode.emit_bytes().unwrap(), vec![255, 128, 0, 0]);
}

#[test]
fn simple_sequence_has_expected_word_count() {
    let bytecode = Bytecode::from_instructions(
        vec![
            Instruction::drift("d", arg(1.2), true),
            Instruction::kick("k", vec![arg(0.0), arg(0.1)], vec![], false, false),
            Instruction::rewind("rw"),
        ],
        false,
    );
    assert_eq!(bytecode.word_count(), 6);
    assert_eq!(bytecode.emit_bytes().unwrap().len(), 24);
}

#[test]
fn drift_encodes_header_then_single_precision_length() {
    let bytecode = Bytecode::from_instructions(vec![Instruction::drift("d", arg(1.5), true)], false);
    let bytes = bytecode.emit_bytes().unwrap();
    let bits = 1.5f32.to_bits().to_le_bytes();
    assert_eq!(bytes, vec![1, 0x04, 0, 1, bits[0], bits[1], bits[2], bits[3]]);
    let words = bytecode.emit_u32_words().unwrap();
    assert_eq!(words, vec![u32::from_le_bytes([1, 0x04, 0, 1]), 1.5f32.to_bits()]);
}

#[test]
fn sixty_four_bit_words_hold_double_precision_arguments() {
    let bytecode = Bytecode::from_instructions(vec![Instruction::drift("d", arg(0.1), false)], true);
    let words = bytecode.emit_u64_words().unwrap();
    assert_eq!(words.len(), 2);
    assert_eq!(words[1], 0.1f64.to_bits());
    assert_eq!(bytecode.emit_bytes().unwrap().len(), 16);
}

#[test]
fn too_many_arguments_for_a_32_bit_header_is_an_error() {
    let knl: Vec<ArgValue> = (0..256).map(|k| arg(k as f64)).collect();
    let bytecode =
        Bytecode::from_instructions(vec![Instruction::kick("big", knl, Vec::new(), false, false)], false);
    match bytecode.emit_bytes() {
        Err(UfoError::TooManyInstructionArgs { name, count, max }) => {
            assert_eq!(name, "big");
            assert_eq!(count, 256);
            assert_eq!(max, 255);
        }
        other => panic!("unexpected: {other:?}"),
    }
    let wide = Bytecode::from_instructions(
        vec![Instruction::kick("big", (0..256).map(|k| arg(k as f64)).collect(), Vec::new(), false, false)],
        true,
    );
    assert_eq!(wide.emit_bytes().unwrap().len(), 8 * 257);
}

#[test]
fn kick_counts_normal_coefficients_in_aux() {
    let k = Instruction::kick("k", vec![arg(0.1), arg(0.2), arg(0.3)], vec![arg(0.4)], false, false);
    assert_eq!(k.op, OP_KICK);
    assert_eq!(k.aux, 3);
    assert_eq!(k.args.len(), 4);
    let linear = Instruction::kick("k", vec![arg(0.1), arg(0.2), arg(0.3)], vec![arg(0.4)], true, false);
    assert_eq!(linear.aux, 2);
    assert_eq!(linear.args.len(), 3);
}

#[test]
fn chunk_size_below_two_words_is_refused() {
    let bytecode = Bytecode::from_instructions(vec![Instruction::rewind("rw")], false);
    assert!(matches!(bytecode.chunked(1), Err(UfoError::InvalidBytecodeChunkSize)));
}

#[test]
fn instruction_larger_than_a_chunk_is_refused() {
    let bytecode = Bytecode::from_instructions(
        vec![Instruction::kick("k", vec![arg(0.1), arg(0.2), arg(0.3)], Vec::new(), false, false)],
        false,
    );
    match bytecode.chunked(3) {
        Err(UfoError::InstructionTooLargeForChunk { name, words, chunk_words }) => {
            assert_eq!(name, "k");
            assert_eq!(words, 4);
            assert_eq!(chunk_words, 3);
        }
        other => panic!("unexpected: {other:?}"),
    }
}

#[test]
fn chunks_are_padded_before_each_next_offset() {
    let bytecode = Bytecode::from_instructions(
        vec![
            Instruction::drift("d1", arg(1.0), false),
            Instruction::drift("d2", arg(2.0), false),
            Instruction::rewind("rw"),
        ],
        false,
    );
    let chunked = bytecode.chunked(4).unwrap();
    let kinds: Vec<&str> = chunked.instructions().iter().map(|i| i.kind.as_str()).collect();
    assert_eq!(kinds, vec!["drift", "noop", "next_offset", "drift", "rewind"]);
    assert_eq!(chunked.instructions()[2].op, OP_NEXT_OFFSET);
    assert_eq!(chunked.instructions()[2].name, "next_offset");
    assert_eq!(chunked.instructions()[1].name, "chunk_pad");
}

#[test]
fn align_up_rounds_to_the_next_multiple() {
    assert_eq!(align_up(0, 64), 0);
    assert_eq!(align_up(1, 64), 64);
    assert_eq!(align_up(64, 64), 64);
    assert_eq!(align_up(65, 64), 128);
    assert_eq!(align_up(7, 4), 8);
}

#[test]
fn interpreter_plan_pads_the_program_to_whole_buffers() {
    let bytecode = Bytecode::from_instructions(
        vec![
            Instruction::drift("d1", arg(1.0), false),
            Instruction::drift("d2", arg(2.0), false),
            Instruction::rewind("rw"),
        ],
        false,
    );
    let plan = plan_interpreter_run(&bytecode, 2, 3, &TrackRunOptions::default()).unwrap();
    assert_eq!(plan.instruction_buffer_words, 256);
    assert_eq!(plan.local_buffer_bytes, 1024);
    assert_eq!(plan.instruction_bytes.len(), 1024);
    assert_eq!(&plan.instruction_bytes[..20], &bytecode.emit_bytes().unwrap()[..]);
    assert!(plan.instruction_bytes[20..].iter().all(|b| *b == 0));
    assert_eq!(plan.turns, 1);
    assert_eq!(plan.output_len, 6);
    assert_eq!(plan.instruction_count_arg, 3);

    let options = TrackRunOptions { turns: 4, local_instruction_words: Some(4), ..TrackRunOptions::default() };
    let plan = plan_interpreter_run(&bytecode, 1, 2, &options).unwrap();
    assert_eq!(plan.instruction_buffer_words, 4);
    assert_eq!(plan.instruction_bytes.len(), 8 * 4);
    assert_eq!(plan.instruction_count_arg, 5 * 4);
    assert_eq!(plan.output_len, 8);
    assert_eq!(plan.local_buffer_bytes, 64);

    let options = TrackRunOptions { local_instruction_words: Some(1), ..TrackRunOptions::default() };
    assert!(matches!(plan_interpreter_run(&bytecode, 1, 1, &options), Err(UfoError::InvalidBytecodeChunkSize)));
}
