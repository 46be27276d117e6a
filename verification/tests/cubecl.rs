use ufo::bytecode::Bytecode;
use ufo::cubecl::{
    decode_program, header_field, infer_backend_from_device_selector, list_devices,
    parse_device_index, parse_device_selector, run_options, wgpu_device_from_id, CubeClBackend,
    CubeClDevice, CubeClTrackRunOptions, HEADER_ARGC_SHIFT, HEADER_AUX_SHIFT, HEADER_FLAGS_SHIFT,
    HEADER_OP_SHIFT,
};
use ufo::flags::PassFlags;
use ufo::instruction::{ArgValue, Instruction, OP_DRIFT, OP_KICK};
use ufo::UfoError;
use ufo::stable_aperture::{first_lost_turns, scan_turns, StableApertureOptions};

fn arg(value: f64) -> ArgValue {
    ArgValue { bits64: value.to_bits(), bits32: (value as f32).to_bits() }
}

fn parse_message(result: Result<CubeClDevice, UfoError>) -> String {
    match result {
        Err(UfoError::Parse(message)) => message,
        other => panic!("expected a parse error, got {other:?}"),
    }
}

#[test]
fn decodes_headers_offsets_and_arguments() {
    let bytecode = Bytecode::from_instructions(
        vec![
            Instruction::drift("d", arg(2.0), true),
            Instruction::kick("k", vec![arg(0.1)], vec![arg(0.2)], false, true),
            Instruction::rewind("rw"),
        ],
        false,
    );

    let decoded = decode_program(bytecode.instructions());

    assert_eq!(decoded.headers.len(), 3);
    assert_eq!(decoded.arg_offsets, vec![0, 1, 3]);
    let args32: Vec<f32> = decoded.args32.iter().map(|b| f32::from_bits(*b)).collect();
    let args64: Vec<f64> = decoded.args64.iter().map(|b| f64::from_bits(*b)).collect();
    assert_eq!(args32, vec![2.0, 0.1, 0.2]);
    assert_eq!(args64, vec![2.0, 0.1, 0.2]);

    let drift = decoded.headers[0];
    assert_eq!(header_field(drift, HEADER_OP_SHIFT), OP_DRIFT as u32);
    assert_eq!(header_field(drift, HEADER_FLAGS_SHIFT), PassFlags::EXACT as u32);
    assert_eq!(header_field(drift, HEADER_ARGC_SHIFT), 1);

    let kick = decoded.headers[1];
    assert_eq!(header_field(kick, HEADER_OP_SHIFT), OP_KICK as u32);
    assert_eq!(header_field(kick, HEADER_AUX_SHIFT), 1);
    assert_eq!(header_field(kick, HEADER_ARGC_SHIFT), 2);
}

#[test]
fn header_fields_read_back_what_was_written() {
    let instruction = Instruction::new("x", "custom", 7, PassFlags::from_bits_retain(0x41), 9, vec![arg(1.0); 3]);
    let decoded = decode_program(&[instruction]);
    let h = decoded.headers[0];
    assert_eq!(h, 7 | (0x41 << 8) | (9 << 16) | (3 << 24));
    assert_eq!(header_field(h, HEADER_OP_SHIFT), 7);
    assert_eq!(header_field(h, HEADER_FLAGS_SHIFT), 0x41);
    assert_eq!(header_field(h, HEADER_AUX_SHIFT), 9);
    assert_eq!(header_field(h, HEADER_ARGC_SHIFT), 3);
}

#[test]
fn device_selectors_name_devices() {
    assert_eq!(parse_device_selector(CubeClBackend::Auto, None).unwrap(), CubeClDevice::Default);
    assert_eq!(
        parse_device_selector(CubeClBackend::Auto, Some("vulkan:discrete:0".to_string())).unwrap(),
        CubeClDevice::DiscreteGpu(0)
    );
    assert_eq!(
        parse_device_selector(CubeClBackend::Cuda, Some("0".to_string())).unwrap(),
        CubeClDevice::Index(0)
    );
    assert_eq!(
        parse_device_selector(CubeClBackend::Vulkan, Some("3".to_string())).unwrap(),
        CubeClDevice::DiscreteGpu(3)
    );
    assert_eq!(
        parse_device_selector(CubeClBackend::Metal, Some(" metal:integrated:2 ".to_string())).unwrap(),
        CubeClDevice::IntegratedGpu(2)
    );
    assert_eq!(
        parse_device_selector(CubeClBackend::Vulkan, Some("virtual:1".to_string())).unwrap(),
        CubeClDevice::VirtualGpu(1)
    );
    assert_eq!(
        parse_device_selector(CubeClBackend::Cpu, Some("cpu:0".to_string())).unwrap(),
        CubeClDevice::WgpuCpu
    );
    assert_eq!(
        parse_device_selector(CubeClBackend::Cuda, Some("0".to_string())).unwrap(),
        CubeClDevice::Index(0)
    );
    assert_eq!(
        parse_device_selector(CubeClBackend::Vulkan, Some("CPU".to_string())).unwrap(),
        CubeClDevice::WgpuCpu
    );
    assert_eq!(
        parse_device_selector(CubeClBackend::Hip, Some("Default".to_string())).unwrap(),
        CubeClDevice::Default
    );
    assert_eq!(
        parse_device_selector(CubeClBackend::Hip, Some("+4".to_string())).unwrap(),
        CubeClDevice::Index(4)
    );
}

#[test]
fn device_selector_errors_name_the_selector() {
    assert_eq!(
        parse_message(parse_device_selector(CubeClBackend::Cuda, Some("vulkan:0".to_string()))),
        "device selector `vulkan:0` does not match backend Cuda"
    );
    assert_eq!(
        parse_message(parse_device_selector(CubeClBackend::Vulkan, Some("gpu".to_string()))),
        "invalid device selector `gpu`"
    );
    assert_eq!(
        parse_message(parse_device_selector(CubeClBackend::Vulkan, Some("discrete:x".to_string()))),
        "invalid device selector `discrete:x`"
    );
    assert_eq!(
        parse_message(parse_device_selector(CubeClBackend::Cpu, Some("-1".to_string()))),
        "invalid device selector `-1`"
    );
    match parse_device_index("12", "vulkan:discrete:12") {
        Ok(i) => assert_eq!(i, 12),
        other => panic!("unexpected: {other:?}"),
    }
    match parse_device_index("1x", "raw") {
        Err(UfoError::Parse(m)) => assert_eq!(m, "invalid device selector `raw`"),
        other => panic!("unexpected: {other:?}"),
    }
}

#[test]
fn backend_is_inferred_from_the_selector_prefix() {
    assert_eq!(infer_backend_from_device_selector("cpu:0"), Some(CubeClBackend::Cpu));
    assert_eq!(infer_backend_from_device_selector("vulkan:cpu"), Some(CubeClBackend::Vulkan));
    assert_eq!(infer_backend_from_device_selector("cuda:1"), Some(CubeClBackend::Cuda));
    assert_eq!(infer_backend_from_device_selector("hip:1"), Some(CubeClBackend::Hip));
    assert_eq!(infer_backend_from_device_selector("metal:0"), Some(CubeClBackend::Metal));
    assert_eq!(infer_backend_from_device_selector(" cpu:0"), None);
    assert_eq!(infer_backend_from_device_selector("0"), None);
}

#[test]
fn run_options_take_the_backend_from_the_selector() {
    let options = run_options(CubeClBackend::Auto, Some("vulkan:discrete:1".to_string()), 5).unwrap();
    assert_eq!(options.backend, CubeClBackend::Vulkan);
    assert_eq!(options.device, CubeClDevice::DiscreteGpu(1));
    assert_eq!(options.turns, 5);
    let options = run_options(CubeClBackend::Cuda, Some("0".to_string()), 1).unwrap();
    assert_eq!(options.backend, CubeClBackend::Cuda);
    assert_eq!(options.device, CubeClDevice::Index(0));
    let options = run_options(CubeClBackend::Auto, None, 2).unwrap();
    assert_eq!(options.backend, CubeClBackend::Auto);
    assert_eq!(options.device, CubeClDevice::Default);
    assert!(run_options(CubeClBackend::Cpu, Some("vulkan:0".to_string()), 1).is_err());
}

#[test]
fn listed_selectors_select_their_devices() {
    let devices = list_devices(&[(1, 0), (3, 1), (0, 2), (2, 0), (7, 4)]);
    let selectors: Vec<&str> = devices.iter().map(|d| d.selector.as_str()).collect();
    assert_eq!(
        selectors,
        vec![
            "vulkan:integrated:0",
            "vulkan:cpu",
            "vulkan:discrete:2",
            "vulkan:virtual:0",
            "vulkan:default",
            "cpu:0"
        ]
    );
    for device in &devices[..5] {
        assert_eq!(device.backend, CubeClBackend::Vulkan);
        let options = run_options(CubeClBackend::Auto, Some(device.selector.clone()), 1).unwrap();
        assert_eq!(options.backend, CubeClBackend::Vulkan);
        assert_eq!(options.device, device.device);
    }
    assert_eq!(devices[5].backend, CubeClBackend::Cpu);
    assert_eq!(devices[5].device, CubeClDevice::Default);
    assert_eq!(wgpu_device_from_id(3, 9), CubeClDevice::WgpuCpu);
    assert_eq!(wgpu_device_from_id(9, 9), CubeClDevice::Default);
}

#[test]
fn default_run_options_use_one_turn_on_any_backend() {
    let options = CubeClTrackRunOptions::default();
    assert_eq!(options.turns, 1);
    assert_eq!(options.backend, CubeClBackend::Auto);
    assert_eq!(options.device, CubeClDevice::Default);
}

#[test]
fn stable_aperture_records_the_first_lost_turn() {
    let lost = vec![vec![false, false, true], vec![true, false, true], vec![true, false, false]];
    let aperture = first_lost_turns(3, 3, &lost);
    assert_eq!(aperture.lost_turns, vec![1, 3, 0]);
    assert_eq!(scan_turns(0), 1);
    assert_eq!(scan_turns(7), 7);
    let options = StableApertureOptions::default();
    assert_eq!(options.turns, 1000);
    assert_eq!(options.run_options.build_options, "-cl-fast-relaxed-math -cl-mad-enable -DUFO_QUIET");
}

#[test]
fn default_compile_options_are_single_precision_one_turn() {
    let options = ufo::compiler::CompileOptions::default();
    assert!(options.flags.is_empty());
    assert_eq!(options.turns, 1);
    assert!(!options.is_64bit);
    assert!(!options.collapse_linear);
}

#[test]
fn arguments_stand_at_their_instruction_offsets() {
    let instructions = vec![
        Instruction::kick("k1", vec![arg(1.0), arg(2.0)], vec![arg(3.0)], false, false),
        Instruction::rewind("rw"),
        Instruction::drift("d", arg(4.5), false),
    ];
    let decoded = decode_program(&instructions);
    assert_eq!(decoded.arg_offsets, vec![0, 3, 3]);
    for (k, instruction) in instructions.iter().enumerate() {
        for (j, value) in instruction.args.iter().enumerate() {
            let at = decoded.arg_offsets[k] as usize + j;
            assert_eq!(decoded.args32[at], value.bits32);
            assert_eq!(decoded.args64[at], value.bits64);
        }
    }
}
