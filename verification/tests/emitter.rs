use fish_in_a_jit::bytecode::Bytecode;
use fish_in_a_jit::dmo::{Context, Dmo, Operator};
use fish_in_a_jit::jit::x86::{Abi, CallTable};
use fish_in_a_jit::jit::{JitAssembler, JitError, JitFn, JitMemory, Protection, PAGE_SIZE};
use fish_in_a_jit::le::{u32_byte, u64_byte};

const TARGETS: CallTable = CallTable {
    context: 0x1122_3344_5566_7788,
    print: 0x0102_0304_0506_0708,
    exit: 0x1112_1314_1516_1718,
    draw: 0x2122_2324_2526_2728,
    clear: 0x3132_3334_3536_3738,
};

const CONTEXT_LE: [u8; 8] = [0x88, 0x77, 0x66, 0x55, 0x44, 0x33, 0x22, 0x11];

/// What was written to a region: the start of its image.
fn emitted(mem: JitMemory) -> Vec<u8> {
    let n = mem.get_offset();
    let size = mem.get_size();
    let image = mem.to_jit_fn();
    assert_eq!(image.get_size(), size);
    assert!(image.as_bytes()[n..].iter().all(|b| *b == 0xc3));
    image.as_bytes()[..n].to_vec()
}

fn compiled(abi: Abi, operators: &Vec<Operator>) -> Vec<u8> {
    let mut mem = JitMemory::new(1);
    assert!(mem.has_room_for(operators));
    mem.fill_jit(abi, &TARGETS, operators);
    emitted(mem)
}

fn movabs(prefix: [u8; 2], value: u64) -> Vec<u8> {
    let mut v = prefix.to_vec();
    v.extend_from_slice(&value.to_le_bytes());
    v
}

fn movss(modrm: u8, value: f32) -> Vec<u8> {
    let mut v = vec![0x68];
    v.extend_from_slice(&value.to_le_bytes());
    v.extend_from_slice(&[0xf3, 0x0f, 0x10, modrm, 0x24, 0x48, 0x83, 0xc4, 0x08]);
    v
}

#[test]
fn bytes_of_numbers() {
    assert_eq!(u32_byte(0x0403_0201, 0), 0x01);
    assert_eq!(u32_byte(0x0403_0201, 1), 0x02);
    assert_eq!(u32_byte(0x0403_0201, 2), 0x03);
    assert_eq!(u32_byte(0x0403_0201, 3), 0x04);
    for k in 0..8u32 {
        assert_eq!(u64_byte(0x0807_0605_0403_0201, k), (k + 1) as u8);
        assert_eq!(u64_byte(u64::MAX, k), 0xff);
    }
}

#[test]
fn fresh_region() {
    let mem = JitMemory::new(3);
    assert_eq!(mem.get_size(), 3 * 4096);
    assert_eq!(PAGE_SIZE, 4096);
    assert_eq!(mem.get_offset(), 0);
    assert_eq!(mem.protection(), Protection::ReadWrite);
    let image = mem.to_jit_fn();
    assert_eq!(image.as_bytes(), &vec![0xc3u8; 3 * 4096]);
    assert_eq!(image.protection(), Protection::ReadExecute);
}

#[test]
fn region_of_no_pages() {
    let mem = JitMemory::new(0);
    assert_eq!(mem.get_size(), 0);
    assert!(!mem.has_room_for(&Vec::new()));
    assert_eq!(mem.to_jit_fn().get_size(), 0);
}

#[test]
fn a_region_is_writable_or_executable_never_both() {
    for p in [Protection::ReadWrite, Protection::ReadExecute] {
        let writable = p == Protection::ReadWrite;
        let executable = p == Protection::ReadExecute;
        assert!(writable != executable);
    }
    let mem = JitMemory::new(1);
    assert_ne!(mem.protection(), mem.to_jit_fn().protection());
}

#[test]
fn pushes_advance_the_cursor() {
    let mut mem = JitMemory::new(1);
    mem.push_u8(0xab);
    assert_eq!(mem.get_offset(), 1);
    mem.push_u32(0x0403_0201);
    assert_eq!(mem.get_offset(), 5);
    mem.push_u64(0x0c0b_0a09_0807_0605);
    assert_eq!(mem.get_offset(), 13);
    assert_eq!(mem.get_size(), 4096);
    assert_eq!(
        emitted(mem),
        vec![0xab, 0x01, 0x02, 0x03, 0x04, 0x05, 0x06, 0x07, 0x08, 0x09, 0x0a, 0x0b, 0x0c]
    );
}

#[test]
fn one_byte_instructions() {
    let mut mem = JitMemory::new(1);
    mem.ret();
    mem.push_rax();
    mem.pop_rax();
    mem.push_rbp();
    mem.pop_rbp();
    assert_eq!(emitted(mem), vec![0xc3, 0x50, 0x58, 0x55, 0x5d]);
}

#[test]
fn stack_frame_instructions() {
    let mut mem = JitMemory::new(1);
    mem.mov_rbp_rsp();
    mem.mov_rsp_rbp();
    mem.add_rsp_u8(8);
    mem.sub_rsp_u8(0x28);
    mem.call_rax();
    assert_eq!(
        emitted(mem),
        vec![
            0x48, 0x89, 0xe5, // mov rbp, rsp
            0x48, 0x89, 0xec, // mov rsp, rbp
            0x48, 0x83, 0xc4, 0x08, // add rsp, 8
            0x48, 0x83, 0xec, 0x28, // sub rsp, 0x28
            0xff, 0xd0, // call rax
        ]
    );
}

#[test]
fn mov_rax_imm32() {
    let mut mem = JitMemory::new(1);
    mem.mov_rax_u32(0xdead_beef);
    assert_eq!(emitted(mem), vec![0x48, 0xc7, 0xc0, 0xef, 0xbe, 0xad, 0xde]);
}

#[test]
fn movabs_of_each_register() {
    let value: u64 = 0x0102_0304_0506_0708;
    let mut mem = JitMemory::new(1);
    mem.movabs_rax_u64(value);
    mem.movabs_rdi_u64(value);
    mem.movabs_rsi_u64(value);
    mem.movabs_rdx_u64(value);
    mem.movabs_rcx_u64(value);
    mem.movabs_r8_u64(value);
    let mut expected = Vec::new();
    for prefix in [[0x48, 0xb8], [0x48, 0xbf], [0x48, 0xbe], [0x48, 0xba], [0x48, 0xb9], [0x49, 0xb8]] {
        expected.extend(movabs(prefix, value));
    }
    assert_eq!(emitted(mem), expected);
}

#[test]
fn movss_of_each_register() {
    let modrm = [0x04, 0x0c, 0x14, 0x1c, 0x24, 0x2c, 0x34, 0x3c];
    for n in 0..8usize {
        let mut mem = JitMemory::new(1);
        mem.movss_xmm_n_f32(n, 1.5f32.to_bits());
        assert_eq!(mem.get_offset(), 14);
        assert_eq!(
            emitted(mem),
            vec![
                0x68, 0x00, 0x00, 0xc0, 0x3f, // push 0x3fc00000
                0xf3, 0x0f, 0x10, modrm[n], 0x24, // movss xmm<n>, [rsp]
                0x48, 0x83, 0xc4, 0x08, // add rsp, 8
            ]
        );
        assert_eq!(modrm[n] as usize, 0x04 + 8 * n);
    }
}

#[test]
fn empty_program() {
    assert_eq!(
        compiled(Abi::SysV64, &Vec::new()),
        vec![0x55, 0x48, 0x89, 0xe5, 0x48, 0x89, 0xec, 0x5d, 0xc3]
    );
    assert_eq!(
        compiled(Abi::Win64, &Vec::new()),
        vec![0x48, 0x83, 0xec, 0x08, 0x48, 0x83, 0xc4, 0x08, 0xc3]
    );
}

#[test]
fn noop_emits_nothing() {
    let with = compiled(Abi::SysV64, &vec![Operator::NOOP, Operator::Print, Operator::NOOP]);
    let without = compiled(Abi::SysV64, &vec![Operator::Print]);
    assert_eq!(with, without);
    assert_eq!(JitMemory::op_size(&Operator::NOOP), 0);
}

#[test]
fn print_on_system_v() {
    let mut expected = vec![0x55, 0x48, 0x89, 0xe5];
    expected.extend(movabs([0x48, 0xbf], TARGETS.context));
    expected.extend(movabs([0x48, 0xb8], TARGETS.print));
    expected.extend([0xff, 0xd0]);
    expected.extend([0x48, 0x89, 0xec, 0x5d, 0xc3]);
    let code = compiled(Abi::SysV64, &vec![Operator::Print]);
    assert_eq!(code, expected);
    assert_eq!(&code[6..14], &CONTEXT_LE);
}

#[test]
fn every_operator_on_system_v() {
    let operators = vec![
        Operator::Exit(2.5f32.to_bits()),
        Operator::Print,
        Operator::Draw(3, 200, 1.5f32.to_bits()),
        Operator::Clear(0x5f),
    ];
    let mut expected = vec![0x55, 0x48, 0x89, 0xe5];
    // exit(context, limit)
    expected.extend(movabs([0x48, 0xbf], TARGETS.context));
    expected.extend(movss(0x04, 2.5));
    expected.extend(movabs([0x48, 0xb8], TARGETS.exit));
    expected.extend([0xff, 0xd0]);
    // print(context)
    expected.extend(movabs([0x48, 0xbf], TARGETS.context));
    expected.extend(movabs([0x48, 0xb8], TARGETS.print));
    expected.extend([0xff, 0xd0]);
    // draw(context, sprite_idx, offset, speed)
    expected.extend(movabs([0x48, 0xbf], TARGETS.context));
    expected.extend(movabs([0x48, 0xbe], 3));
    expected.extend(movabs([0x48, 0xba], 200));
    expected.extend(movss(0x04, 1.5));
    expected.extend(movabs([0x48, 0xb8], TARGETS.draw));
    expected.extend([0xff, 0xd0]);
    // clear(context, charcode)
    expected.extend(movabs([0x48, 0xbf], TARGETS.context));
    expected.extend(movabs([0x48, 0xbe], 0x5f));
    expected.extend(movabs([0x48, 0xb8], TARGETS.clear));
    expected.extend([0xff, 0xd0]);
    expected.extend([0x48, 0x89, 0xec, 0x5d, 0xc3]);
    assert_eq!(compiled(Abi::SysV64, &operators), expected);
    assert_eq!(expected.len(), 4 + 36 + 22 + 56 + 32 + 5);
}

#[test]
fn every_operator_on_windows() {
    let operators = vec![
        Operator::Exit(2.5f32.to_bits()),
        Operator::Print,
        Operator::Draw(3, 200, 1.5f32.to_bits()),
        Operator::Clear(0x5f),
    ];
    let mut expected = vec![0x48, 0x83, 0xec, 0x08];
    // exit(context, limit): the limit is the second argument
    expected.extend(movabs([0x48, 0xb9], TARGETS.context));
    expected.extend(movss(0x0c, 2.5));
    expected.extend(movabs([0x48, 0xb8], TARGETS.exit));
    expected.extend([0xff, 0xd0]);
    // print(context)
    expected.extend(movabs([0x48, 0xb9], TARGETS.context));
    expected.extend(movabs([0x48, 0xb8], TARGETS.print));
    expected.extend([0xff, 0xd0]);
    // draw(context, sprite_idx, offset, speed): the speed is the fourth argument
    expected.extend(movabs([0x48, 0xb9], TARGETS.context));
    expected.extend(movabs([0x48, 0xba], 3));
    expected.extend(movabs([0x49, 0xb8], 200));
    expected.extend(movss(0x1c, 1.5));
    expected.extend(movabs([0x48, 0xb8], TARGETS.draw));
    expected.extend([0xff, 0xd0]);
    // clear(context, charcode)
    expected.extend(movabs([0x48, 0xb9], TARGETS.context));
    expected.extend(movabs([0x48, 0xba], 0x5f));
    expected.extend(movabs([0x48, 0xb8], TARGETS.clear));
    expected.extend([0xff, 0xd0]);
    expected.extend([0x48, 0x83, 0xc4, 0x08, 0xc3]);
    assert_eq!(compiled(Abi::Win64, &operators), expected);
}

#[test]
fn operator_sizes() {
    assert_eq!(JitMemory::op_size(&Operator::Exit(0)), 36);
    assert_eq!(JitMemory::op_size(&Operator::Print), 22);
    assert_eq!(JitMemory::op_size(&Operator::Draw(0, 0, 0)), 56);
    assert_eq!(JitMemory::op_size(&Operator::Clear(0)), 32);
    for op in [Operator::Exit(1), Operator::Print, Operator::Draw(1, 2, 3), Operator::Clear(4)] {
        for abi in [Abi::SysV64, Abi::Win64] {
            assert_eq!(compiled(abi, &vec![op]).len(), 9 + JitMemory::op_size(&op));
        }
    }
}

#[test]
fn fill_after_other_bytes() {
    let mut mem = JitMemory::new(1);
    mem.push_u8(0x90);
    mem.push_u8(0x90);
    mem.fill_jit(Abi::SysV64, &TARGETS, &vec![Operator::Print]);
    let code = emitted(mem);
    assert_eq!(&code[..2], &[0x90, 0x90]);
    assert_eq!(&code[2..], compiled(Abi::SysV64, &vec![Operator::Print]).as_slice());
}

#[test]
fn room_is_counted_to_the_byte() {
    // 9 bytes of prologue and epilogue, 22 for each Print: 185 of them fill
    // 4079 bytes, 186 need 4101
    let mem = JitMemory::new(1);
    assert!(mem.has_room_for(&vec![Operator::Print; 185]));
    assert!(!mem.has_room_for(&vec![Operator::Print; 186]));
    // 9 + 127 * 32 = 4073; 23 more bytes are free, enough for a Print
    let mut operators = vec![Operator::Clear(0x5f); 127];
    assert!(mem.has_room_for(&operators));
    operators.push(Operator::Print);
    assert!(mem.has_room_for(&operators));
    operators.push(Operator::NOOP);
    assert!(mem.has_room_for(&operators));
    operators.push(Operator::Print);
    assert!(!mem.has_room_for(&operators));
    let mut mem = JitMemory::new(1);
    mem.push_u32(0);
    assert!(mem.has_room_for(&vec![Operator::Print; 185]));
    mem.push_u64(0);
    mem.push_u64(0);
    assert!(!mem.has_room_for(&vec![Operator::Print; 185]));
}

#[test]
fn a_full_page() {
    // 9 + 127 * 32 + 22 + 1 = 4096
    let mut operators = vec![Operator::Clear(0x5f); 127];
    operators.push(Operator::Print);
    let mut mem = JitMemory::new(1);
    mem.push_u8(0x90);
    assert!(mem.has_room_for(&operators));
    mem.fill_jit(Abi::SysV64, &TARGETS, &operators);
    assert_eq!(mem.get_offset(), 4096);
    assert!(!mem.has_room_for(&Vec::new()));
    let image = mem.to_jit_fn();
    assert_eq!(image.get_size(), 4096);
    assert_eq!(image.as_bytes()[4095], 0xc3);
}

#[test]
fn compile_overrun() {
    let operators = vec![Operator::Print; 10_000];
    match JitFn::new(1, Abi::SysV64, &TARGETS, &operators) {
        Err(e) => assert_eq!(e, JitError::Overrun),
        Ok(_) => panic!("a program of 220 009 bytes went into one page"),
    }
    match JitFn::new(1, Abi::Win64, &TARGETS, &operators) {
        Err(e) => assert_eq!(e, JitError::Overrun),
        Ok(_) => panic!("a program of 220 009 bytes went into one page"),
    }
    // 54 pages hold it
    match JitFn::new(54, Abi::SysV64, &TARGETS, &operators) {
        Err(e) => panic!("54 pages were too few: {:?}", e),
        Ok(f) => {
            assert_eq!(f.get_size(), 54 * 4096);
            assert_eq!(f.as_bytes()[220_008], 0xc3);
            assert_eq!(&f.as_bytes()[220_004..220_008], &[0x48, 0x89, 0xec, 0x5d]);
        }
    }
    assert!(JitFn::new(53, Abi::SysV64, &TARGETS, &operators).is_err());
    assert!(JitFn::new(0, Abi::SysV64, &TARGETS, &Vec::new()).is_err());
}

#[test]
fn compile_too_many_pages() {
    match JitFn::new(usize::MAX, Abi::SysV64, &TARGETS, &Vec::new()) {
        Err(e) => assert_eq!(e, JitError::Allocation),
        Ok(_) => panic!("a region larger than the address space was made"),
    }
    match JitFn::new(usize::MAX / 4096 + 1, Abi::SysV64, &TARGETS, &Vec::new()) {
        Err(e) => assert_eq!(e, JitError::Allocation),
        Ok(_) => panic!("a region larger than the address space was made"),
    }
}

#[test]
fn compile_fills_the_pages() {
    let operators = vec![Operator::Draw(0, 2, 1.5f32.to_bits()), Operator::Print];
    let code = compiled(Abi::SysV64, &operators);
    let image = match JitFn::new(2, Abi::SysV64, &TARGETS, &operators) {
        Ok(f) => f,
        Err(e) => panic!("no function: {:?}", e),
    };
    assert_eq!(image.get_size(), 2 * 4096);
    assert_eq!(&image.as_bytes()[..code.len()], code.as_slice());
    assert!(image.as_bytes()[code.len()..].iter().all(|b| *b == 0xc3));
    assert_eq!(code.len(), 4 + 56 + 22 + 5);
}

#[test]
fn default_function_is_empty() {
    let f = JitFn::default();
    assert_eq!(f.get_size(), 0);
    assert!(f.as_bytes().is_empty());
}

#[test]
fn dmo_builds_its_function() {
    let mut context = Context::new();
    context.sprites.push(">".to_string());
    let operators = vec![
        Operator::Draw(0, 0, 1.0f32.to_bits()),
        Operator::Print,
        Operator::Exit(2.0f32.to_bits()),
    ];
    let mut dmo = Dmo::new(context, operators.clone());
    assert_eq!(dmo.build_jit_fn(Abi::SysV64, &TARGETS), Ok(()));
    let image = dmo.get_jit_fn().as_bytes().clone();
    assert_eq!(image.len(), 4096);
    let code = compiled(Abi::SysV64, &operators);
    assert_eq!(&image[..code.len()], code.as_slice());

    // the program that went through the codec compiles to the same bytes
    let mut back = match Dmo::from_bytecode(dmo.to_bytecode()) {
        Ok(d) => d,
        Err(e) => panic!("blob was refused: {:?}", e),
    };
    assert_eq!(back.get_operators(), &operators);
    assert_eq!(back.build_jit_fn(Abi::SysV64, &TARGETS), Ok(()));
    assert_eq!(back.get_jit_fn().as_bytes(), &image);
}

#[test]
fn dmo_keeps_its_function_on_overrun() {
    let mut dmo = Dmo::new(Context::new(), vec![Operator::Print; 10_000]);
    assert_eq!(dmo.build_jit_fn(Abi::SysV64, &TARGETS), Err(JitError::Overrun));
    assert_eq!(dmo.get_jit_fn().get_size(), 0);
    assert_eq!(dmo.get_operators().len(), 10_000);
}
