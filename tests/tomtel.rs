use data_onion::{run_payload_program, TomtelVm, VmError};

const HELLO: [u8; 82] = [
    0x50, 0x48, 0xC2, 0x02, 0xA8, 0x4D, 0x00, 0x00, 0x00, 0x4F, 0x02, 0x50, 0x09, 0xC4, 0x02, 0x02,
    0xE1, 0x01, 0x4F, 0x02, 0xC1, 0x22, 0x1D, 0x00, 0x00, 0x00, 0x48, 0x30, 0x02, 0x58, 0x03, 0x4F,
    0x02, 0xB0, 0x29, 0x00, 0x00, 0x00, 0x48, 0x31, 0x02, 0x50, 0x0C, 0xC3, 0x02, 0xAA, 0x57, 0x48,
    0x02, 0xC1, 0x21, 0x3A, 0x00, 0x00, 0x00, 0x48, 0x32, 0x02, 0x48, 0x77, 0x02, 0x48, 0x6F, 0x02,
    0x48, 0x72, 0x02, 0x48, 0x6C, 0x02, 0x48, 0x64, 0x02, 0x48, 0x21, 0x02, 0x01, 0x65, 0x6F, 0x33,
    0x34, 0x2C,
];

#[test]
fn test_hello_world() {
    let program = vec![
        0x50, 0x48, 0xC2, 0x02, 0xA8, 0x4D, 0x00, 0x00, 0x00, 0x4F, 0x02, 0x50, 0x09, 0xC4,
        0x02, 0x02, 0xE1, 0x01, 0x4F, 0x02, 0xC1, 0x22, 0x1D, 0x00, 0x00, 0x00, 0x48, 0x30,
        0x02, 0x58, 0x03, 0x4F, 0x02, 0xB0, 0x29, 0x00, 0x00, 0x00, 0x48, 0x31, 0x02, 0x50,
        0x0C, 0xC3, 0x02, 0xAA, 0x57, 0x48, 0x02, 0xC1, 0x21, 0x3A, 0x00, 0x00, 0x00, 0x48,
        0x32, 0x02, 0x48, 0x77, 0x02, 0x48, 0x6F, 0x02, 0x48, 0x72, 0x02, 0x48, 0x6C, 0x02,
        0x48, 0x64, 0x02, 0x48, 0x21, 0x02, 0x01, 0x65, 0x6F, 0x33, 0x34, 0x2C,
    ];
    let out = vec![];
    let mut vm = TomtelVm::new(out, &program);
    vm.run().unwrap();
    let output = String::from_utf8(vm.output());

    assert_eq!(output.unwrap().as_str(), "Hello, world!");
}

#[test]
fn vm_hello_world_through_runner() {
    assert_eq!(run_payload_program(&HELLO), Ok(b"Hello, world!".to_vec()));
    assert_eq!(run_payload_program(&HELLO), run_payload_program(&HELLO));
}

#[test]
fn vm_halt_only() {
    assert_eq!(run_payload_program(&[0x01]), Ok(vec![]));
}

#[test]
fn vm_wrapping_arithmetic() {
    // MVI a <- 200; MVI b <- 100; ADD; OUT; MVI a <- 1; MVI b <- 2; SUB; OUT; HALT
    let p = [0x48, 200, 0x50, 100, 0xC2, 0x02, 0x48, 1, 0x50, 2, 0xC3, 0x02, 0x01];
    assert_eq!(run_payload_program(&p), Ok(vec![44, 255]));
}

#[test]
fn vm_xor_and_cmp_jump() {
    // MVI a <- 0x0F; MVI b <- 0xF0; XOR; OUT; CMP; JNZ 13; OUT; HALT (at 13)
    let p = [0x48, 0x0F, 0x50, 0xF0, 0xC4, 0x02, 0xC1, 0x22, 0x0D, 0, 0, 0, 0x02, 0x01];
    assert_eq!(run_payload_program(&p), Ok(vec![0xFF]));
}

#[test]
fn vm_self_modifying_write() {
    // MVI c <- 7; MVI (ptr+c) <- 0x01 (patches byte 7 into HALT); byte 6: OUT; byte 7: 0x00
    let p = [0x58, 7, 0x78, 0x01, 0x48, 0x41, 0x02, 0x00];
    assert_eq!(run_payload_program(&p), Ok(vec![0x41]));
}

#[test]
fn vm_invalid_instruction() {
    assert_eq!(run_payload_program(&[0x00]), Err(VmError::InvalidInstruction));
    // MV32 with source field 7.
    assert_eq!(run_payload_program(&[0x8F]), Err(VmError::InvalidInstruction));
}

#[test]
fn vm_memory_faults() {
    assert_eq!(run_payload_program(&[]), Err(VmError::MemoryFault));
    // OUT, then the fetch runs past the end.
    assert_eq!(run_payload_program(&[0x02]), Err(VmError::MemoryFault));
    // APTR 200; MV a <- (ptr+c): out of range.
    assert_eq!(run_payload_program(&[0xE1, 200, 0x4F, 0x01]), Err(VmError::MemoryFault));
    // MVI a with its immediate missing.
    assert_eq!(run_payload_program(&[0x48]), Err(VmError::MemoryFault));
}

#[test]
fn vm_step_limit() {
    // JEZ 0 with f == 0 loops forever.
    let mut vm = TomtelVm::new(vec![], &[0x21, 0, 0, 0, 0]);
    assert_eq!(vm.run_bounded(10), Err(VmError::StepLimit));
}

#[test]
fn vm_short_jump_immediate_reads_zero() {
    // CMP sets f = 1 (a = 1, b = 0); a JNZ whose immediate is cut short
    // reads it as 0 and jumps back to the start, forever.
    let p = [0x48, 1, 0xC1, 0x22, 0x00];
    let mut vm = TomtelVm::new(vec![], &p);
    assert_eq!(vm.run_bounded(50), Err(VmError::StepLimit));
}
