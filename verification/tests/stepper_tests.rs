use ppt2_sync::stepper::{
    disposition, BreakpointStepper, CodeBytes, Disposition, Hit, BREAKPOINT_OPCODE,
    EXCEPTION_BREAKPOINT_CODE, FRAME_INSTRUCTION_OFFSET, NEXT_INSTRUCTION_OFFSET,
};

const BASE: u64 = 0x1_4000_0000;

fn clean_code() -> CodeBytes {
    CodeBytes { at_instruction: 0x8B, at_next: 0x48 }
}

#[test]
fn arm_places_breakpoint_on_frame_instruction() {
    let (s, bytes) = BreakpointStepper::arm(BASE, clean_code());
    assert_eq!(s.instruction, BASE + 0x4B32BE);
    assert_eq!(s.next_instruction, BASE + 0x4B32C1);
    assert_eq!(s.original_value, 0x8B);
    assert_eq!(bytes, CodeBytes { at_instruction: 0xCC, at_next: 0x48 });
    assert_eq!(FRAME_INSTRUCTION_OFFSET + 3, NEXT_INSTRUCTION_OFFSET);
}

#[test]
fn arm_at_highest_base_that_fits() {
    let base = u64::MAX - NEXT_INSTRUCTION_OFFSET;
    let (s, _) = BreakpointStepper::arm(base, clean_code());
    assert_eq!(s.next_instruction, u64::MAX);
    assert_eq!(s.instruction, u64::MAX - 3);
}

#[test]
fn classify_distinguishes_hits() {
    let (s, _) = BreakpointStepper::arm(BASE, clean_code());
    assert_eq!(s.classify(EXCEPTION_BREAKPOINT_CODE, s.instruction), Hit::FrameInstruction);
    assert_eq!(s.classify(EXCEPTION_BREAKPOINT_CODE, s.next_instruction), Hit::NextInstruction);
    assert_eq!(s.classify(EXCEPTION_BREAKPOINT_CODE, s.instruction + 1), Hit::Foreign);
    // an access violation at the patched address is not ours
    assert_eq!(s.classify(0xC0000005, s.instruction), Hit::Foreign);
}

#[test]
fn frame_hit_restores_instruction_and_moves_breakpoint() {
    let (mut s, bytes) = BreakpointStepper::arm(BASE, clean_code());
    let out = s.step(Hit::FrameInstruction, bytes);
    assert_eq!(out, CodeBytes { at_instruction: 0x8B, at_next: BREAKPOINT_OPCODE });
    assert_eq!(s.original_value, 0x48);
}

#[test]
fn next_hit_rearms_frame_instruction() {
    let (mut s, bytes) = BreakpointStepper::arm(BASE, clean_code());
    let moved = s.step(Hit::FrameInstruction, bytes);
    let back = s.step(Hit::NextInstruction, moved);
    assert_eq!(back, CodeBytes { at_instruction: BREAKPOINT_OPCODE, at_next: 0x48 });
    assert_eq!(s.original_value, 0x8B);
}

#[test]
fn round_trip_over_many_frames() {
    let (mut s, mut bytes) = BreakpointStepper::arm(BASE, clean_code());
    let start = (s, bytes);
    for _ in 0..10 {
        let hit = s.classify(EXCEPTION_BREAKPOINT_CODE, s.instruction);
        bytes = s.step(hit, bytes);
        // while the frame instruction runs, it holds its own byte
        assert_eq!(bytes.at_instruction, 0x8B);
        let hit = s.classify(EXCEPTION_BREAKPOINT_CODE, s.next_instruction);
        bytes = s.step(hit, bytes);
        assert_eq!(bytes.at_next, 0x48);
        assert_eq!((s, bytes), start);
    }
}

#[test]
fn foreign_hit_changes_nothing() {
    let (mut s, bytes) = BreakpointStepper::arm(BASE, clean_code());
    let before = s;
    let out = s.step(Hit::Foreign, bytes);
    assert_eq!(out, bytes);
    assert_eq!(s, before);
}

#[test]
fn dispositions() {
    assert_eq!(disposition(Hit::FrameInstruction), Disposition::ContinueExecution);
    assert_eq!(disposition(Hit::NextInstruction), Disposition::ContinueExecution);
    assert_eq!(disposition(Hit::Foreign), Disposition::ContinueSearch);
}

#[test]
fn breakpoint_opcode_is_int3() {
    assert_eq!(BREAKPOINT_OPCODE, 0xCC);
    assert_eq!(EXCEPTION_BREAKPOINT_CODE, 0x8000_0003);
}
