//! The breakpoint stepper: it keeps a one-byte software breakpoint alive on
//! the frame instruction by moving it to the next instruction when it fires,
//! and back again when that one fires.
use vstd::prelude::*;

verus! {

/// Opcode of the one-byte `int3` instruction used as a software breakpoint.
pub const BREAKPOINT_OPCODE: u8 = 0xCC;

/// Offset, from the game module's base address, of the instruction that runs once a frame.
pub const FRAME_INSTRUCTION_OFFSET: u64 = 0x004B32BE;

/// Offset, from the game module's base address, of the instruction right after it.
pub const NEXT_INSTRUCTION_OFFSET: u64 = 0x004B32C1;

/// Windows exception code raised by an `int3` breakpoint (`EXCEPTION_BREAKPOINT`).
pub const EXCEPTION_BREAKPOINT_CODE: u32 = 0x80000003;

/// The bytes found at the two patched code addresses.
#[derive(Clone, Copy, Debug, PartialEq, Eq, Structural)]
pub struct CodeBytes {
    /// Byte at the frame instruction.
    pub at_instruction: u8,
    /// Byte at the instruction that follows it.
    pub at_next: u8,
}

/// Which of the stepper's breakpoints, if any, an exception comes from.
#[derive(Clone, Copy, Debug, PartialEq, Eq, Structural)]
pub enum Hit {
    /// The breakpoint on the frame instruction: a frame begins.
    FrameInstruction,
    /// The breakpoint on the following instruction.
    NextInstruction,
    /// Any other exception: not ours.
    Foreign,
}

/// What the exception handler answers to Windows.
#[derive(Clone, Copy, Debug, PartialEq, Eq, Structural)]
pub enum Disposition {
    /// Resume the faulting thread (`EXCEPTION_CONTINUE_EXECUTION`).
    ContinueExecution,
    /// Let the next handler look at the exception (`EXCEPTION_CONTINUE_SEARCH`).
    ContinueSearch,
}

/// Addresses of the two patched instructions and the code byte that the
/// breakpoint currently stands in for.
#[derive(Clone, Copy, Debug, PartialEq, Eq, Structural)]
pub struct BreakpointStepper {
    /// Address of the frame instruction.
    pub instruction: u64,
    /// Address of the instruction after it.
    pub next_instruction: u64,
    /// The program's own byte at whichever address holds the breakpoint.
    pub original_value: u8,
}

/// The breakpoint sits on the frame instruction, over the program code `code`.
pub open spec fn armed_at_frame(s: BreakpointStepper, bytes: CodeBytes, code: CodeBytes) -> bool {
    &&& bytes.at_instruction == BREAKPOINT_OPCODE
    &&& bytes.at_next == code.at_next
    &&& s.original_value == code.at_instruction
}

/// The breakpoint sits on the following instruction, over the program code `code`.
pub open spec fn armed_at_next(s: BreakpointStepper, bytes: CodeBytes, code: CodeBytes) -> bool {
    &&& bytes.at_instruction == code.at_instruction
    &&& bytes.at_next == BREAKPOINT_OPCODE
    &&& s.original_value == code.at_next
}

/// Exactly one breakpoint is armed, and restoring it gives back `code`.
pub open spec fn armed(s: BreakpointStepper, bytes: CodeBytes, code: CodeBytes) -> bool {
    armed_at_frame(s, bytes, code) || armed_at_next(s, bytes, code)
}

/// The exceptions that belong to the stepper.
pub open spec fn classify_spec(s: BreakpointStepper, code: u32, address: u64) -> Hit {
    if code != EXCEPTION_BREAKPOINT_CODE {
        Hit::Foreign
    } else if address == s.instruction {
        Hit::FrameInstruction
    } else if address == s.next_instruction {
        Hit::NextInstruction
    } else {
        Hit::Foreign
    }
}

/// The stepper and code bytes after handling `hit`.
pub open spec fn step_spec(s: BreakpointStepper, hit: Hit, bytes: CodeBytes) -> (BreakpointStepper, CodeBytes) {
    match hit {
        Hit::FrameInstruction => (
            BreakpointStepper { original_value: bytes.at_next, ..s },
            CodeBytes { at_instruction: s.original_value, at_next: BREAKPOINT_OPCODE },
        ),
        Hit::NextInstruction => (
            BreakpointStepper { original_value: bytes.at_instruction, ..s },
            CodeBytes { at_instruction: BREAKPOINT_OPCODE, at_next: s.original_value },
        ),
        Hit::Foreign => (s, bytes),
    }
}

/// The answer given for `hit`.
pub open spec fn disposition_spec(hit: Hit) -> Disposition {
    match hit {
        Hit::Foreign => Disposition::ContinueSearch,
        _ => Disposition::ContinueExecution,
    }
}

/// The two patch addresses can be formed from `base` without overflow.
pub open spec fn addresses_fit(base: u64) -> bool {
    base + NEXT_INSTRUCTION_OFFSET <= u64::MAX
}

impl BreakpointStepper {
    /// Arms the breakpoint on the frame instruction of the module loaded at
    /// `base`, whose unpatched code bytes are `code`. Returns the stepper and
    /// the bytes to store at the two addresses.
    pub fn arm(base: u64, code: CodeBytes) -> (res: (BreakpointStepper, CodeBytes))
        requires
            addresses_fit(base),
        ensures
            res.0.instruction == base + FRAME_INSTRUCTION_OFFSET,
            res.0.next_instruction == base + NEXT_INSTRUCTION_OFFSET,
            armed_at_frame(res.0, res.1, code),
    {
        let s = BreakpointStepper {
            instruction: base + FRAME_INSTRUCTION_OFFSET,
            next_instruction: base + NEXT_INSTRUCTION_OFFSET,
            original_value: code.at_instruction,
        };
        (s, CodeBytes { at_instruction: BREAKPOINT_OPCODE, at_next: code.at_next })
    }

    /// Tells whether an exception with `code` at `address` is one of ours.
    pub fn classify(&self, code: u32, address: u64) -> (hit: Hit)
        ensures
            hit == classify_spec(*self, code, address),
    {
        if code != EXCEPTION_BREAKPOINT_CODE {
            Hit::Foreign
        } else if address == self.instruction {
            Hit::FrameInstruction
        } else if address == self.next_instruction {
            Hit::NextInstruction
        } else {
            Hit::Foreign
        }
    }

    /// Moves the breakpoint past the instruction that just fired: restores the
    /// program's byte there and plants the breakpoint on the other address,
    /// remembering the byte it covers. A foreign hit changes nothing.
    pub fn step(&mut self, hit: Hit, bytes: CodeBytes) -> (res: CodeBytes)
        ensures
            (*final(self), res) == step_spec(*old(self), hit, bytes),
    {
        match hit {
            Hit::FrameInstruction => {
                let restored = self.original_value;
                self.original_value = bytes.at_next;
                CodeBytes { at_instruction: restored, at_next: BREAKPOINT_OPCODE }
            },
            Hit::NextInstruction => {
                let restored = self.original_value;
                self.original_value = bytes.at_instruction;
                CodeBytes { at_instruction: BREAKPOINT_OPCODE, at_next: restored }
            },
            Hit::Foreign => bytes,
        }
    }
}

/// The handler's answer to a hit.
pub fn disposition(hit: Hit) -> (d: Disposition)
    ensures
        d == disposition_spec(hit),
{
    match hit {
        Hit::Foreign => Disposition::ContinueSearch,
        _ => Disposition::ContinueExecution,
    }
}

/// Arming places the breakpoint on the frame instruction over the unpatched code,
/// and the two addresses differ.
pub proof fn lemma_arm_establishes(base: u64, code: CodeBytes, s: BreakpointStepper, bytes: CodeBytes)
    requires
        addresses_fit(base),
        s.instruction == base + FRAME_INSTRUCTION_OFFSET,
        s.next_instruction == base + NEXT_INSTRUCTION_OFFSET,
        armed_at_frame(s, bytes, code),
    ensures
        armed(s, bytes, code),
        s.instruction != s.next_instruction,
{
}

/// When the frame breakpoint fires, the frame instruction gets its own byte
/// back and the breakpoint moves to the next instruction; the program code is unchanged.
pub proof fn lemma_frame_hit_moves_breakpoint(s: BreakpointStepper, bytes: CodeBytes, code: CodeBytes)
    requires
        armed_at_frame(s, bytes, code),
    ensures
        armed_at_next(step_spec(s, Hit::FrameInstruction, bytes).0, step_spec(s, Hit::FrameInstruction, bytes).1, code),
        step_spec(s, Hit::FrameInstruction, bytes).1.at_instruction == code.at_instruction,
{
}

/// When the second breakpoint fires, its instruction gets its own byte back and
/// the breakpoint returns to the frame instruction; the program code is unchanged.
pub proof fn lemma_next_hit_rearms_frame(s: BreakpointStepper, bytes: CodeBytes, code: CodeBytes)
    requires
        armed_at_next(s, bytes, code),
    ensures
        armed_at_frame(step_spec(s, Hit::NextInstruction, bytes).0, step_spec(s, Hit::NextInstruction, bytes).1, code),
        step_spec(s, Hit::NextInstruction, bytes).1.at_next == code.at_next,
{
}

/// A breakpoint exception at one of the two addresses is raised only where the
/// breakpoint is currently armed.
pub open spec fn raised_where_armed(s: BreakpointStepper, bytes: CodeBytes, code: CodeBytes, exception: u32, address: u64) -> bool {
    &&& classify_spec(s, exception, address) == Hit::FrameInstruction ==> armed_at_frame(s, bytes, code)
    &&& classify_spec(s, exception, address) == Hit::NextInstruction ==> armed_at_next(s, bytes, code)
}

/// Whatever exception comes in, as long as a breakpoint exception at the
/// patched addresses comes from the armed breakpoint, handling it keeps exactly
/// one breakpoint armed over the same program code, and the addresses never change.
pub proof fn lemma_handling_preserves_code(s: BreakpointStepper, bytes: CodeBytes, code: CodeBytes, exception: u32, address: u64)
    requires
        armed(s, bytes, code),
        s.instruction != s.next_instruction,
        raised_where_armed(s, bytes, code, exception, address),
    ensures
        armed(step_spec(s, classify_spec(s, exception, address), bytes).0, step_spec(s, classify_spec(s, exception, address), bytes).1, code),
        step_spec(s, classify_spec(s, exception, address), bytes).0.instruction == s.instruction,
        step_spec(s, classify_spec(s, exception, address), bytes).0.next_instruction == s.next_instruction,
{
}

/// A fired breakpoint always sits where the exception was raised: the handler
/// claims a breakpoint exception at an armed address and resumes execution.
pub proof fn lemma_armed_breakpoint_is_claimed(s: BreakpointStepper, bytes: CodeBytes, code: CodeBytes)
    requires
        armed(s, bytes, code),
        s.instruction != s.next_instruction,
    ensures
        armed_at_frame(s, bytes, code) ==> classify_spec(s, EXCEPTION_BREAKPOINT_CODE, s.instruction) == Hit::FrameInstruction,
        armed_at_next(s, bytes, code) ==> classify_spec(s, EXCEPTION_BREAKPOINT_CODE, s.next_instruction) == Hit::NextInstruction,
        disposition_spec(Hit::FrameInstruction) == Disposition::ContinueExecution,
        disposition_spec(Hit::NextInstruction) == Disposition::ContinueExecution,
{
}

/// Firing the frame breakpoint and then the second one returns the stepper and
/// the code bytes to exactly where they were.
pub proof fn lemma_round_trip(s: BreakpointStepper, bytes: CodeBytes, code: CodeBytes)
    requires
        armed_at_frame(s, bytes, code),
    ensures
        ({
            let (s1, b1) = step_spec(s, Hit::FrameInstruction, bytes);
            step_spec(s1, Hit::NextInstruction, b1) == (s, bytes)
        }),
{
}

/// Exceptions that are not the stepper's leave stepper and code untouched and
/// are passed on.
pub proof fn lemma_foreign_untouched(s: BreakpointStepper, bytes: CodeBytes, exception: u32, address: u64)
    requires
        exception != EXCEPTION_BREAKPOINT_CODE || (address != s.instruction && address != s.next_instruction),
    ensures
        classify_spec(s, exception, address) == Hit::Foreign,
        step_spec(s, Hit::Foreign, bytes) == (s, bytes),
        disposition_spec(Hit::Foreign) == Disposition::ContinueSearch,
{
}

} // verus!
