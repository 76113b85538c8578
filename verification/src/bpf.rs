//! The part of classic BPF that the syscall filters are written in.

use vstd::prelude::*;

verus! {

pub const AUDIT_ARCH_X86_64: u32 = 0xC000_003E;

pub const SECCOMP_RET_ALLOW: u32 = 0x7fff_0000;

pub const SECCOMP_RET_TRACE: u32 = 0x7ff0_0000;

pub const SECCOMP_RET_KILL_PROCESS: u32 = 0x8000_0000;

/// Load the word at absolute offset `k`.
pub const BPF_LD_W_ABS: u16 = 0x20;

/// Compare the loaded word with `k`: skip `jt` instructions if equal, `jf` if not.
pub const BPF_JMP_JEQ_K: u16 = 0x15;

/// Return `k`.
pub const BPF_RET_K: u16 = 0x06;

/// One classic-BPF instruction.
#[derive(Debug, Clone, Copy, PartialEq, Eq, Structural)]
pub struct Instruction {
    pub code: u16,
    pub jt: u8,
    pub jf: u8,
    pub k: u32,
}

pub fn stmt(code: u16, k: u32) -> (instruction: Instruction)
    ensures
        instruction == (Instruction { code, jt: 0, jf: 0, k }),
{
    Instruction { code, jt: 0, jf: 0, k }
}

pub fn jump(code: u16, k: u32, jt: u8, jf: u8) -> (instruction: Instruction)
    ensures
        instruction == (Instruction { code, jt, jf, k }),
{
    Instruction { code, jt, jf, k }
}

/// How a filter run ends.
pub enum Verdict {
    Return(u32),
    /// The program ran off its end or met an instruction outside this subset.
    Invalid,
}

/// Run `program` from instruction `pc` with `acc` in the accumulator, on a syscall `nr` of
/// architecture `arch`. The syscall number lies at offset 0, the architecture at offset 4.
pub open spec fn run_filter(
    program: Seq<Instruction>,
    pc: int,
    acc: u32,
    arch: u32,
    nr: u32,
) -> Verdict
    decreases
        if pc < program.len() {
            program.len() - pc
        } else {
            0
        },
{
    if pc < 0 || pc >= program.len() {
        Verdict::Invalid
    } else {
        let op = program[pc];
        if op.code == BPF_LD_W_ABS && op.k == 0 {
            run_filter(program, pc + 1, nr, arch, nr)
        } else if op.code == BPF_LD_W_ABS && op.k == 4 {
            run_filter(program, pc + 1, arch, arch, nr)
        } else if op.code == BPF_JMP_JEQ_K {
            run_filter(program, pc + 1 + if acc == op.k { op.jt } else { op.jf }, acc, arch, nr)
        } else if op.code == BPF_RET_K {
            Verdict::Return(op.k)
        } else {
            Verdict::Invalid
        }
    }
}

} // verus!
