//! Filter that traces the scheduling syscalls, allows everything else, and kills a process of
//! another architecture.

use vstd::prelude::*;

use crate::bpf::{
    jump, run_filter, stmt, Instruction, Verdict, AUDIT_ARCH_X86_64, BPF_JMP_JEQ_K, BPF_LD_W_ABS,
    BPF_RET_K, SECCOMP_RET_ALLOW, SECCOMP_RET_KILL_PROCESS, SECCOMP_RET_TRACE,
};
use crate::linux::{
    SYS_CLOCK_NANOSLEEP, SYS_CLONE, SYS_CLONE3, SYS_EPOLL_PWAIT, SYS_EPOLL_PWAIT2, SYS_EPOLL_WAIT,
    SYS_EXIT, SYS_EXIT_GROUP, SYS_FUTEX, SYS_GETPPID, SYS_GETRANDOM, SYS_NANOSLEEP, SYS_POLL,
    SYS_PPOLL, SYS_PSELECT6, SYS_SCHED_YIELD, SYS_SELECT,
};

verus! {

/// Number of scheduling syscalls.
pub const SCHEDULING_SYSCALL_COUNT: usize = 17;

/// The scheduling syscalls, in the order in which the filter tests them.
pub open spec fn scheduling_syscalls_spec() -> Seq<i64> {
    seq![
        SYS_FUTEX,
        SYS_CLONE,
        SYS_CLONE3,
        SYS_SCHED_YIELD,
        SYS_NANOSLEEP,
        SYS_CLOCK_NANOSLEEP,
        SYS_EPOLL_WAIT,
        SYS_EPOLL_PWAIT,
        SYS_EPOLL_PWAIT2,
        SYS_POLL,
        SYS_PPOLL,
        SYS_SELECT,
        SYS_PSELECT6,
        SYS_EXIT,
        SYS_EXIT_GROUP,
        SYS_GETRANDOM,
        SYS_GETPPID,
    ]
}

pub fn scheduling_syscalls() -> (syscalls: Vec<i64>)
    ensures
        syscalls@ == scheduling_syscalls_spec(),
{
    vec![
        SYS_FUTEX,
        SYS_CLONE,
        SYS_CLONE3,
        SYS_SCHED_YIELD,
        SYS_NANOSLEEP,
        SYS_CLOCK_NANOSLEEP,
        SYS_EPOLL_WAIT,
        SYS_EPOLL_PWAIT,
        SYS_EPOLL_PWAIT2,
        SYS_POLL,
        SYS_PPOLL,
        SYS_SELECT,
        SYS_PSELECT6,
        SYS_EXIT,
        SYS_EXIT_GROUP,
        SYS_GETRANDOM,
        SYS_GETPPID,
    ]
}

/// The filter program, instruction by instruction.
pub open spec fn program_spec() -> Seq<Instruction> {
    let syscalls = scheduling_syscalls_spec();
    let n = syscalls.len();
    Seq::new(
        n + 6,
        |i: int|
            if i == 0 {
                Instruction { code: BPF_LD_W_ABS, jt: 0, jf: 0, k: 4 }
            } else if i == 1 {
                Instruction { code: BPF_JMP_JEQ_K, jt: 1, jf: 0, k: AUDIT_ARCH_X86_64 }
            } else if i == 2 {
                Instruction { code: BPF_RET_K, jt: 0, jf: 0, k: SECCOMP_RET_KILL_PROCESS }
            } else if i == 3 {
                Instruction { code: BPF_LD_W_ABS, jt: 0, jf: 0, k: 0 }
            } else if i < 4 + n {
                Instruction {
                    code: BPF_JMP_JEQ_K,
                    jt: (n - (i - 4)) as u8,
                    jf: 0,
                    k: syscalls[i - 4] as u32,
                }
            } else if i == 4 + n {
                Instruction { code: BPF_RET_K, jt: 0, jf: 0, k: SECCOMP_RET_ALLOW }
            } else {
                Instruction { code: BPF_RET_K, jt: 0, jf: 0, k: SECCOMP_RET_TRACE }
            },
    )
}

/// Build the filter program.
pub fn program() -> (program: Vec<Instruction>)
    ensures
        program@ == program_spec(),
{
    let mut program: Vec<Instruction> = Vec::new();
    program.push(stmt(BPF_LD_W_ABS, 4));
    program.push(jump(BPF_JMP_JEQ_K, AUDIT_ARCH_X86_64, 1, 0));
    program.push(stmt(BPF_RET_K, SECCOMP_RET_KILL_PROCESS));
    program.push(stmt(BPF_LD_W_ABS, 0));
    let syscalls = scheduling_syscalls();
    let n: usize = syscalls.len();
    let mut i: usize = 0;
    assert(program@ =~= program_spec().take(4));
    while i < n
        invariant
            i <= n,
            n == syscalls.len() == SCHEDULING_SYSCALL_COUNT,
            syscalls@ == scheduling_syscalls_spec(),
            program@ == program_spec().take(4 + i),
        decreases n - i,
    {
        // A match jumps over the remaining comparisons and the ALLOW to the TRACE.
        let remaining = (n - 1 - i) as u8;
        program.push(jump(BPF_JMP_JEQ_K, syscalls[i] as u32, remaining + 1, 0));
        i += 1;
        assert(program@ =~= program_spec().take(4 + i));
    }
    program.push(stmt(BPF_RET_K, SECCOMP_RET_ALLOW));
    program.push(stmt(BPF_RET_K, SECCOMP_RET_TRACE));
    assert(program@ =~= program_spec());
    program
}

proof fn lemma_comparisons(nr: u32, i: int)
    requires
        0 <= i <= SCHEDULING_SYSCALL_COUNT,
        forall|j: int| 0 <= j < i ==> #[trigger] scheduling_syscalls_spec()[j] as u32 != nr,
    ensures
        run_filter(program_spec(), 4 + i, nr, AUDIT_ARCH_X86_64, nr) == if exists|j: int|
            0 <= j < SCHEDULING_SYSCALL_COUNT && #[trigger] scheduling_syscalls_spec()[j] as u32
                == nr {
            Verdict::Return(SECCOMP_RET_TRACE)
        } else {
            Verdict::Return(SECCOMP_RET_ALLOW)
        },
    decreases SCHEDULING_SYSCALL_COUNT - i,
{
    let program = program_spec();
    let n = SCHEDULING_SYSCALL_COUNT;
    reveal_with_fuel(run_filter, 2);
    if i == n {
    } else if scheduling_syscalls_spec()[i] as u32 == nr {
        assert(program[4 + i].jt as int == n - i);
        assert(4 + i + 1 + (n - i) == 5 + n);
    } else {
        lemma_comparisons(nr, i + 1);
    }
}

/// On x86-64 the filter traces exactly the scheduling syscalls and allows every other; a process
/// of another architecture is killed.
pub proof fn filter_traces_exactly(arch: u32, nr: u32)
    ensures
        run_filter(program_spec(), 0, 0, arch, nr) == if arch != AUDIT_ARCH_X86_64 {
            Verdict::Return(SECCOMP_RET_KILL_PROCESS)
        } else if exists|j: int|
            0 <= j < SCHEDULING_SYSCALL_COUNT && #[trigger] scheduling_syscalls_spec()[j] as u32
                == nr {
            Verdict::Return(SECCOMP_RET_TRACE)
        } else {
            Verdict::Return(SECCOMP_RET_ALLOW)
        },
{
    reveal_with_fuel(run_filter, 5);
    if arch == AUDIT_ARCH_X86_64 {
        lemma_comparisons(nr, 0);
    }
}

} // verus!
