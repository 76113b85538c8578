//! Classic-BPF seccomp filter that traces the time-related syscalls and allows everything else.

use vstd::prelude::*;

use crate::bpf::{
    jump, run_filter, stmt, Instruction, Verdict, AUDIT_ARCH_X86_64, BPF_JMP_JEQ_K, BPF_LD_W_ABS,
    BPF_RET_K, SECCOMP_RET_ALLOW, SECCOMP_RET_TRACE,
};
use crate::linux::{
    SYS_CLOCK_GETTIME, SYS_CLOCK_NANOSLEEP, SYS_EPOLL_PWAIT, SYS_EPOLL_PWAIT2, SYS_EPOLL_WAIT,
    SYS_FUTEX, SYS_GETRANDOM, SYS_GETTIMEOFDAY, SYS_NANOSLEEP, SYS_POLL, SYS_PPOLL, SYS_PSELECT6,
    SYS_SELECT, SYS_TIME, SYS_TIMERFD_GETTIME, SYS_TIMERFD_SETTIME,
};

verus! {

/// Reserved syscall number the instrumented target uses to announce its counter range. It does
/// not exist in the kernel table, so outside the sandbox it just fails.
pub const ANNOUNCE_NR: i64 = 0x1337;

/// Every syscall the supervisor wants to see.
pub open spec fn is_traced(nr: i64) -> bool {
    nr == SYS_CLOCK_GETTIME || nr == SYS_GETTIMEOFDAY || nr == SYS_TIME || nr == SYS_NANOSLEEP || nr
        == SYS_CLOCK_NANOSLEEP || nr == SYS_FUTEX || nr == SYS_EPOLL_WAIT || nr == SYS_EPOLL_PWAIT
        || nr == SYS_EPOLL_PWAIT2 || nr == SYS_POLL || nr == SYS_PPOLL || nr == SYS_SELECT || nr
        == SYS_PSELECT6 || nr == SYS_TIMERFD_SETTIME || nr == SYS_TIMERFD_GETTIME || nr
        == SYS_GETRANDOM || nr == ANNOUNCE_NR
}

/// The traced syscalls, in the order in which the filter tests them.
pub fn traced_syscalls() -> (syscalls: Vec<i64>)
    ensures
        syscalls@ == seq![
            SYS_CLOCK_GETTIME,
            SYS_GETTIMEOFDAY,
            SYS_TIME,
            SYS_NANOSLEEP,
            SYS_CLOCK_NANOSLEEP,
            SYS_FUTEX,
            SYS_EPOLL_WAIT,
            SYS_EPOLL_PWAIT,
            SYS_EPOLL_PWAIT2,
            SYS_POLL,
            SYS_PPOLL,
            SYS_SELECT,
            SYS_PSELECT6,
            SYS_TIMERFD_SETTIME,
            SYS_TIMERFD_GETTIME,
            SYS_GETRANDOM,
            ANNOUNCE_NR,
        ],
        forall|nr: i64| syscalls@.contains(nr) == is_traced(nr),
{
    let syscalls: Vec<i64> = vec![
        SYS_CLOCK_GETTIME,
        SYS_GETTIMEOFDAY,
        SYS_TIME,
        SYS_NANOSLEEP,
        SYS_CLOCK_NANOSLEEP,
        SYS_FUTEX,
        SYS_EPOLL_WAIT,
        SYS_EPOLL_PWAIT,
        SYS_EPOLL_PWAIT2,
        SYS_POLL,
        SYS_PPOLL,
        SYS_SELECT,
        SYS_PSELECT6,
        SYS_TIMERFD_SETTIME,
        SYS_TIMERFD_GETTIME,
        SYS_GETRANDOM,
        ANNOUNCE_NR,
    ];
    proof {
        let s = syscalls@;
        assert forall|nr: i64| is_traced(nr) implies s.contains(nr) by {
            assert(s[0] == SYS_CLOCK_GETTIME && s[1] == SYS_GETTIMEOFDAY && s[2] == SYS_TIME && s[3]
                == SYS_NANOSLEEP && s[4] == SYS_CLOCK_NANOSLEEP && s[5] == SYS_FUTEX && s[6]
                == SYS_EPOLL_WAIT && s[7] == SYS_EPOLL_PWAIT && s[8] == SYS_EPOLL_PWAIT2 && s[9]
                == SYS_POLL && s[10] == SYS_PPOLL && s[11] == SYS_SELECT && s[12] == SYS_PSELECT6
                && s[13] == SYS_TIMERFD_SETTIME && s[14] == SYS_TIMERFD_GETTIME && s[15]
                == SYS_GETRANDOM && s[16] == ANNOUNCE_NR);
        }
    }
    syscalls
}

/// The filter program for `syscalls`, instruction by instruction.
pub open spec fn filter_program(syscalls: Seq<i64>) -> Seq<Instruction> {
    let n = syscalls.len();
    Seq::new(
        n + 6,
        |i: int|
            if i == 0 {
                Instruction { code: BPF_LD_W_ABS, jt: 0, jf: 0, k: 4 }
            } else if i == 1 {
                Instruction { code: BPF_JMP_JEQ_K, jt: 1, jf: 0, k: AUDIT_ARCH_X86_64 }
            } else if i == 2 {
                Instruction { code: BPF_RET_K, jt: 0, jf: 0, k: SECCOMP_RET_ALLOW }
            } else if i == 3 {
                Instruction { code: BPF_LD_W_ABS, jt: 0, jf: 0, k: 0 }
            } else if i < 4 + n {
                Instruction {
                    code: BPF_JMP_JEQ_K,
                    jt: (n - (i - 4)) as u8,
                    jf: 0,
                    k: syscalls[i - 4] as u32,
                }
            } else if i == 4 + n {
                Instruction { code: BPF_RET_K, jt: 0, jf: 0, k: SECCOMP_RET_ALLOW }
            } else {
                Instruction { code: BPF_RET_K, jt: 0, jf: 0, k: SECCOMP_RET_TRACE }
            },
    )
}

/// Build the filter program for `syscalls`.
pub fn build_filter(syscalls: &Vec<i64>) -> (program: Vec<Instruction>)
    requires
        syscalls.len() < 250,
    ensures
        program@ == filter_program(syscalls@),
{
    let mut program: Vec<Instruction> = Vec::new();
    // The word at offset 4 is the architecture, the word at offset 0 the syscall number.
    program.push(stmt(BPF_LD_W_ABS, 4));
    program.push(jump(BPF_JMP_JEQ_K, AUDIT_ARCH_X86_64, 1, 0));
    program.push(stmt(BPF_RET_K, SECCOMP_RET_ALLOW));
    program.push(stmt(BPF_LD_W_ABS, 0));
    let n: usize = syscalls.len();
    let mut i: usize = 0;
    assert(program@ =~= filter_program(syscalls@).take(4));
    while i < n
        invariant
            i <= n,
            n == syscalls.len(),
            n < 250,
            program@ == filter_program(syscalls@).take(4 + i),
        decreases n - i,
    {
        // Skip over the remaining comparisons and the ALLOW to reach the final TRACE.
        let jt = (n - i) as u8;
        program.push(jump(BPF_JMP_JEQ_K, syscalls[i] as u32, jt, 0));
        i += 1;
        assert(program@ =~= filter_program(syscalls@).take(4 + i));
    }
    program.push(stmt(BPF_RET_K, SECCOMP_RET_ALLOW));
    program.push(stmt(BPF_RET_K, SECCOMP_RET_TRACE));
    assert(program@ =~= filter_program(syscalls@));
    program
}

proof fn lemma_comparisons(syscalls: Seq<i64>, nr: u32, i: int)
    requires
        syscalls.len() < 250,
        0 <= i <= syscalls.len(),
        forall|j: int| 0 <= j < i ==> #[trigger] syscalls[j] as u32 != nr,
    ensures
        run_filter(filter_program(syscalls), 4 + i, nr, AUDIT_ARCH_X86_64, nr) == if exists|j: int|
            0 <= j < syscalls.len() && #[trigger] syscalls[j] as u32 == nr {
            Verdict::Return(SECCOMP_RET_TRACE)
        } else {
            Verdict::Return(SECCOMP_RET_ALLOW)
        },
    decreases syscalls.len() - i,
{
    let program = filter_program(syscalls);
    let n = syscalls.len();
    reveal_with_fuel(run_filter, 2);
    if i == n {
    } else if syscalls[i] as u32 == nr {
        assert(4 + i + 1 + (n - i) == 5 + n);
        assert(program[4 + i].jt as int == n - i);
    } else {
        lemma_comparisons(syscalls, nr, i + 1);
    }
}

/// On x86-64 the filter traces exactly the listed syscalls and allows every other; on another
/// architecture it allows everything.
pub proof fn filter_traces_exactly(syscalls: Seq<i64>, arch: u32, nr: u32)
    requires
        syscalls.len() < 250,
    ensures
        run_filter(filter_program(syscalls), 0, 0, arch, nr) == if arch == AUDIT_ARCH_X86_64
            && exists|j: int| 0 <= j < syscalls.len() && #[trigger] syscalls[j] as u32 == nr {
            Verdict::Return(SECCOMP_RET_TRACE)
        } else {
            Verdict::Return(SECCOMP_RET_ALLOW)
        },
{
    reveal_with_fuel(run_filter, 5);
    if arch == AUDIT_ARCH_X86_64 {
        lemma_comparisons(syscalls, nr, 0);
    }
}

} // verus!
