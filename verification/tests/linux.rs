use dowsing::linux::{
    decode_status, Status, CLOCK_BOOTTIME, CLOCK_MONOTONIC, CLOCK_MONOTONIC_COARSE,
    CLOCK_MONOTONIC_RAW, CLOCK_REALTIME, CLOCK_REALTIME_COARSE, CLOCK_TAI, EAGAIN, ECHILD, EINTR,
    EINVAL, ENOSYS, ETIMEDOUT, FUTEX_CLOCK_REALTIME, FUTEX_CMP_REQUEUE, FUTEX_PRIVATE_FLAG,
    FUTEX_REQUEUE, FUTEX_WAIT, FUTEX_WAIT_BITSET, FUTEX_WAKE, FUTEX_WAKE_BITSET, FUTEX_WAKE_OP,
    POLLIN, POLLOUT, POLLPRI, PTRACE_EVENT_CLONE, PTRACE_EVENT_EXEC, PTRACE_EVENT_EXIT,
    PTRACE_EVENT_FORK, PTRACE_EVENT_SECCOMP, PTRACE_EVENT_STOP, PTRACE_EVENT_VFORK, SIGKILL,
    SIGSTOP, SIGTRAP, SYS_CLOCK_GETTIME, SYS_CLOCK_NANOSLEEP, SYS_CLONE, SYS_CLONE3,
    SYS_EPOLL_PWAIT, SYS_EPOLL_PWAIT2, SYS_EPOLL_WAIT, SYS_EXIT, SYS_EXIT_GROUP, SYS_FUTEX,
    SYS_GETPPID, SYS_GETRANDOM, SYS_GETTIMEOFDAY, SYS_NANOSLEEP, SYS_POLL, SYS_PPOLL,
    SYS_PSELECT6, SYS_SCHED_YIELD, SYS_SELECT, SYS_TIME, SYS_TIMERFD_GETTIME,
    SYS_TIMERFD_SETTIME, TIMER_ABSTIME,
};

#[test]
fn system_call_numbers_are_those_of_the_kernel() {
    let pairs = [
        (SYS_POLL, libc::SYS_poll),
        (SYS_SELECT, libc::SYS_select),
        (SYS_SCHED_YIELD, libc::SYS_sched_yield),
        (SYS_NANOSLEEP, libc::SYS_nanosleep),
        (SYS_CLONE, libc::SYS_clone),
        (SYS_EXIT, libc::SYS_exit),
        (SYS_GETTIMEOFDAY, libc::SYS_gettimeofday),
        (SYS_GETPPID, libc::SYS_getppid),
        (SYS_TIME, libc::SYS_time),
        (SYS_FUTEX, libc::SYS_futex),
        (SYS_CLOCK_GETTIME, libc::SYS_clock_gettime),
        (SYS_CLOCK_NANOSLEEP, libc::SYS_clock_nanosleep),
        (SYS_EXIT_GROUP, libc::SYS_exit_group),
        (SYS_EPOLL_WAIT, libc::SYS_epoll_wait),
        (SYS_PSELECT6, libc::SYS_pselect6),
        (SYS_PPOLL, libc::SYS_ppoll),
        (SYS_EPOLL_PWAIT, libc::SYS_epoll_pwait),
        (SYS_TIMERFD_SETTIME, libc::SYS_timerfd_settime),
        (SYS_TIMERFD_GETTIME, libc::SYS_timerfd_gettime),
        (SYS_GETRANDOM, libc::SYS_getrandom),
        (SYS_CLONE3, libc::SYS_clone3),
        (SYS_EPOLL_PWAIT2, libc::SYS_epoll_pwait2),
    ];
    for (ours, theirs) in pairs {
        assert_eq!(ours, theirs);
    }
}

#[test]
fn clocks_signals_and_errors_are_those_of_the_kernel() {
    let pairs = [
        (CLOCK_REALTIME, libc::CLOCK_REALTIME),
        (CLOCK_MONOTONIC, libc::CLOCK_MONOTONIC),
        (CLOCK_MONOTONIC_RAW, libc::CLOCK_MONOTONIC_RAW),
        (CLOCK_REALTIME_COARSE, libc::CLOCK_REALTIME_COARSE),
        (CLOCK_MONOTONIC_COARSE, libc::CLOCK_MONOTONIC_COARSE),
        (CLOCK_BOOTTIME, libc::CLOCK_BOOTTIME),
        (CLOCK_TAI, libc::CLOCK_TAI),
        (FUTEX_WAIT, libc::FUTEX_WAIT),
        (FUTEX_WAKE, libc::FUTEX_WAKE),
        (FUTEX_REQUEUE, libc::FUTEX_REQUEUE),
        (FUTEX_CMP_REQUEUE, libc::FUTEX_CMP_REQUEUE),
        (FUTEX_WAKE_OP, libc::FUTEX_WAKE_OP),
        (FUTEX_WAIT_BITSET, libc::FUTEX_WAIT_BITSET),
        (FUTEX_WAKE_BITSET, libc::FUTEX_WAKE_BITSET),
        (EINTR, libc::EINTR),
        (ECHILD, libc::ECHILD),
        (EAGAIN, libc::EAGAIN),
        (EINVAL, libc::EINVAL),
        (ENOSYS, libc::ENOSYS),
        (ETIMEDOUT, libc::ETIMEDOUT),
        (SIGTRAP, libc::SIGTRAP),
        (SIGKILL, libc::SIGKILL),
        (SIGSTOP, libc::SIGSTOP),
        (PTRACE_EVENT_FORK, libc::PTRACE_EVENT_FORK),
        (PTRACE_EVENT_VFORK, libc::PTRACE_EVENT_VFORK),
        (PTRACE_EVENT_CLONE, libc::PTRACE_EVENT_CLONE),
        (PTRACE_EVENT_EXEC, libc::PTRACE_EVENT_EXEC),
        (PTRACE_EVENT_EXIT, libc::PTRACE_EVENT_EXIT),
        (PTRACE_EVENT_SECCOMP, libc::PTRACE_EVENT_SECCOMP),
        (PTRACE_EVENT_STOP, libc::PTRACE_EVENT_STOP),
        (POLLIN as i32, libc::POLLIN as i32),
        (POLLPRI as i32, libc::POLLPRI as i32),
        (POLLOUT as i32, libc::POLLOUT as i32),
        (TIMER_ABSTIME as i32, libc::TIMER_ABSTIME),
        (FUTEX_PRIVATE_FLAG as i32, libc::FUTEX_PRIVATE_FLAG),
        (FUTEX_CLOCK_REALTIME as i32, libc::FUTEX_CLOCK_REALTIME),
    ];
    for (ours, theirs) in pairs {
        assert_eq!(ours, theirs);
    }
}

#[test]
fn status_words_are_read_as_the_kernel_writes_them() {
    let stop = (SIGTRAP << 8) | 0x7f | (PTRACE_EVENT_SECCOMP << 16);
    for status in [0, 3 << 8, SIGKILL, stop, (SIGSTOP << 8) | 0x7f, 0xffff] {
        match decode_status(status) {
            Status::Exited(code) => {
                assert!(libc::WIFEXITED(status));
                assert_eq!(code, libc::WEXITSTATUS(status));
            }
            Status::Signaled(signal) => {
                assert!(libc::WIFSIGNALED(status));
                assert_eq!(signal, libc::WTERMSIG(status));
            }
            Status::Stopped { signal, event } => {
                assert!(libc::WIFSTOPPED(status));
                assert_eq!(signal, libc::WSTOPSIG(status));
                assert_eq!(event, status >> 16);
            }
            Status::Other => assert!(libc::WIFCONTINUED(status)),
        }
    }
}
