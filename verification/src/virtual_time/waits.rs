//! Parked-wait bookkeeping: what a blocked thread is waiting for, and the file descriptors whose
//! readiness completes a wait.

use vstd::prelude::*;

use crate::linux::{POLLIN, POLLOUT, POLLPRI};

verus! {

/// Per-thread wait state while the thread is held in a stop.
#[derive(Debug)]
pub struct Wait {
    pub kind: WaitKind,
    /// Virtual time at which the wait times out; `None` = untimed.
    pub deadline: Option<u64>,
    /// Futex word this thread is waiting on: process and address.
    pub futex: Option<(i32, u64)>,
    /// File descriptors (of the target) whose readiness completes the wait.
    pub readiness: Vec<(i32, i16)>,
}

#[derive(Debug, Clone, Copy, PartialEq, Eq, Structural)]
pub enum WaitKind {
    /// nanosleep/clock_nanosleep: parked at the seccomp stop, syscall skipped on wake.
    Sleep,
    /// futex WAIT / WAIT_BITSET: parked at the syscall-exit stop of a zero-timeout probe.
    Futex,
    /// epoll_wait/poll/select family: parked at the syscall-exit stop of a zero-timeout probe.
    Poll,
}

/// How a probe should be re-issued after a wake that is not a timeout.
#[derive(Debug, Clone, Copy, PartialEq, Eq)]
pub struct Restart {
    pub deadline: Option<u64>,
}

/// A copy of a list of watched descriptors.
pub fn copy_readiness(readiness: &Vec<(i32, i16)>) -> (copy: Vec<(i32, i16)>)
    ensures
        copy@ == readiness@,
{
    let mut copy: Vec<(i32, i16)> = Vec::new();
    let mut i: usize = 0;
    while i < readiness.len()
        invariant
            i <= readiness.len(),
            copy@ == readiness@.take(i as int),
        decreases readiness.len() - i,
    {
        copy.push(readiness[i]);
        i += 1;
        assert(copy@ =~= readiness@.take(i as int));
    }
    assert(copy@ =~= readiness@);
    copy
}

/// At most this many descriptors of one call are watched.
pub const MAX_WATCHED_FDS: u64 = 1024;

/// Number of descriptors of a `poll` or `select` call that are watched.
pub open spec fn watched(nfds: u64) -> u64 {
    if nfds < MAX_WATCHED_FDS {
        nfds
    } else {
        MAX_WATCHED_FDS
    }
}

pub fn watched_fds(nfds: u64) -> (count: u64)
    ensures
        count == watched(nfds),
{
    if nfds < MAX_WATCHED_FDS {
        nfds
    } else {
        MAX_WATCHED_FDS
    }
}

/// Bytes of `struct pollfd[nfds]` to read from the target.
pub fn pollfd_bytes(nfds: u64) -> (len: usize)
    ensures
        len == 8 * watched(nfds),
{
    (watched_fds(nfds) * 8) as usize
}

/// Bytes of one `fd_set` of a select call on `nfds` descriptors: whole 64-bit words.
pub open spec fn fdset_len(nfds: u64) -> int {
    8 * ((watched(nfds) + 63) / 64)
}

pub fn fdset_bytes(nfds: u64) -> (len: usize)
    ensures
        len == fdset_len(nfds),
{
    ((watched_fds(nfds) + 63) / 64 * 8) as usize
}

/// Descriptor field of the `i`-th `struct pollfd`.
pub open spec fn pollfd_fd(bytes: Seq<u8>, i: int) -> i32 {
    (bytes[8 * i] as u32 | (bytes[8 * i + 1] as u32) << 8u32 | (bytes[8 * i + 2] as u32) << 16u32 | (
    bytes[8 * i + 3] as u32) << 24u32) as i32
}

/// Event mask of the `i`-th `struct pollfd`.
pub open spec fn pollfd_events(bytes: Seq<u8>, i: int) -> i16 {
    (bytes[8 * i + 4] as u16 | (bytes[8 * i + 5] as u16) << 8u16) as i16
}

/// The first `n` entries of a `struct pollfd` array, without those whose descriptor is negative.
pub open spec fn pollfds(bytes: Seq<u8>, n: int) -> Seq<(i32, i16)>
    decreases n,
{
    if n <= 0 {
        Seq::empty()
    } else {
        let fd = pollfd_fd(bytes, n - 1);
        if fd >= 0 {
            pollfds(bytes, n - 1).push((fd, pollfd_events(bytes, n - 1)))
        } else {
            pollfds(bytes, n - 1)
        }
    }
}

/// Decode the whole entries of a little-endian `struct pollfd` array.
pub fn decode_pollfds(bytes: &Vec<u8>) -> (watched: Vec<(i32, i16)>)
    ensures
        watched@ == pollfds(bytes@, bytes@.len() as int / 8),
{
    let count: usize = bytes.len() / 8;
    let mut out: Vec<(i32, i16)> = Vec::new();
    let mut i: usize = 0;
    while i < count
        invariant
            i <= count,
            count == bytes.len() / 8,
            out@ == pollfds(bytes@, i as int),
        decreases count - i,
    {
        let at: usize = 8 * i;
        let fd: i32 = (bytes[at] as u32 | (bytes[at + 1] as u32) << 8u32 | (bytes[at + 2] as u32)
            << 16u32 | (bytes[at + 3] as u32) << 24u32) as i32;
        let events: i16 = (bytes[at + 4] as u16 | (bytes[at + 5] as u16) << 8u16) as i16;
        if fd >= 0 {
            out.push((fd, events));
        }
        i += 1;
    }
    out
}

/// Descriptor `fd` is a member of the little-endian `fd_set`.
pub open spec fn fd_is_set(bytes: Seq<u8>, fd: int) -> bool {
    (bytes[fd / 8] >> ((fd % 8) as u8)) & 1u8 == 1u8
}

/// The members of the `fd_set` below `n`, in order, each with `events`.
pub open spec fn fdset_members(bytes: Seq<u8>, events: i16, n: int) -> Seq<(i32, i16)>
    decreases n,
{
    if n <= 0 {
        Seq::empty()
    } else if fd_is_set(bytes, n - 1) {
        fdset_members(bytes, events, n - 1).push(((n - 1) as i32, events))
    } else {
        fdset_members(bytes, events, n - 1)
    }
}

/// Append the members of one `fd_set` of a select call on `nfds` descriptors.
pub fn decode_fdset(bytes: &Vec<u8>, nfds: u64, events: i16, out: &mut Vec<(i32, i16)>)
    requires
        bytes.len() == fdset_len(nfds),
    ensures
        final(out)@ == old(out)@ + fdset_members(bytes@, events, watched(nfds) as int),
{
    let count: u64 = watched_fds(nfds);
    let mut fd: u64 = 0;
    assert(out@ =~= old(out)@ + fdset_members(bytes@, events, 0));
    while fd < count
        invariant
            fd <= count,
            count == watched(nfds),
            bytes.len() == fdset_len(nfds),
            out@ == old(out)@ + fdset_members(bytes@, events, fd as int),
        decreases count - fd,
    {
        let byte: u8 = bytes[(fd / 8) as usize];
        if (byte >> ((fd % 8) as u8)) & 1u8 == 1u8 {
            out.push((fd as i32, events));
            assert(out@ =~= old(out)@ + fdset_members(bytes@, events, fd + 1));
        }
        fd += 1;
    }
}

/// What the three sets of a select call watch. An absent set (a null pointer) watches nothing.
pub open spec fn select_members(
    nfds: u64,
    read: Option<Seq<u8>>,
    write: Option<Seq<u8>>,
    except: Option<Seq<u8>>,
) -> Seq<(i32, i16)> {
    let n = watched(nfds) as int;
    let r = match read {
        Some(b) => fdset_members(b, POLLIN, n),
        None => Seq::empty(),
    };
    let w = match write {
        Some(b) => fdset_members(b, POLLOUT, n),
        None => Seq::empty(),
    };
    let e = match except {
        Some(b) => fdset_members(b, POLLPRI, n),
        None => Seq::empty(),
    };
    r + w + e
}

/// View of an optional byte buffer.
pub open spec fn view_of(bytes: Option<Vec<u8>>) -> Option<Seq<u8>> {
    match bytes {
        Some(b) => Some(b@),
        None => None,
    }
}

/// Decode the three `fd_set`s of a select call into (descriptor, events) pairs.
pub fn decode_fdsets(
    nfds: u64,
    read: &Option<Vec<u8>>,
    write: &Option<Vec<u8>>,
    except: &Option<Vec<u8>>,
) -> (watched: Vec<(i32, i16)>)
    requires
        read matches Some(b) ==> b@.len() == fdset_len(nfds),
        write matches Some(b) ==> b@.len() == fdset_len(nfds),
        except matches Some(b) ==> b@.len() == fdset_len(nfds),
    ensures
        watched@ == select_members(nfds, view_of(*read), view_of(*write), view_of(*except)),
{
    let mut out: Vec<(i32, i16)> = Vec::new();
    if let Some(bytes) = read {
        decode_fdset(bytes, nfds, POLLIN, &mut out);
    }
    if let Some(bytes) = write {
        decode_fdset(bytes, nfds, POLLOUT, &mut out);
    }
    if let Some(bytes) = except {
        decode_fdset(bytes, nfds, POLLPRI, &mut out);
    }
    assert(out@ =~= select_members(nfds, view_of(*read), view_of(*write), view_of(*except)));
    out
}

/// Every descriptor that a select call watches lies below its descriptor count.
pub proof fn select_members_are_below_nfds(bytes: Seq<u8>, events: i16, n: int, i: int)
    requires
        n <= MAX_WATCHED_FDS,
        0 <= i < fdset_members(bytes, events, n).len(),
    ensures
        0 <= fdset_members(bytes, events, n)[i].0 < n,
        fd_is_set(bytes, fdset_members(bytes, events, n)[i].0 as int),
        fdset_members(bytes, events, n)[i].1 == events,
    decreases n,
{
    if n > 0 {
        let shorter = fdset_members(bytes, events, n - 1);
        if i < shorter.len() {
            select_members_are_below_nfds(bytes, events, n - 1, i);
        }
    }
}

/// Every descriptor of the set that lies below the count is watched.
pub proof fn select_watches_every_member(bytes: Seq<u8>, events: i16, n: int, fd: int)
    requires
        0 <= fd < n <= MAX_WATCHED_FDS,
        fd_is_set(bytes, fd),
    ensures
        fdset_members(bytes, events, n).contains((fd as i32, events)),
    decreases n,
{
    let members = fdset_members(bytes, events, n);
    let shorter = fdset_members(bytes, events, n - 1);
    if fd < n - 1 {
        select_watches_every_member(bytes, events, n - 1, fd);
        let k = choose|k: int| 0 <= k < shorter.len() && shorter[k] == (fd as i32, events);
        assert(members[k] == (fd as i32, events));
    } else {
        assert(members[shorter.len() as int] == (fd as i32, events));
    }
}

/// What a zero-timeout readiness poll on mirrored descriptors says.
#[derive(Debug, Clone, Copy, PartialEq, Eq, Structural)]
pub enum Readiness {
    Ready,
    NotReady,
    Failed,
}

/// Judge the result of `poll`: its count, and the error number where the count is negative. An
/// interrupted poll found nothing.
pub open spec fn polled(count: i32, errno: i32) -> Readiness {
    if count > 0 {
        Readiness::Ready
    } else if count == 0 || errno == crate::linux::EINTR {
        Readiness::NotReady
    } else {
        Readiness::Failed
    }
}

/// Judge the result of `poll`.
pub fn poll_verdict(count: i32, errno: i32) -> (verdict: Readiness)
    ensures
        verdict == polled(count, errno),
{
    if count > 0 {
        Readiness::Ready
    } else if count == 0 || errno == crate::linux::EINTR {
        Readiness::NotReady
    } else {
        Readiness::Failed
    }
}

/// Whether a thread that watches so many descriptors can go on, given what `poll` said of their
/// copies. A thread that watches nothing is never ready; a descriptor that could not be copied
/// is, since a poll would report it.
pub fn any_ready(watched: usize, poll: Option<(i32, i32)>) -> (verdict: Readiness)
    ensures
        verdict == if watched == 0 {
            Readiness::NotReady
        } else {
            match poll {
                None => Readiness::Ready,
                Some((count, errno)) => polled(count, errno),
            }
        },
{
    if watched == 0 {
        return Readiness::NotReady;
    }
    match poll {
        None => Readiness::Ready,
        Some((count, errno)) => poll_verdict(count, errno),
    }
}

/// An entry of a `poll` array holds its descriptor in four bytes and its events in two, each the
/// least first.
pub proof fn poll_entries_are_little_endian(bytes: Seq<u8>, i: int)
    requires
        0 <= i,
        8 * i + 8 <= bytes.len(),
        bytes[8 * i + 3] < 128,
        bytes[8 * i + 5] < 128,
    ensures
        pollfd_fd(bytes, i) == bytes[8 * i] + 256 * bytes[8 * i + 1] + 65536 * bytes[8 * i + 2]
            + 16777216 * bytes[8 * i + 3],
        pollfd_events(bytes, i) == bytes[8 * i + 4] + 256 * bytes[8 * i + 5],
{
    let a = bytes[8 * i];
    let b = bytes[8 * i + 1];
    let c = bytes[8 * i + 2];
    let d = bytes[8 * i + 3];
    assert((a as u32 | (b as u32) << 8u32 | (c as u32) << 16u32 | (d as u32) << 24u32) == a + 256 * b
        + 65536 * c + 16777216 * d) by (bit_vector)
        requires
            d < 128,
    ;
    let e = bytes[8 * i + 4];
    let f = bytes[8 * i + 5];
    assert((e as u16 | (f as u16) << 8u16) == e + 256 * f) by (bit_vector)
        requires
            f < 128,
    ;
}

/// A negative descriptor is one whose highest bit is set.
pub proof fn negative_descriptors_have_the_highest_bit(bytes: Seq<u8>, i: int)
    requires
        0 <= i,
        8 * i + 8 <= bytes.len(),
    ensures
        pollfd_fd(bytes, i) < 0 <==> bytes[8 * i + 3] >= 128,
{
    let a = bytes[8 * i];
    let b = bytes[8 * i + 1];
    let c = bytes[8 * i + 2];
    let d = bytes[8 * i + 3];
    assert(((a as u32 | (b as u32) << 8u32 | (c as u32) << 16u32 | (d as u32) << 24u32) as i32) < 0
        <==> d >= 128) by (bit_vector);
}

/// The sets of a `select` call are read in whole words of eight bytes that hold a bit for every
/// descriptor that is watched, and no word more.
pub proof fn descriptor_sets_are_read_in_words(nfds: u64)
    ensures
        fdset_len(nfds) % 8 == 0,
        fdset_len(nfds) * 8 >= watched(nfds),
        fdset_len(nfds) * 8 < watched(nfds) + 64,
        watched(nfds) <= nfds,
        watched(nfds) <= 1024,
        watched(nfds) == nfds || watched(nfds) == 1024,
{
}

} // verus!
