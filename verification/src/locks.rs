//! Best-effort cross-process lock protocol over sentinel files.
//!
//! A lock is a zero-byte file whose name is `<stem>.wip-<pid>` and whose
//! mtime encodes freshness. Acquisition lists the parent directory, and
//! proceeds to create the sentinel only when no unexpired sibling lock for
//! the same stem is present. The decisions here work on a plain snapshot
//! of the listing; creating, renaming and sweeping the files themselves is
//! the caller's side of the protocol.

use vstd::prelude::*;

use crate::digits::{fmt_u64, fmt_u64_spec};

verus! {

/// Default ceiling on how far in the future an mtime may lie before the
/// lock is written off as expired: 24 hours of clock skew are tolerated.
pub const FUTURE_MTIME_LIMIT_SECS: u64 = 86400;

/// What probing a file's mtime gave, relative to the probing moment.
#[derive(Clone, Copy)]
pub enum MtimeProbe {
    /// The metadata or the mtime could not be read.
    Unreadable,
    /// The mtime lies `secs` seconds in the past.
    Elapsed { secs: u64 },
    /// The mtime lies `secs` seconds in the future: clock skew or drift.
    InFuture { secs: u64 },
}

/// When a lock file with this mtime counts as expired: an unreadable mtime
/// is expired (never starve the task over a metadata glitch), a past mtime
/// expires once `threshold` seconds have elapsed, and a future mtime is
/// live unless it lies more than `future_limit` seconds ahead.
pub open spec fn lock_expired(m: MtimeProbe, threshold: u64, future_limit: u64) -> bool {
    match m {
        MtimeProbe::Unreadable => true,
        MtimeProbe::Elapsed { secs } => secs >= threshold,
        MtimeProbe::InFuture { secs } => secs > future_limit,
    }
}

pub fn is_fs_lock_expired(m: MtimeProbe, threshold: u64, future_limit: u64) -> (r: bool)
    ensures
        r == lock_expired(m, threshold, future_limit),
{
    match m {
        MtimeProbe::Unreadable => true,
        MtimeProbe::Elapsed { secs } => secs >= threshold,
        MtimeProbe::InFuture { secs } => secs > future_limit,
    }
}

/// One directory entry, as the acquisition decision needs it: the file
/// name split at its last dot, whether it is a directory, and its mtime.
pub struct DirEntryInfo {
    pub stem: Vec<u8>,
    pub ext: Option<Vec<u8>>,
    pub is_dir: bool,
    pub mtime: MtimeProbe,
}

/// Extension starts with `wip-`.
pub open spec fn is_wip_ext(ext: Seq<u8>) -> bool {
    ext.len() >= 4 && ext[0] == 119 && ext[1] == 105 && ext[2] == 112 && ext[3] == 45
}

pub fn check_wip_ext(ext: &Vec<u8>) -> (r: bool)
    ensures
        r == is_wip_ext(ext@),
{
    ext.len() >= 4 && ext[0] == 119 && ext[1] == 105 && ext[2] == 112 && ext[3] == 45
}

/// A sibling file that keeps the task locked: same stem, a `wip-`
/// extension, and not yet expired.
pub open spec fn is_live_lock_for(
    e: DirEntryInfo,
    stem: Seq<u8>,
    threshold: u64,
    future_limit: u64,
) -> bool {
    &&& !e.is_dir
    &&& e.stem@ == stem
    &&& e.ext is Some
    &&& is_wip_ext(e.ext->0@)
    &&& !lock_expired(e.mtime, threshold, future_limit)
}

/// No entry of the listing keeps the task locked.
pub open spec fn no_live_lock(
    entries: Seq<DirEntryInfo>,
    stem: Seq<u8>,
    threshold: u64,
    future_limit: u64,
) -> bool {
    forall|i: int|
        0 <= i < entries.len() ==> !is_live_lock_for(#[trigger] entries[i], stem, threshold, future_limit)
}

/// The file name of the lock this process would create: `<stem>.wip-<pid>`.
pub open spec fn lock_file_name(stem: Seq<u8>, pid: nat) -> Seq<u8> {
    stem + seq![46u8, 119u8, 105u8, 112u8, 45u8] + fmt_u64_spec(pid)
}

fn bytes_eq(a: &Vec<u8>, b: &Vec<u8>) -> (r: bool)
    ensures
        r == (a@ == b@),
{
    if a.len() != b.len() {
        return false;
    }
    let mut i: usize = 0;
    while i < a.len()
        invariant
            0 <= i <= a@.len(),
            a@.len() == b@.len(),
            forall|k: int| 0 <= k < i ==> a@[k] == b@[k],
        decreases a@.len() - i,
    {
        if a[i] != b[i] {
            return false;
        }
        i += 1;
    }
    proof {
        assert(a@ =~= b@);
    }
    true
}

/// Decide an acquisition of the task lock for `<task_stem>` against a
/// snapshot of the parent directory. Yields the name of the sentinel to
/// create exactly when no unexpired sibling lock is present; the caller
/// then creates that file with create-new semantics, and owns the task
/// only if that creation succeeds.
pub fn acquire_task_fs_lock(
    entries: &Vec<DirEntryInfo>,
    task_stem: &Vec<u8>,
    own_pid: u64,
    threshold: u64,
    future_limit: u64,
) -> (r: Option<Vec<u8>>)
    ensures
        r is Some <==> no_live_lock(entries@, task_stem@, threshold, future_limit),
        r is Some ==> r->0@ == lock_file_name(task_stem@, own_pid as nat),
{
    let mut i: usize = 0;
    while i < entries.len()
        invariant
            0 <= i <= entries@.len(),
            forall|k: int|
                0 <= k < i ==> !is_live_lock_for(
                    #[trigger] entries@[k],
                    task_stem@,
                    threshold,
                    future_limit,
                ),
        decreases entries@.len() - i,
    {
        let e = &entries[i];
        if !e.is_dir && bytes_eq(&e.stem, task_stem) {
            match &e.ext {
                Some(ext) => {
                    if check_wip_ext(ext) && !is_fs_lock_expired(e.mtime, threshold, future_limit)
                    {
                        proof {
                            assert(is_live_lock_for(
                                entries@[i as int],
                                task_stem@,
                                threshold,
                                future_limit,
                            ));
                        }
                        return None;
                    }
                },
                None => {},
            }
        }
        i += 1;
    }
    let mut name: Vec<u8> = Vec::new();
    let mut j: usize = 0;
    while j < task_stem.len()
        invariant
            0 <= j <= task_stem@.len(),
            name@ == task_stem@.subrange(0, j as int),
        decreases task_stem@.len() - j,
    {
        name.push(task_stem[j]);
        proof {
            assert(task_stem@.subrange(0, j + 1) =~= task_stem@.subrange(0, j as int).push(
                task_stem@[j as int],
            ));
        }
        j += 1;
    }
    name.push(46);
    name.push(119);
    name.push(105);
    name.push(112);
    name.push(45);
    let mut digits = fmt_u64(own_pid);
    name.append(&mut digits);
    proof {
        assert(task_stem@.subrange(0, task_stem@.len() as int) =~= task_stem@);
        assert(name@ =~= lock_file_name(task_stem@, own_pid as nat));
    }
    Some(name)
}

/// Mutual exclusion, best effort: while an unexpired lock for the stem
/// stands in the listing, acquisition yields nothing, so at most the one
/// caller whose sentinel already stands can hold the task.
pub proof fn lemma_live_lock_blocks(
    entries: Seq<DirEntryInfo>,
    stem: Seq<u8>,
    threshold: u64,
    future_limit: u64,
    i: int,
)
    requires
        0 <= i < entries.len(),
        is_live_lock_for(entries[i], stem, threshold, future_limit),
    ensures
        !no_live_lock(entries, stem, threshold, future_limit),
{
}

/// Lock expiry: when every sibling lock for the stem is expired,
/// acquisition goes through despite their presence.
pub proof fn lemma_expired_locks_do_not_block(
    entries: Seq<DirEntryInfo>,
    stem: Seq<u8>,
    threshold: u64,
    future_limit: u64,
)
    requires
        forall|i: int|
            0 <= i < entries.len() ==> lock_expired(
                (#[trigger] entries[i]).mtime,
                threshold,
                future_limit,
            ),
    ensures
        no_live_lock(entries, stem, threshold, future_limit),
{
}

/// The sentinel a successful acquisition creates is itself a live lock for
/// the same stem while fresh: a peer that lists the directory after the
/// creation, within the freshness window, is blocked in turn.
pub proof fn lemma_fresh_lock_blocks_peers(
    stem: Vec<u8>,
    ext: Vec<u8>,
    age_secs: u64,
    threshold: u64,
    future_limit: u64,
)
    requires
        ext@.len() >= 4,
        ext@[0] == 119 && ext@[1] == 105 && ext@[2] == 112 && ext@[3] == 45,
        age_secs < threshold,
    ensures
        is_live_lock_for(
            (DirEntryInfo {
                stem,
                ext: Some(ext),
                is_dir: false,
                mtime: (MtimeProbe::Elapsed { secs: age_secs }),
            }),
            stem@,
            threshold,
            future_limit,
        ),
{
}

} // verus!
