//! Classification of the cache tree.
//!
//! The cache root holds shard directories, shards hold buckets, and a
//! bucket holds artifacts (no extension), their `.stats` siblings and
//! `.wip-*` lock files. A scan classifies what it finds: artifacts paired
//! with a usable mtime and size are recognized, active locks are skipped,
//! and everything else — stray files, orphaned stats, expired locks,
//! misplaced directories — is unrecognized, which marks it for deletion.

use vstd::prelude::*;

use crate::locks::{is_wip_ext, lock_expired, DirEntryInfo};

verus! {

/// One classified item of a sweep's working list.
pub enum CacheEntry {
    /// An artifact to be retained by preference: the sweep deletes
    /// recognized entries only past the quota cut, oldest first.
    Recognized { path: Vec<u8>, mtime: u64, size: u64 },
    /// Anything that does not belong: deleted by every sweep that runs.
    Unrecognized { path: Vec<u8>, is_dir: bool },
}

/// The mathematical shape of a classified item: the path as a byte
/// sequence, and the fields a sweep decides by.
pub enum EntryModel {
    Recognized { path: Seq<u8>, mtime: u64, size: u64 },
    Unrecognized { path: Seq<u8>, is_dir: bool },
}

impl View for CacheEntry {
    type V = EntryModel;

    open spec fn view(&self) -> EntryModel {
        match *self {
            CacheEntry::Recognized { path, mtime, size } => EntryModel::Recognized {
                path: path@,
                mtime,
                size,
            },
            CacheEntry::Unrecognized { path, is_dir } => EntryModel::Unrecognized {
                path: path@,
                is_dir,
            },
        }
    }
}

pub open spec fn entry_models(s: Seq<CacheEntry>) -> Seq<EntryModel> {
    s.map_values(|e: CacheEntry| e@)
}

/// The bytes of `.cleanup`, the stem reserved for the sweep lock.
pub open spec fn cleanup_stem() -> Seq<u8> {
    seq![46u8, 99u8, 108u8, 101u8, 97u8, 110u8, 117u8, 112u8]
}

/// The bytes of `stats`.
pub open spec fn stats_ext() -> Seq<u8> {
    seq![115u8, 116u8, 97u8, 116u8, 115u8]
}

/// A file at the cache root is skipped — left alone by the sweep — exactly
/// when it is the cache-wide sweep lock and that lock is still fresh.
/// Every other root-level file is unrecognized.
pub open spec fn root_file_skipped(
    e: DirEntryInfo,
    cleanup_interval: u64,
    future_limit: u64,
) -> bool {
    &&& e.stem@ == cleanup_stem()
    &&& e.ext is Some
    &&& is_wip_ext(e.ext->0@)
    &&& !lock_expired(e.mtime, cleanup_interval, future_limit)
}

pub fn classify_root_file(e: &DirEntryInfo, cleanup_interval: u64, future_limit: u64) -> (r: bool)
    ensures
        r == root_file_skipped(*e, cleanup_interval, future_limit),
{
    if e.stem.len() != 8 {
        proof {
            assert(e.stem@ != cleanup_stem());
        }
        return false;
    }
    let c = &e.stem;
    if c[0] == 46 && c[1] == 99 && c[2] == 108 && c[3] == 101 && c[4] == 97 && c[5] == 110
        && c[6] == 117 && c[7] == 112 {
        proof {
            assert(e.stem@ =~= cleanup_stem());
        }
        match &e.ext {
            Some(ext) => crate::locks::check_wip_ext(ext) && !crate::locks::is_fs_lock_expired(
                e.mtime,
                cleanup_interval,
                future_limit,
            ),
            None => false,
        }
    } else {
        proof {
            if e.stem@ == cleanup_stem() {
                assert(e.stem@[0] == 46 && e.stem@[1] == 99 && e.stem@[2] == 108 && e.stem@[3]
                    == 101 && e.stem@[4] == 97 && e.stem@[5] == 110 && e.stem@[6] == 117
                    && e.stem@[7] == 112);
            }
        }
        false
    }
}

/// How a file inside a bucket is treated.
#[derive(PartialEq, Eq, Structural)]
pub enum BucketFileClass {
    /// No extension: a module artifact, subject to pairing.
    ArtifactCandidate,
    /// Extension `stats`: a sidecar, subject to pairing.
    StatsCandidate,
    /// A `wip-*` lock past its freshness window: unrecognized, swept away.
    ExpiredLock,
    /// A `wip-*` lock still fresh: skipped, its task may be running.
    ActiveLock,
    /// Any other extension does not belong in a bucket: unrecognized.
    Stray,
}

pub open spec fn bucket_file_class(
    e: DirEntryInfo,
    wip_timeout: u64,
    future_limit: u64,
) -> BucketFileClass {
    if e.ext is None {
        BucketFileClass::ArtifactCandidate
    } else if e.ext->0@ == stats_ext() {
        BucketFileClass::StatsCandidate
    } else if is_wip_ext(e.ext->0@) {
        if lock_expired(e.mtime, wip_timeout, future_limit) {
            BucketFileClass::ExpiredLock
        } else {
            BucketFileClass::ActiveLock
        }
    } else {
        BucketFileClass::Stray
    }
}

pub fn classify_bucket_file(e: &DirEntryInfo, wip_timeout: u64, future_limit: u64) -> (r:
    BucketFileClass)
    ensures
        r == bucket_file_class(*e, wip_timeout, future_limit),
{
    match &e.ext {
        None => BucketFileClass::ArtifactCandidate,
        Some(ext) => {
            let is_stats = ext.len() == 5 && ext[0] == 115 && ext[1] == 116 && ext[2] == 97
                && ext[3] == 116 && ext[4] == 115;
            proof {
                if is_stats {
                    assert(ext@ =~= stats_ext());
                } else if ext@ == stats_ext() {
                    assert(ext@[0] == 115 && ext@[1] == 116 && ext@[2] == 97 && ext@[3] == 116
                        && ext@[4] == 115);
                }
            }
            if is_stats {
                BucketFileClass::StatsCandidate
            } else if crate::locks::check_wip_ext(ext) {
                if crate::locks::is_fs_lock_expired(e.mtime, wip_timeout, future_limit) {
                    BucketFileClass::ExpiredLock
                } else {
                    BucketFileClass::ActiveLock
                }
            } else {
                BucketFileClass::Stray
            }
        },
    }
}

/// Size and mtime of a candidate, as far as they could be read.
#[derive(Clone, Copy)]
pub struct FileMeta {
    pub size: u64,
    /// Seconds since some fixed epoch; nothing when the mtime read failed.
    pub mtime: Option<u64>,
}

/// An artifact or stats file awaiting pairing: its path, its stem (shared
/// between an artifact and its sidecar), which of the two it is, and its
/// metadata, or nothing when even that could not be read.
pub struct CandidateFile {
    pub path: Vec<u8>,
    pub stem: Vec<u8>,
    pub is_stats: bool,
    pub meta: Option<FileMeta>,
}

/// The mathematical shape of a candidate.
pub struct CandModel {
    pub path: Seq<u8>,
    pub stem: Seq<u8>,
    pub is_stats: bool,
    pub meta: Option<FileMeta>,
}

impl View for CandidateFile {
    type V = CandModel;

    open spec fn view(&self) -> CandModel {
        CandModel { path: self.path@, stem: self.stem@, is_stats: self.is_stats, meta: self.meta }
    }
}

pub open spec fn cand_models(s: Seq<CandidateFile>) -> Seq<CandModel> {
    s.map_values(|c: CandidateFile| c@)
}

pub open spec fn unrec_of(c: CandModel) -> EntryModel {
    EntryModel::Unrecognized { path: c.path, is_dir: false }
}

/// What one artifact contributes, given its stats sibling if any: a
/// recognized entry carrying the stats mtime when that is readable, else
/// the artifact's own mtime; when a needed read failed, the files involved
/// are unrecognized instead (sidecar first, as the scan reports them).
pub open spec fn artifact_entries(a: CandModel, t: Option<CandModel>) -> Seq<EntryModel> {
    if t is Some {
        let tv = t->0;
        if a.meta is None {
            seq![unrec_of(tv), unrec_of(a)]
        } else if tv.meta is Some && tv.meta->0.mtime is Some {
            seq![
                (EntryModel::Recognized {
                    path: a.path,
                    mtime: tv.meta->0.mtime->0,
                    size: a.meta->0.size,
                }),
            ]
        } else if a.meta->0.mtime is Some {
            seq![
                unrec_of(tv),
                (EntryModel::Recognized {
                    path: a.path,
                    mtime: a.meta->0.mtime->0,
                    size: a.meta->0.size,
                }),
            ]
        } else {
            seq![unrec_of(tv), unrec_of(a)]
        }
    } else {
        if a.meta is Some && a.meta->0.mtime is Some {
            seq![
                (EntryModel::Recognized {
                    path: a.path,
                    mtime: a.meta->0.mtime->0,
                    size: a.meta->0.size,
                }),
            ]
        } else {
            seq![unrec_of(a)]
        }
    }
}

/// Index of the first stats candidate with this stem, looking from `from`.
pub open spec fn find_stats_idx(cands: Seq<CandModel>, stem: Seq<u8>, from: int) -> Option<int>
    decreases cands.len() - from,
{
    if from < 0 || from >= cands.len() {
        None
    } else if cands[from].is_stats && cands[from].stem == stem {
        Some(from)
    } else {
        find_stats_idx(cands, stem, from + 1)
    }
}

pub open spec fn stats_sibling(cands: Seq<CandModel>, stem: Seq<u8>) -> Option<CandModel> {
    match find_stats_idx(cands, stem, 0) {
        Some(j) => Some(cands[j]),
        None => None,
    }
}

/// Does any artifact candidate carry this stem.
pub open spec fn has_artifact(cands: Seq<CandModel>, stem: Seq<u8>) -> bool {
    exists|i: int| 0 <= i < cands.len() && !(#[trigger] cands[i]).is_stats && cands[i].stem == stem
}

/// What the candidate at `i` contributes: an artifact brings its pairing,
/// a stats file with an artifact sibling is folded into that pairing, and
/// an orphaned stats file is unrecognized.
pub open spec fn cand_entries(cands: Seq<CandModel>, i: int) -> Seq<EntryModel> {
    let c = cands[i];
    if c.is_stats {
        if has_artifact(cands, c.stem) {
            Seq::empty()
        } else {
            seq![unrec_of(c)]
        }
    } else {
        artifact_entries(c, stats_sibling(cands, c.stem))
    }
}

pub open spec fn pair_from(cands: Seq<CandModel>, i: int) -> Seq<EntryModel>
    decreases cands.len() - i,
{
    if i < 0 || i >= cands.len() {
        Seq::empty()
    } else {
        cand_entries(cands, i) + pair_from(cands, i + 1)
    }
}

/// The classified entries a bucket's candidates give rise to, in scan
/// order.
pub open spec fn paired_entries(cands: Seq<CandModel>) -> Seq<EntryModel> {
    pair_from(cands, 0)
}

fn copy_bytes(v: &Vec<u8>) -> (r: Vec<u8>)
    ensures
        r@ == v@,
{
    let mut r: Vec<u8> = Vec::new();
    let mut i: usize = 0;
    while i < v.len()
        invariant
            0 <= i <= v@.len(),
            r@ == v@.subrange(0, i as int),
        decreases v@.len() - i,
    {
        r.push(v[i]);
        proof {
            assert(v@.subrange(0, i + 1) =~= v@.subrange(0, i as int).push(v@[i as int]));
        }
        i += 1;
    }
    proof {
        assert(v@.subrange(0, v@.len() as int) =~= v@);
    }
    r
}

fn stems_equal(a: &Vec<u8>, b: &Vec<u8>) -> (r: bool)
    ensures
        r == (a@ == b@),
{
    if a.len() != b.len() {
        return false;
    }
    let mut i: usize = 0;
    while i < a.len()
        invariant
            0 <= i <= a@.len(),
            a@.len() == b@.len(),
            forall|k: int| 0 <= k < i ==> a@[k] == b@[k],
        decreases a@.len() - i,
    {
        if a[i] != b[i] {
            return false;
        }
        i += 1;
    }
    proof {
        assert(a@ =~= b@);
    }
    true
}

fn find_stats(cands: &Vec<CandidateFile>, stem: &Vec<u8>) -> (r: Option<usize>)
    ensures
        match r {
            Some(j) => j < cands@.len() && find_stats_idx(cand_models(cands@), stem@, 0) == Some(
                j as int,
            ),
            None => find_stats_idx(cand_models(cands@), stem@, 0) is None,
        },
{
    let ghost cm = cand_models(cands@);
    let mut i: usize = 0;
    while i < cands.len()
        invariant
            0 <= i <= cands@.len(),
            cm == cand_models(cands@),
            cm.len() == cands@.len(),
            find_stats_idx(cm, stem@, 0) == find_stats_idx(cm, stem@, i as int),
        decreases cands@.len() - i,
    {
        let c = &cands[i];
        proof {
            assert(cm[i as int] == cands@[i as int]@);
        }
        if c.is_stats && stems_equal(&c.stem, stem) {
            return Some(i);
        }
        i += 1;
    }
    None
}

fn find_artifact(cands: &Vec<CandidateFile>, stem: &Vec<u8>) -> (r: bool)
    ensures
        r == has_artifact(cand_models(cands@), stem@),
{
    let ghost cm = cand_models(cands@);
    let mut i: usize = 0;
    while i < cands.len()
        invariant
            0 <= i <= cands@.len(),
            cm == cand_models(cands@),
            cm.len() == cands@.len(),
            forall|k: int| 0 <= k < i ==> !(!(#[trigger] cm[k]).is_stats && cm[k].stem == stem@),
        decreases cands@.len() - i,
    {
        let c = &cands[i];
        proof {
            assert(cm[i as int] == cands@[i as int]@);
        }
        if !c.is_stats && stems_equal(&c.stem, stem) {
            return true;
        }
        i += 1;
    }
    false
}

fn push_unrec(out: &mut Vec<CacheEntry>, path: &Vec<u8>, is_dir: bool)
    ensures
        final(out)@.len() == old(out)@.len() + 1,
        entry_models(final(out)@) == entry_models(old(out)@).push(
            (EntryModel::Unrecognized { path: path@, is_dir }),
        ),
{
    let p = copy_bytes(path);
    out.push(CacheEntry::Unrecognized { path: p, is_dir });
    proof {
        assert(entry_models(out@) =~= entry_models(old(out)@).push(
            (EntryModel::Unrecognized { path: path@, is_dir }),
        ));
    }
}

fn push_rec(out: &mut Vec<CacheEntry>, path: &Vec<u8>, mtime: u64, size: u64)
    ensures
        final(out)@.len() == old(out)@.len() + 1,
        entry_models(final(out)@) == entry_models(old(out)@).push(
            (EntryModel::Recognized { path: path@, mtime, size }),
        ),
{
    let p = copy_bytes(path);
    out.push(CacheEntry::Recognized { path: p, mtime, size });
    proof {
        assert(entry_models(out@) =~= entry_models(old(out)@).push(
            (EntryModel::Recognized { path: path@, mtime, size }),
        ));
    }
}

/// Pair a bucket's candidates: emit, in scan order, the recognized
/// artifacts with their mtime source resolved, and the unrecognized
/// leftovers — orphaned stats files and files whose metadata could not be
/// read.
pub fn pair_bucket(cands: &Vec<CandidateFile>) -> (r: Vec<CacheEntry>)
    ensures
        entry_models(r@) == paired_entries(cand_models(cands@)),
{
    let ghost cm = cand_models(cands@);
    let mut out: Vec<CacheEntry> = Vec::new();
    let mut i: usize = 0;
    proof {
        assert(entry_models(out@) =~= Seq::<EntryModel>::empty());
        assert(entry_models(out@) + pair_from(cm, 0) =~= paired_entries(cm));
    }
    while i < cands.len()
        invariant
            0 <= i <= cands@.len(),
            cm == cand_models(cands@),
            cm.len() == cands@.len(),
            entry_models(out@) + pair_from(cm, i as int) =~= paired_entries(cm),
        decreases cands@.len() - i,
    {
        let ghost prev = entry_models(out@);
        let c = &cands[i];
        proof {
            assert(cm[i as int] == cands@[i as int]@);
        }
        if c.is_stats {
            if !find_artifact(cands, &c.stem) {
                push_unrec(&mut out, &c.path, false);
            }
        } else {
            match find_stats(cands, &c.stem) {
                Some(j) => {
                    let t = &cands[j];
                    proof {
                        assert(cm[j as int] == cands@[j as int]@);
                        assert(stats_sibling(cm, cm[i as int].stem) == Some(cm[j as int]));
                    }
                    match &c.meta {
                        None => {
                            push_unrec(&mut out, &t.path, false);
                            push_unrec(&mut out, &c.path, false);
                        },
                        Some(am) => {
                            let t_mtime: Option<u64> = match &t.meta {
                                Some(tm) => tm.mtime,
                                None => None,
                            };
                            match t_mtime {
                                Some(mt) => {
                                    push_rec(&mut out, &c.path, mt, am.size);
                                },
                                None => {
                                    push_unrec(&mut out, &t.path, false);
                                    match am.mtime {
                                        Some(mt) => {
                                            push_rec(&mut out, &c.path, mt, am.size);
                                        },
                                        None => {
                                            push_unrec(&mut out, &c.path, false);
                                        },
                                    }
                                },
                            }
                        },
                    }
                },
                None => {
                    proof {
                        assert(stats_sibling(cm, cm[i as int].stem) is None);
                    }
                    match &c.meta {
                        Some(am) => {
                            match am.mtime {
                                Some(mt) => {
                                    push_rec(&mut out, &c.path, mt, am.size);
                                },
                                None => {
                                    push_unrec(&mut out, &c.path, false);
                                },
                            }
                        },
                        None => {
                            push_unrec(&mut out, &c.path, false);
                        },
                    }
                },
            }
        }
        proof {
            assert(entry_models(out@) =~= prev + cand_entries(cm, i as int));
            assert(entry_models(out@) + pair_from(cm, i + 1) =~= paired_entries(cm));
        }
        i += 1;
    }
    proof {
        assert(pair_from(cm, cm.len() as int) =~= Seq::<EntryModel>::empty());
        assert(entry_models(out@) =~= paired_entries(cm));
    }
    out
}

} // verus!
