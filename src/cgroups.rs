//! A per-job control group (cgroup v2) directory: creating it with its limits,
//! adding processes to it and removing it once it is empty. The filesystem is a
//! capability passed in, so an in-memory one can stand in for `/sys/fs/cgroup`.
use vstd::prelude::*;

use vstd::utf8::{decode_utf8, encode_utf8, valid_utf8};

use crate::model::opt_string_view;
use crate::text::{decimal, parse_unsigned, pieces_view, push_decimal, split_words, string_of_chars, unsigned_value, words};

verus! {

/// The kind of a filesystem failure.
#[derive(Clone, Copy, Debug, PartialEq, Eq, Structural)]
pub enum FsErrorKind {
    NotFound,
    PermissionDenied,
    InvalidData,
    Other,
}

/// A filesystem failure and its message.
#[derive(Clone, Debug)]
pub struct FsError {
    pub kind: FsErrorKind,
    pub message: String,
}

/// One call made on a filesystem, with what it reported.
pub enum FsCall {
    CreateDirAll { path: Seq<char>, ok: bool },
    Write { path: Seq<char>, contents: Seq<u8>, ok: bool },
    Append { path: Seq<char>, contents: Seq<u8>, ok: bool },
    ReadToString { path: Seq<char>, contents: Option<Seq<char>> },
    PathExists { path: Seq<char>, found: bool },
    RemoveDir { path: Seq<char>, ok: bool },
}

/// The filesystem operations a control group needs. Every call is recorded, with
/// its arguments and outcome, in the ghost log `calls`; the log exists only for
/// proofs, so an implementation outside verified code need not keep one.
pub trait FileSystem {
    /// The calls made so far, oldest first.
    closed spec fn calls(&self) -> Seq<FsCall> {
        Seq::empty()
    }

    fn create_dir_all(&mut self, path: &str) -> (r: Result<(), FsError>)
        ensures
            final(self).calls() == old(self).calls().push(
                FsCall::CreateDirAll { path: path@, ok: r is Ok },
            ),
    ;

    fn write(&mut self, path: &str, contents: &[u8]) -> (r: Result<(), FsError>)
        ensures
            final(self).calls() == old(self).calls().push(
                FsCall::Write { path: path@, contents: contents@, ok: r is Ok },
            ),
    ;

    fn append(&mut self, path: &str, contents: &[u8]) -> (r: Result<(), FsError>)
        ensures
            final(self).calls() == old(self).calls().push(
                FsCall::Append { path: path@, contents: contents@, ok: r is Ok },
            ),
    ;

    fn read_to_string(&mut self, path: &str) -> (r: Result<String, FsError>)
        ensures
            final(self).calls() == old(self).calls().push(
                FsCall::ReadToString {
                    path: path@,
                    contents: match r {
                        Ok(s) => Some(s@),
                        Err(_) => None,
                    },
                },
            ),
    ;

    fn path_exists(&mut self, path: &str) -> (r: bool)
        ensures
            final(self).calls() == old(self).calls().push(FsCall::PathExists { path: path@, found: r }),
    ;

    fn remove_dir(&mut self, path: &str) -> (r: Result<(), FsError>)
        ensures
            final(self).calls() == old(self).calls().push(
                FsCall::RemoveDir { path: path@, ok: r is Ok },
            ),
    ;
}

/// A file of the in-memory filesystem.
#[derive(Clone, Debug)]
pub struct MemFile {
    pub path: String,
    pub data: Vec<u8>,
}

/// A filesystem held in memory: a list of paths with their bytes. Directories are
/// entries with no bytes.
pub struct MemFileSystem {
    files: Vec<MemFile>,
    log: Ghost<Seq<FsCall>>,
}

/// `q` is `p` or lies below it.
pub open spec fn is_under(q: Seq<char>, p: Seq<char>) -> bool {
    q == p || (q.len() > p.len() && q.subrange(0, p.len() as int) == p && q[p.len() as int] == '/')
}

/// The bytes stored under `p` in `files`, if any.
pub open spec fn file_in(files: Seq<MemFile>, p: Seq<char>) -> Option<Seq<u8>> {
    if exists|i: int| 0 <= i < files.len() && #[trigger] files[i].path@ == p {
        let i = choose|i: int| 0 <= i < files.len() && #[trigger] files[i].path@ == p;
        Some(files[i].data@)
    } else {
        None
    }
}

/// No path occurs twice in `files`.
pub open spec fn paths_unique(files: Seq<MemFile>) -> bool {
    forall|i: int, j: int|
        0 <= i < files.len() && 0 <= j < files.len() && i != j ==> #[trigger] files[i].path@
            != #[trigger] files[j].path@
}

/// What `p` holds after call `c`, given that it held `prev` before: a successful
/// creation leaves an empty entry, a write its bytes, an append the old bytes
/// followed by the new, a removal of `p` or of a directory above it nothing.
pub open spec fn replay_step(c: FsCall, prev: Option<Seq<u8>>, p: Seq<char>) -> Option<Seq<u8>> {
    match c {
        FsCall::CreateDirAll { path, ok } => if ok && path == p {
            Some(Seq::<u8>::empty())
        } else {
            prev
        },
        FsCall::Write { path, contents, ok } => if ok && path == p {
            Some(contents)
        } else {
            prev
        },
        FsCall::Append { path, contents, ok } => if ok && path == p {
            Some(
                match prev {
                    Some(b) => b,
                    None => Seq::<u8>::empty(),
                } + contents,
            )
        } else {
            prev
        },
        FsCall::RemoveDir { path, ok } => if ok && is_under(p, path) {
            None
        } else {
            prev
        },
        _ => prev,
    }
}

/// What `p` holds after the calls of `calls`, replayed on an empty filesystem.
pub open spec fn replay_file(calls: Seq<FsCall>, p: Seq<char>) -> Option<Seq<u8>>
    decreases calls.len(),
{
    if calls.len() == 0 {
        None
    } else {
        replay_step(calls.last(), replay_file(calls.drop_last(), p), p)
    }
}

proof fn lemma_replay_push(calls: Seq<FsCall>, c: FsCall)
    ensures
        forall|p: Seq<char>| #[trigger] replay_file(calls.push(c), p) == replay_step(c, replay_file(calls, p), p),
{
    assert(calls.push(c).drop_last() =~= calls);
}

impl MemFileSystem {
    /// No path occurs twice, and what each path holds is what replaying the
    /// recorded calls gives.
    #[verifier::type_invariant]
    closed spec fn wf(&self) -> bool {
        &&& paths_unique(self.files@)
        &&& forall|p: Seq<char>| #[trigger] file_in(self.files@, p) == replay_file(self.log@, p)
    }

    /// The bytes stored under `p`, if any.
    pub closed spec fn file(&self, p: Seq<char>) -> Option<Seq<u8>> {
        file_in(self.files@, p)
    }

    /// An empty filesystem.
    pub fn new() -> (r: Self)
        ensures
            r.calls() == Seq::<FsCall>::empty(),
            forall|p: Seq<char>| #[trigger] r.file(p) is None,
    {
        let files: Vec<MemFile> = Vec::new();
        proof {
            assert forall|p: Seq<char>| #[trigger] file_in(files@, p) == replay_file(Seq::<FsCall>::empty(), p) by {
                assert(files@.len() == 0);
            }
        }
        MemFileSystem { files, log: Ghost(Seq::empty()) }
    }

    fn index_of(&self, path: &str) -> (r: Option<usize>)
        ensures
            r matches Some(i) ==> i < self.files@.len() && self.files@[i as int].path@ == path@
                && self.file(path@) == Some(self.files@[i as int].data@),
            r is None ==> self.file(path@) is None,
    {
        proof {
            use_type_invariant(self);
        }
        let mut i: usize = 0;
        while i < self.files.len()
            invariant
                i <= self.files@.len(),
                forall|k: int| 0 <= k < i ==> #[trigger] self.files@[k].path@ != path@,
            decreases self.files.len() - i,
        {
            if same_text(self.files[i].path.as_str(), path) {
                proof {
                    use_type_invariant(self);
                    let j = choose|j: int| 0 <= j < self.files@.len() && #[trigger] self.files@[j].path@ == path@;
                    assert(j == i);
                }
                return Some(i);
            }
            i = i + 1;
        }
        None
    }

    /// Whether `path` is stored, without recording a call. Every path holds what
    /// replaying the recorded calls from an empty filesystem leaves there.
    pub fn contains(&self, path: &str) -> (r: bool)
        ensures
            r == (self.file(path@) is Some),
            forall|p: Seq<char>| #[trigger] self.file(p) == replay_file(self.calls(), p),
    {
        proof {
            use_type_invariant(self);
        }
        self.index_of(path).is_some()
    }

    /// The bytes stored under `path`, without recording a call. Every path holds
    /// what replaying the recorded calls from an empty filesystem leaves there.
    pub fn read(&self, path: &str) -> (r: Result<Vec<u8>, FsError>)
        ensures
            match self.file(path@) {
                Some(b) => r matches Ok(v) && v@ == b,
                None => r matches Err(e) && e.kind == FsErrorKind::NotFound,
            },
            forall|p: Seq<char>| #[trigger] self.file(p) == replay_file(self.calls(), p),
    {
        proof {
            use_type_invariant(self);
        }
        match self.index_of(path) {
            Some(i) => {
                let mut v: Vec<u8> = Vec::new();
                v.extend_from_slice(self.files[i].data.as_slice());
                proof {
                    assert(v@ =~= self.files@[i as int].data@);
                }
                Ok(v)
            },
            None => Err(FsError { kind: FsErrorKind::NotFound, message: String::from_str("File not found") }),
        }
    }

    /// Stores `data` under `path`, replacing what was there, and records `call`,
    /// whose replay does just that.
    fn put(&mut self, path: &str, data: Vec<u8>, Ghost(call): Ghost<FsCall>)
        requires
            forall|q: Seq<char>| #[trigger] replay_step(call, replay_file(old(self).log@, q), q) == if q == path@ {
                Some(data@)
            } else {
                replay_file(old(self).log@, q)
            },
        ensures
            final(self).log@ == old(self).log@.push(call),
            forall|p: Seq<char>| #[trigger] final(self).file(p) == if p == path@ {
                Some(data@)
            } else {
                old(self).file(p)
            },
    {
        proof {
            use_type_invariant(&*self);
            lemma_replay_push(self.log@, call);
        }
        let ghost before = self.files@;
        let ghost old_log = self.log@;
        let ghost d = data@;
        let found = self.index_of(path);
        let mut holder = MemFileSystem::new();
        core::mem::swap(self, &mut holder);
        proof {
            use_type_invariant(&holder);
        }
        let MemFileSystem { files: mut files, log } = holder;
        let f = MemFile { path: path.to_owned(), data };
        match found {
            Some(i) => {
                files.set(i, f);
                proof {
                    assert forall|p: Seq<char>| #[trigger] file_in(files@, p) == if p == path@ {
                        Some(d)
                    } else {
                        file_in(before, p)
                    } by {
                        if p == path@ {
                            assert(files@[i as int].path@ == p);
                            let j = choose|j: int| 0 <= j < files@.len() && #[trigger] files@[j].path@ == p;
                            if j != i {
                                assert(files@[j] == before[j]);
                                assert(before[i as int].path@ == p);
                            }
                        } else if exists|k: int| 0 <= k < before.len() && #[trigger] before[k].path@ == p {
                            let k = choose|k: int| 0 <= k < before.len() && #[trigger] before[k].path@ == p;
                            assert(files@[k] == before[k]);
                            let j = choose|j: int| 0 <= j < files@.len() && #[trigger] files@[j].path@ == p;
                            assert(files@[j] == before[j]);
                        } else {
                            assert forall|k: int| 0 <= k < files@.len() implies #[trigger] files@[k].path@ != p by {
                                if k != i {
                                    assert(files@[k] == before[k]);
                                }
                            }
                        }
                    }
                    assert forall|a: int, b: int|
                        0 <= a < files@.len() && 0 <= b < files@.len() && a != b implies #[trigger] files@[a].path@
                        != #[trigger] files@[b].path@ by {
                        if a != i {
                            assert(files@[a] == before[a]);
                        }
                        if b != i {
                            assert(files@[b] == before[b]);
                        }
                    }
                }
            },
            None => {
                files.push(f);
                proof {
                    let n = before.len() as int;
                    assert forall|p: Seq<char>| #[trigger] file_in(files@, p) == if p == path@ {
                        Some(d)
                    } else {
                        file_in(before, p)
                    } by {
                        if p == path@ {
                            assert(files@[n].path@ == p);
                            let j = choose|j: int| 0 <= j < files@.len() && #[trigger] files@[j].path@ == p;
                            if j != n {
                                assert(files@[j] == before[j]);
                            }
                        } else if exists|k: int| 0 <= k < before.len() && #[trigger] before[k].path@ == p {
                            let k = choose|k: int| 0 <= k < before.len() && #[trigger] before[k].path@ == p;
                            assert(files@[k] == before[k]);
                            let j = choose|j: int| 0 <= j < files@.len() && #[trigger] files@[j].path@ == p;
                            assert(files@[j] == before[j]);
                        } else {
                            assert forall|k: int| 0 <= k < files@.len() implies #[trigger] files@[k].path@ != p by {
                                if k < n {
                                    assert(files@[k] == before[k]);
                                }
                            }
                        }
                    }
                    assert forall|a: int, b: int|
                        0 <= a < files@.len() && 0 <= b < files@.len() && a != b implies #[trigger] files@[a].path@
                        != #[trigger] files@[b].path@ by {
                        if a < n {
                            assert(files@[a] == before[a]);
                        }
                        if b < n {
                            assert(files@[b] == before[b]);
                        }
                    }
                }
            },
        }
        proof {
            assert(log@ == old_log);
            assert forall|p: Seq<char>| #[trigger] file_in(files@, p) == replay_file(old_log.push(call), p) by {
                assert(replay_file(old_log.push(call), p) == replay_step(call, replay_file(old_log, p), p));
                assert(file_in(before, p) == replay_file(old_log, p));
            }
        }
        *self = MemFileSystem { files, log: Ghost(old_log.push(call)) };
    }

    /// Records a call that changes no file.
    fn record(&mut self, Ghost(call): Ghost<FsCall>)
        requires
            forall|q: Seq<char>| #[trigger] replay_step(call, replay_file(old(self).log@, q), q) == replay_file(
                old(self).log@,
                q,
            ),
        ensures
            final(self).log@ == old(self).log@.push(call),
            forall|p: Seq<char>| #[trigger] final(self).file(p) == old(self).file(p),
    {
        proof {
            use_type_invariant(&*self);
            lemma_replay_push(self.log@, call);
            assert forall|p: Seq<char>| #[trigger] file_in(self.files@, p) == replay_file(self.log@.push(call), p) by {
                assert(replay_file(self.log@.push(call), p) == replay_step(call, replay_file(self.log@, p), p));
            }
        }
        self.log = Ghost(self.log@.push(call));
    }
}

impl FileSystem for MemFileSystem {
    closed spec fn calls(&self) -> Seq<FsCall> {
        self.log@
    }

    /// Records `path` as a directory, with no bytes.
    fn create_dir_all(&mut self, path: &str) -> (r: Result<(), FsError>)
        ensures
            r is Ok,
            forall|p: Seq<char>| #[trigger] final(self).file(p) == if p == path@ {
                Some(Seq::<u8>::empty())
            } else {
                old(self).file(p)
            },
    {
        let data: Vec<u8> = Vec::new();
        proof {
            assert(data@ =~= Seq::<u8>::empty());
        }
        self.put(path, data, Ghost(FsCall::CreateDirAll { path: path@, ok: true }));
        Ok(())
    }

    /// Stores `contents` under `path`, replacing what was there.
    fn write(&mut self, path: &str, contents: &[u8]) -> (r: Result<(), FsError>)
        ensures
            r is Ok,
            forall|p: Seq<char>| #[trigger] final(self).file(p) == if p == path@ {
                Some(contents@)
            } else {
                old(self).file(p)
            },
    {
        let mut data: Vec<u8> = Vec::new();
        data.extend_from_slice(contents);
        proof {
            assert(data@ =~= contents@);
        }
        self.put(path, data, Ghost(FsCall::Write { path: path@, contents: contents@, ok: true }));
        Ok(())
    }

    /// Adds `contents` after what `path` holds, starting a new file if there is none.
    fn append(&mut self, path: &str, contents: &[u8]) -> (r: Result<(), FsError>)
        ensures
            r is Ok,
            forall|p: Seq<char>| #[trigger] final(self).file(p) == if p == path@ {
                Some(
                    match old(self).file(p) {
                        Some(b) => b,
                        None => Seq::<u8>::empty(),
                    } + contents@,
                )
            } else {
                old(self).file(p)
            },
    {
        proof {
            use_type_invariant(&*self);
        }
        let mut data = match self.read(path) {
            Ok(v) => v,
            Err(_) => Vec::new(),
        };
        let ghost start = data@;
        data.extend_from_slice(contents);
        proof {
            assert(data@ =~= start + contents@);
            assert(start == match old(self).file(path@) {
                Some(b) => b,
                None => Seq::<u8>::empty(),
            });
            assert(file_in(self.files@, path@) == replay_file(self.log@, path@));
        }
        self.put(path, data, Ghost(FsCall::Append { path: path@, contents: contents@, ok: true }));
        Ok(())
    }

    /// The text stored under `path`; fails when there is none or it is not UTF-8.
    fn read_to_string(&mut self, path: &str) -> (r: Result<String, FsError>)
        ensures
            final(self).file(path@) == old(self).file(path@),
            forall|p: Seq<char>| #[trigger] final(self).file(p) == old(self).file(p),
            r is Ok <==> (old(self).file(path@) matches Some(b) && valid_utf8(b)),
            r matches Ok(s) ==> s@ == decode_utf8(old(self).file(path@)->0),
    {
        let r = match self.read(path) {
            Ok(v) => match string_from_utf8(v) {
                Some(s) => Ok(s),
                None => Err(
                    FsError {
                        kind: FsErrorKind::InvalidData,
                        message: String::from_str("stream did not contain valid UTF-8"),
                    },
                ),
            },
            Err(e) => Err(e),
        };
        let ghost contents = match &r {
            Ok(s) => Some(s@),
            Err(_) => None,
        };
        self.record(Ghost(FsCall::ReadToString { path: path@, contents }));
        r
    }

    /// Whether `path` is stored.
    fn path_exists(&mut self, path: &str) -> (r: bool)
        ensures
            forall|p: Seq<char>| #[trigger] final(self).file(p) == old(self).file(p),
            r == (old(self).file(path@) is Some),
    {
        let r = self.contains(path);
        self.record(Ghost(FsCall::PathExists { path: path@, found: r }));
        r
    }

    /// Drops `path` and everything below it.
    fn remove_dir(&mut self, path: &str) -> (r: Result<(), FsError>)
        ensures
            r is Ok,
            forall|p: Seq<char>| #[trigger] final(self).file(p) == if is_under(p, path@) {
                None
            } else {
                old(self).file(p)
            },
    {
        proof {
            use_type_invariant(&*self);
        }
        let ghost before = self.files@;
        let ghost old_log = self.log@;
        let mut kept: Vec<MemFile> = Vec::new();
        let ghost mut idx: Seq<int> = Seq::empty();
        let mut i: usize = 0;
        while i < self.files.len()
            invariant
                self.files@ == before,
                i <= before.len(),
                kept@.len() == idx.len(),
                forall|j: int| 0 <= j < idx.len() ==> 0 <= #[trigger] idx[j] < i,
                forall|j: int, k: int| 0 <= j < k < idx.len() ==> #[trigger] idx[j] < #[trigger] idx[k],
                forall|j: int|
                    0 <= j < idx.len() ==> (#[trigger] kept@[j]).path@ == before[idx[j]].path@
                        && kept@[j].data@ == before[idx[j]].data@ && !is_under(before[idx[j]].path@, path@),
                forall|k: int| 0 <= k < i && !is_under(#[trigger] before[k].path@, path@) ==> exists|j: int| 0 <= j < idx.len() && idx[j] == k,
                forall|a: int, b: int|
                    0 <= a < before.len() && 0 <= b < before.len() && a != b ==> #[trigger] before[a].path@ != #[trigger] before[b].path@,
            decreases before.len() - i,
        {
            let ghost old_idx = idx;
            if !under_path(self.files[i].path.as_str(), path) {
                let f = MemFile { path: self.files[i].path.clone(), data: copy_bytes(&self.files[i].data) };
                kept.push(f);
                proof {
                    idx = idx.push(i as int);
                }
            }
            proof {
                assert forall|k: int| 0 <= k < i + 1 && !is_under(#[trigger] before[k].path@, path@) implies exists|
                    j: int,
                | 0 <= j < idx.len() && idx[j] == k by {
                    if k == i {
                        assert(idx[idx.len() - 1] == k);
                    } else {
                        let j = choose|j: int| 0 <= j < old_idx.len() && old_idx[j] == k;
                        assert(idx[j] == k);
                    }
                }
            }
            i = i + 1;
        }
        let ghost call = FsCall::RemoveDir { path: path@, ok: true };
        proof {
            lemma_replay_push(old_log, call);
            assert forall|a: int, b: int|
                0 <= a < kept@.len() && 0 <= b < kept@.len() && a != b implies #[trigger] kept@[a].path@
                != #[trigger] kept@[b].path@ by {
                if a < b {
                    assert(idx[a] < idx[b]);
                } else {
                    assert(idx[b] < idx[a]);
                }
            }
            assert forall|p: Seq<char>| #[trigger] file_in(kept@, p) == if is_under(p, path@) {
                None
            } else {
                file_in(before, p)
            } by {
                if exists|j: int| 0 <= j < kept@.len() && #[trigger] kept@[j].path@ == p {
                    let j = choose|j: int| 0 <= j < kept@.len() && #[trigger] kept@[j].path@ == p;
                    assert(before[idx[j]].path@ == p);
                    let k = choose|k: int| 0 <= k < before.len() && #[trigger] before[k].path@ == p;
                    assert(k == idx[j]);
                } else if exists|k: int| 0 <= k < before.len() && #[trigger] before[k].path@ == p {
                    let k = choose|k: int| 0 <= k < before.len() && #[trigger] before[k].path@ == p;
                    if !is_under(p, path@) {
                        let j = choose|j: int| 0 <= j < idx.len() && idx[j] == k;
                        assert(kept@[j].path@ == p);
                    }
                }
            }
            assert forall|p: Seq<char>| #[trigger] file_in(kept@, p) == replay_file(old_log.push(call), p) by {
                assert(replay_file(old_log.push(call), p) == replay_step(call, replay_file(old_log, p), p));
                assert(file_in(before, p) == replay_file(old_log, p));
            }
        }
        *self = MemFileSystem { files: kept, log: Ghost(old_log.push(call)) };
        Ok(())
    }
}

/// A copy of `v`.
fn copy_bytes(v: &Vec<u8>) -> (r: Vec<u8>)
    ensures
        r@ == v@,
{
    let mut r: Vec<u8> = Vec::new();
    r.extend_from_slice(v.as_slice());
    proof {
        assert(r@ =~= v@);
    }
    r
}

/// Relies on `String::from_utf8`: the bytes' text when they are valid UTF-8, else nothing.
#[verifier::external_body]
fn string_from_utf8(v: Vec<u8>) -> (r: Option<String>)
    ensures
        r is Some <==> valid_utf8(v@),
        r matches Some(s) ==> s@ == decode_utf8(v@),
{
    String::from_utf8(v).ok()
}

/// Whether path `q` is `p` or lies below it.
fn under_path(q: &str, p: &str) -> (r: bool)
    ensures
        r == is_under(q@, p@),
{
    let n = p.unicode_len();
    let m = q.unicode_len();
    if m < n {
        return false;
    }
    let mut i: usize = 0;
    while i < n
        invariant
            n == p@.len(),
            m == q@.len(),
            n <= m,
            i <= n,
            q@.subrange(0, i as int) == p@.subrange(0, i as int),
        decreases n - i,
    {
        if q.get_char(i) != p.get_char(i) {
            proof {
                if q@.subrange(0, n as int) == p@ {
                    assert(q@.subrange(0, n as int)[i as int] == q@[i as int]);
                }
            }
            return false;
        }
        proof {
            assert(q@.subrange(0, i + 1) =~= q@.subrange(0, i as int).push(q@[i as int]));
            assert(p@.subrange(0, i + 1) =~= p@.subrange(0, i as int).push(p@[i as int]));
        }
        i = i + 1;
    }
    proof {
        assert(p@ =~= p@.subrange(0, n as int));
    }
    if m == n {
        proof {
            assert(q@ =~= q@.subrange(0, n as int));
        }
        return true;
    }
    q.get_char(n) == '/'
}

/// Whether two strings have the same characters.
fn same_text(a: &str, b: &str) -> (r: bool)
    ensures
        r == (a@ == b@),
{
    let n = a.unicode_len();
    if n != b.unicode_len() {
        return false;
    }
    let mut i: usize = 0;
    while i < n
        invariant
            n == a@.len(),
            n == b@.len(),
            i <= n,
            a@.subrange(0, i as int) == b@.subrange(0, i as int),
        decreases n - i,
    {
        if a.get_char(i) != b.get_char(i) {
            return false;
        }
        proof {
            assert(a@.subrange(0, i + 1) =~= a@.subrange(0, i as int).push(a@[i as int]));
            assert(b@.subrange(0, i + 1) =~= b@.subrange(0, i as int).push(b@[i as int]));
        }
        i = i + 1;
    }
    proof {
        assert(a@ =~= a@.subrange(0, n as int));
        assert(b@ =~= b@.subrange(0, n as int));
    }
    true
}

/// Why a control-group operation failed.
#[derive(Debug)]
pub enum CGroupsError {
    /// The operation needs root privileges.
    NotRoot,
    CGroupCreationFailed(FsError),
    CGroupWriteFailed(FsError),
    CGroupReadFailed(FsError),
    CGroupRemovalFailed(FsError),
    CGroupHasRunningProcesses,
    AddProcessFailed(FsError),
    InvalidCGroupName(String),
    InvalidCPUSpec(String),
    InvalidMemorySpec(String),
    InvalidIOSpec(String),
    CGroupFileNotFound(String),
    Unknown(String),
}

impl CGroupsError {
    /// The error that a bare filesystem failure stands for: a permission problem means
    /// the caller is not root, a missing file is reported by its message.
    pub fn from_fs(e: FsError) -> (r: CGroupsError)
        ensures
            e.kind == FsErrorKind::PermissionDenied ==> r is NotRoot,
            e.kind == FsErrorKind::NotFound ==> (r matches CGroupsError::CGroupFileNotFound(m) && m@
                == e.message@),
            e.kind != FsErrorKind::PermissionDenied && e.kind != FsErrorKind::NotFound ==> (r matches CGroupsError::Unknown(m)
                && m@ == e.message@),
    {
        match e.kind {
            FsErrorKind::PermissionDenied => CGroupsError::NotRoot,
            FsErrorKind::NotFound => CGroupsError::CGroupFileNotFound(e.message),
            _ => CGroupsError::Unknown(e.message),
        }
    }
}

/// The directory under which every job's control group lives.
pub open spec fn base_dir() -> Seq<char> {
    "/sys/fs/cgroup/melon/"@
}

/// The directory of the control group `name`.
pub open spec fn group_dir(name: Seq<char>) -> Seq<char> {
    base_dir() + name
}

/// The controllers to enable, space-separated, for the limits that are set.
pub open spec fn controllers_text(cpus: bool, memory: bool, io: bool) -> Seq<char> {
    let toks = (if cpus {
        seq!["+cpuset"@]
    } else {
        seq![]
    }) + (if memory {
        seq!["+memory"@]
    } else {
        seq![]
    }) + (if io {
        seq!["+io"@]
    } else {
        seq![]
    });
    join_spaced(toks)
}

/// The words of `toks` joined by single spaces.
pub open spec fn join_spaced(toks: Seq<Seq<char>>) -> Seq<char>
    decreases toks.len(),
{
    if toks.len() == 0 {
        seq![]
    } else if toks.len() == 1 {
        toks[0]
    } else {
        join_spaced(toks.drop_last()) + seq![' '] + toks.last()
    }
}

/// A write that creating a group makes: a path and the text written there.
pub struct PlannedWrite {
    pub path: Seq<char>,
    pub text: Seq<char>,
}

/// The writes that follow the directory's creation, in order.
pub open spec fn create_writes(
    name: Seq<char>,
    cpus: Option<Seq<char>>,
    memory: Option<u64>,
    io: Option<Seq<char>>,
) -> Seq<PlannedWrite> {
    let dir = group_dir(name);
    let any = cpus is Some || memory is Some || io is Some;
    (if any {
        seq![
            PlannedWrite {
                path: dir + "/cgroup.subtree_control"@,
                text: controllers_text(cpus is Some, memory is Some, io is Some),
            },
        ]
    } else {
        seq![]
    }) + (match cpus {
        Some(c) => seq![PlannedWrite { path: dir + "/cpuset.cpus"@, text: c }],
        None => seq![],
    }) + (match memory {
        Some(m) => seq![PlannedWrite { path: dir + "/memory.max"@, text: decimal(m as nat) }],
        None => seq![],
    }) + (match io {
        Some(i) => seq![PlannedWrite { path: dir + "/io.max"@, text: i }],
        None => seq![],
    })
}

/// The calls logged after `old_len` calls.
pub open spec fn calls_since(calls: Seq<FsCall>, old_len: int) -> Seq<FsCall> {
    calls.subrange(old_len, calls.len() as int)
}

/// `c` is the planned write `w`, whatever its outcome.
pub open spec fn is_planned(c: FsCall, w: PlannedWrite) -> bool {
    c matches FsCall::Write { path, contents, .. } && path == w.path && contents == encode_utf8(w.text)
}

/// Builds a control group description; only the name is required.
pub struct CGroupsBuilder<F> {
    name: Option<String>,
    cpus: Option<String>,
    memory: Option<u64>,
    io: Option<String>,
    fs: Option<F>,
}

impl<F: FileSystem> CGroupsBuilder<F> {
    pub fn new() -> (r: Self)
        ensures
            r.spec_name() is None && r.spec_cpus() is None && r.spec_memory() is None && r.spec_io() is None
                && r.spec_fs() is None,
    {
        CGroupsBuilder { name: None, cpus: None, memory: None, io: None, fs: None }
    }

    pub closed spec fn spec_name(&self) -> Option<String> {
        self.name
    }

    pub closed spec fn spec_cpus(&self) -> Option<String> {
        self.cpus
    }

    pub closed spec fn spec_memory(&self) -> Option<u64> {
        self.memory
    }

    pub closed spec fn spec_io(&self) -> Option<String> {
        self.io
    }

    pub closed spec fn spec_fs(&self) -> Option<F> {
        self.fs
    }

    /// Uses `fs` as the filesystem.
    pub fn with_fs(self, fs: F) -> (r: Self)
        ensures
            r.spec_fs() == Some(fs),
            r.spec_name() == self.spec_name() && r.spec_cpus() == self.spec_cpus() && r.spec_memory()
                == self.spec_memory() && r.spec_io() == self.spec_io(),
    {
        CGroupsBuilder { fs: Some(fs), ..self }
    }

    pub fn name(self, name: &str) -> (r: Self)
        ensures
            r.spec_name() matches Some(n) && n@ == name@,
            r.spec_fs() == self.spec_fs() && r.spec_cpus() == self.spec_cpus() && r.spec_memory()
                == self.spec_memory() && r.spec_io() == self.spec_io(),
    {
        CGroupsBuilder { name: Some(name.to_owned()), ..self }
    }

    /// Restricts the group to the CPUs of `cpus`, e.g. `"0,3,5"` or `"0-1"`.
    pub fn with_cpu(self, cpus: &str) -> (r: Self)
        ensures
            r.spec_cpus() matches Some(c) && c@ == cpus@,
            r.spec_fs() == self.spec_fs() && r.spec_name() == self.spec_name() && r.spec_memory()
                == self.spec_memory() && r.spec_io() == self.spec_io(),
    {
        CGroupsBuilder { cpus: Some(cpus.to_owned()), ..self }
    }

    /// Limits the group's memory to `memory_bytes`.
    pub fn with_memory(self, memory_bytes: u64) -> (r: Self)
        ensures
            r.spec_memory() == Some(memory_bytes),
            r.spec_fs() == self.spec_fs() && r.spec_name() == self.spec_name() && r.spec_cpus()
                == self.spec_cpus() && r.spec_io() == self.spec_io(),
    {
        CGroupsBuilder { memory: Some(memory_bytes), ..self }
    }

    /// Sets the group's I/O limits, written as `io.max` takes them.
    pub fn with_io(self, io: &str) -> (r: Self)
        ensures
            r.spec_io() matches Some(i) && i@ == io@,
            r.spec_fs() == self.spec_fs() && r.spec_name() == self.spec_name() && r.spec_cpus()
                == self.spec_cpus() && r.spec_memory() == self.spec_memory(),
    {
        CGroupsBuilder { io: Some(io.to_owned()), ..self }
    }

    /// The described group, or `InvalidCGroupName` when no name was given.
    pub fn build(self) -> (r: Result<CGroups<F>, CGroupsError>)
        ensures
            self.spec_name() is None ==> r matches Err(CGroupsError::InvalidCGroupName(_)),
            self.spec_name() matches Some(n) ==> (r matches Ok(g) && g.name == n && g.cpus == self.spec_cpus()
                && g.memory == self.spec_memory() && g.io == self.spec_io() && g.spec_fs() == self.spec_fs()),
    {
        match self.name {
            Some(name) => Ok(CGroups { name, cpus: self.cpus, memory: self.memory, io: self.io, fs: self.fs }),
            None => Err(CGroupsError::InvalidCGroupName(String::from_str("Group name is required"))),
        }
    }
}

/// One job's control group: its name, its limits and the filesystem it lives on.
pub struct CGroups<F> {
    /// The group's name, the last component of its directory.
    pub name: String,
    /// The CPUs the group may use, e.g. `0,1,4`.
    pub cpus: Option<String>,
    /// The memory limit in bytes.
    pub memory: Option<u64>,
    /// The I/O limits.
    pub io: Option<String>,
    /// The filesystem the group lives on.
    pub fs: Option<F>,
}

/// The error for a group that has no filesystem to work on.
fn no_filesystem() -> (e: FsError)
    ensures
        e.kind == FsErrorKind::NotFound,
{
    FsError { kind: FsErrorKind::NotFound, message: String::from_str("no filesystem configured") }
}

impl<F: FileSystem> CGroups<F> {
    /// A builder for a group.
    pub fn build() -> (r: CGroupsBuilder<F>)
        ensures
            r.spec_name() is None && r.spec_cpus() is None && r.spec_memory() is None && r.spec_io() is None
                && r.spec_fs() is None,
    {
        CGroupsBuilder::new()
    }

    pub closed spec fn spec_fs(&self) -> Option<F> {
        self.fs
    }

    /// The group's directory.
    fn dir(&self) -> (r: String)
        ensures
            r@ == group_dir(self.name@),
    {
        let mut d = String::from_str("/sys/fs/cgroup/melon/");
        d.append(self.name.as_str());
        d
    }

    /// Creates the group's directory, enables the controllers for the limits that
    /// are set (`+cpuset +memory +io`, space-separated, in `cgroup.subtree_control`),
    /// then writes `cpuset.cpus`, `memory.max` (decimal bytes) and `io.max`. Stops at
    /// the first call that fails.
    pub fn create(&mut self) -> (r: Result<(), CGroupsError>)
        ensures
            old(self).spec_fs() is None ==> r matches Err(CGroupsError::CGroupCreationFailed(_)),
            final(self).name == old(self).name && final(self).cpus == old(self).cpus && final(self).memory
                == old(self).memory && final(self).io == old(self).io,
            old(self).spec_fs() is Some ==> final(self).spec_fs() is Some,
            old(self).spec_fs() matches Some(f0) ==> ({
                let new_calls = calls_since(final(self).spec_fs()->0.calls(), f0.calls().len() as int);
                let plan = create_writes(
                    old(self).name@,
                    opt_string_view(old(self).cpus),
                    old(self).memory,
                    opt_string_view(old(self).io),
                );
                &&& final(self).spec_fs()->0.calls().len() >= f0.calls().len()
                &&& final(self).spec_fs()->0.calls().subrange(0, f0.calls().len() as int) == f0.calls()
                &&& 1 <= new_calls.len() <= plan.len() + 1
                &&& new_calls[0] matches FsCall::CreateDirAll { path, ok } && path == group_dir(old(self).name@)
                &&& forall|k: int| 1 <= k < new_calls.len() ==> is_planned(#[trigger] new_calls[k], plan[k - 1])
                &&& forall|k: int| 0 <= k < new_calls.len() - 1 ==> call_ok(#[trigger] new_calls[k])
                &&& (r is Ok <==> (new_calls.len() == plan.len() + 1 && call_ok(new_calls.last())))
                &&& (r matches Err(CGroupsError::CGroupCreationFailed(_)) <==> (new_calls.len() == 1 && !call_ok(new_calls[0])))
                &&& (r matches Err(CGroupsError::CGroupWriteFailed(_)) <==> (new_calls.len() > 1 && !call_ok(new_calls.last())))
            }),
    {
        let dir = self.dir();
        let mut fs = match self.fs.take() {
            Some(f) => f,
            None => {
                return Err(CGroupsError::CGroupCreationFailed(no_filesystem()));
            },
        };
        let r = self.create_on(&mut fs, &dir);
        self.fs = Some(fs);
        r
    }

    /// Adds process `pid` to the group by appending `"<pid>\n"` to `cgroup.procs`.
    pub fn add_process(&mut self, pid: u32) -> (r: Result<(), CGroupsError>)
        ensures
            old(self).spec_fs() is None ==> r matches Err(CGroupsError::AddProcessFailed(_)),
            final(self).name == old(self).name && final(self).cpus == old(self).cpus && final(self).memory
                == old(self).memory && final(self).io == old(self).io,
            old(self).spec_fs() is Some ==> final(self).spec_fs() is Some,
            old(self).spec_fs() matches Some(f0) ==> ({
                let c = final(self).spec_fs()->0.calls();
                &&& c.len() == f0.calls().len() + 1
                &&& c.drop_last() == f0.calls()
                &&& (c.last() matches FsCall::Append { path, contents, ok } && path == group_dir(old(self).name@)
                    + "/cgroup.procs"@ && contents == encode_utf8(decimal(pid as nat) + seq!['\n'])
                    && (r is Ok <==> ok))
                &&& (r is Err ==> (r matches Err(CGroupsError::AddProcessFailed(_))))
            }),
    {
        let mut path = self.dir();
        path.append("/cgroup.procs");
        let mut line: Vec<char> = Vec::new();
        push_decimal(&mut line, pid as u64);
        line.push('\n');
        proof {
            assert(line@ =~= decimal(pid as nat) + seq!['\n']);
        }
        let text = string_of_chars(&line);
        let mut fs = match self.fs.take() {
            Some(f) => f,
            None => {
                return Err(CGroupsError::AddProcessFailed(no_filesystem()));
            },
        };
        let ghost before = fs.calls();
        let res = fs.append(path.as_str(), text.as_str().as_bytes());
        proof {
            assert(fs.calls().drop_last() =~= before);
        }
        self.fs = Some(fs);
        match res {
            Ok(()) => Ok(()),
            Err(e) => Err(CGroupsError::AddProcessFailed(e)),
        }
    }

    /// Removes the group's directory. Fails when the directory is absent, when its
    /// `cgroup.procs` cannot be read, or when a process it lists still has a
    /// `/proc/<pid>/stat`. Entries of `cgroup.procs` that are not process ids are skipped.
    pub fn remove(&mut self) -> (r: Result<(), CGroupsError>)
        ensures
            old(self).spec_fs() is None ==> (r matches Err(CGroupsError::CGroupRemovalFailed(e)) && e.kind
                == FsErrorKind::NotFound),
            final(self).name == old(self).name && final(self).cpus == old(self).cpus && final(self).memory
                == old(self).memory && final(self).io == old(self).io,
            old(self).spec_fs() is Some ==> final(self).spec_fs() is Some,
            old(self).spec_fs() matches Some(f0) ==> removal_calls(
                calls_since(final(self).spec_fs()->0.calls(), f0.calls().len() as int),
                group_dir(old(self).name@),
                r,
            ) && final(self).spec_fs()->0.calls().subrange(0, f0.calls().len() as int) == f0.calls(),
    {
        let dir = self.dir();
        let mut fs = match self.fs.take() {
            Some(f) => f,
            None => {
                return Err(CGroupsError::CGroupRemovalFailed(no_filesystem()));
            },
        };
        let r = remove_on(&mut fs, &dir);
        self.fs = Some(fs);
        r
    }

    fn create_on(&self, fs: &mut F, dir: &String) -> (r: Result<(), CGroupsError>)
        requires
            dir@ == group_dir(self.name@),
        ensures
            ({
                let new_calls = calls_since(final(fs).calls(), old(fs).calls().len() as int);
                let plan = create_writes(
                    self.name@,
                    opt_string_view(self.cpus),
                    self.memory,
                    opt_string_view(self.io),
                );
                &&& final(fs).calls().len() >= old(fs).calls().len()
                &&& final(fs).calls().subrange(0, old(fs).calls().len() as int) == old(fs).calls()
                &&& 1 <= new_calls.len() <= plan.len() + 1
                &&& new_calls[0] matches FsCall::CreateDirAll { path, ok } && path == group_dir(self.name@)
                &&& forall|k: int| 1 <= k < new_calls.len() ==> is_planned(#[trigger] new_calls[k], plan[k - 1])
                &&& forall|k: int| 0 <= k < new_calls.len() - 1 ==> call_ok(#[trigger] new_calls[k])
                &&& (r is Ok <==> (new_calls.len() == plan.len() + 1 && call_ok(new_calls.last())))
                &&& (r matches Err(CGroupsError::CGroupCreationFailed(_)) <==> (new_calls.len() == 1 && !call_ok(new_calls[0])))
                &&& (r matches Err(CGroupsError::CGroupWriteFailed(_)) <==> (new_calls.len() > 1 && !call_ok(new_calls.last())))
            }),
    {
        let ghost start = fs.calls();
        let ghost plan = create_writes(
            self.name@,
            opt_string_view(self.cpus),
            self.memory,
            opt_string_view(self.io),
        );
        if let Err(e) = fs.create_dir_all(dir.as_str()) {
            proof {
                assert(calls_since(fs.calls(), start.len() as int) =~= seq![fs.calls().last()]);
            }
            return Err(CGroupsError::CGroupCreationFailed(e));
        }
        let mut writes: Vec<(String, String)> = Vec::new();
        let any = self.cpus.is_some() || self.memory.is_some() || self.io.is_some();
        if any {
            let mut p = dir.clone();
            p.append("/cgroup.subtree_control");
            writes.push((p, controllers_line(self.cpus.is_some(), self.memory.is_some(), self.io.is_some())));
        }
        if let Some(c) = &self.cpus {
            let mut p = dir.clone();
            p.append("/cpuset.cpus");
            writes.push((p, c.clone()));
        }
        if let Some(m) = self.memory {
            let mut p = dir.clone();
            p.append("/memory.max");
            writes.push((p, crate::text::decimal_string(m)));
        }
        if let Some(i) = &self.io {
            let mut p = dir.clone();
            p.append("/io.max");
            writes.push((p, i.clone()));
        }
        proof {
            assert(writes@.len() == plan.len());
            assert forall|k: int| 0 <= k < plan.len() implies #[trigger] writes@[k].0@ == plan[k].path
                && writes@[k].1@ == plan[k].text by {
            }
            assert(calls_since(fs.calls(), start.len() as int) =~= seq![fs.calls().last()]);
            assert(fs.calls().subrange(0, start.len() as int) =~= start);
        }
        let ghost mid = fs.calls();
        let res = write_from(fs, &writes, 0);
        proof {
            let nc = calls_since(fs.calls(), start.len() as int);
            let tail = calls_since(fs.calls(), mid.len() as int);
            assert(fs.calls().subrange(0, mid.len() as int) == mid);
            assert(mid.subrange(0, start.len() as int) == start);
            assert(fs.calls().subrange(0, start.len() as int) =~= start);
            assert(nc =~= seq![mid.last()] + tail);
            assert forall|q: int| 1 <= q < nc.len() implies is_planned(#[trigger] nc[q], plan[q - 1]) by {
                assert(nc[q] == tail[q - 1]);
            }
            assert forall|q: int| 0 <= q < nc.len() - 1 implies call_ok(#[trigger] nc[q]) by {
                if q >= 1 {
                    assert(nc[q] == tail[q - 1]);
                }
            }
        }
        match res {
            Ok(()) => Ok(()),
            Err(e) => Err(CGroupsError::CGroupWriteFailed(e)),
        }
    }
}

/// Writes `ws[k..]` in order, each text to its path, stopping at the first failure.
fn write_from<F: FileSystem>(fs: &mut F, ws: &Vec<(String, String)>, k: usize) -> (r: Result<(), FsError>)
    requires
        k <= ws@.len(),
    ensures
        ({
            let nc = calls_since(final(fs).calls(), old(fs).calls().len() as int);
            &&& final(fs).calls().len() >= old(fs).calls().len()
            &&& final(fs).calls().subrange(0, old(fs).calls().len() as int) == old(fs).calls()
            &&& nc.len() <= ws@.len() - k
            &&& forall|q: int| 0 <= q < nc.len() ==> is_planned(#[trigger] nc[q], PlannedWrite { path: ws@[k + q].0@, text: ws@[k + q].1@ })
            &&& forall|q: int| 0 <= q < nc.len() - 1 ==> call_ok(#[trigger] nc[q])
            &&& (r is Ok <==> (nc.len() == ws@.len() - k && (nc.len() == 0 || call_ok(nc.last()))))
            &&& (r is Err ==> nc.len() >= 1 && !call_ok(nc.last()))
        }),
    decreases ws@.len() - k,
{
    let ghost start = fs.calls();
    if k == ws.len() {
        proof {
            assert(calls_since(fs.calls(), start.len() as int) =~= seq![]);
            assert(fs.calls().subrange(0, start.len() as int) =~= start);
        }
        return Ok(());
    }
    let res = fs.write(ws[k].0.as_str(), ws[k].1.as_str().as_bytes());
    let ghost mid = fs.calls();
    proof {
        assert(mid.subrange(0, start.len() as int) =~= start);
    }
    if let Err(e) = res {
        proof {
            assert(calls_since(fs.calls(), start.len() as int) =~= seq![mid.last()]);
        }
        return Err(e);
    }
    let rest = write_from(fs, ws, k + 1);
    proof {
        let nc = calls_since(fs.calls(), start.len() as int);
        let tail = calls_since(fs.calls(), mid.len() as int);
        assert(fs.calls().subrange(0, mid.len() as int) == mid);
        assert(fs.calls().subrange(0, start.len() as int) =~= start);
        assert(nc =~= seq![mid.last()] + tail);
        assert forall|q: int| 0 <= q < nc.len() implies is_planned(#[trigger] nc[q], PlannedWrite { path: ws@[k + q].0@, text: ws@[k + q].1@ }) by {
            if q >= 1 {
                assert(nc[q] == tail[q - 1]);
            }
        }
        assert forall|q: int| 0 <= q < nc.len() - 1 implies call_ok(#[trigger] nc[q]) by {
            if q >= 1 {
                assert(nc[q] == tail[q - 1]);
            }
        }
    }
    rest
}

/// The process ids among `ws`: the words that read as numbers no larger than `i32::MAX`.
pub open spec fn pid_list(ws: Seq<Seq<char>>) -> Seq<nat>
    decreases ws.len(),
{
    if ws.len() == 0 {
        seq![]
    } else {
        let rest = pid_list(ws.drop_last());
        match unsigned_value(ws.last()) {
            Some(v) => if v <= i32::MAX {
                rest.push(v)
            } else {
                rest
            },
            None => rest,
        }
    }
}

/// The file whose presence shows that process `pid` runs.
pub open spec fn stat_path(pid: nat) -> Seq<char> {
    "/proc/"@ + decimal(pid) + "/stat"@
}

/// `c` is a presence check of `path`.
pub open spec fn is_probe(c: FsCall, path: Seq<char>) -> bool {
    c matches FsCall::PathExists { path: p, .. } && p == path
}

/// The calls that removing the group at `dir` makes, and what it returns: a check
/// that `dir` exists, a read of its `cgroup.procs`, a check for each listed process,
/// stopping at the first that runs, and finally the removal of `dir`.
pub open spec fn removal_calls(nc: Seq<FsCall>, dir: Seq<char>, r: Result<(), CGroupsError>) -> bool {
    &&& nc.len() >= 1
    &&& is_probe(nc[0], dir)
    &&& !call_ok(nc[0]) ==> nc.len() == 1 && (r matches Err(CGroupsError::CGroupRemovalFailed(e)) && e.kind
        == FsErrorKind::NotFound)
    &&& call_ok(nc[0]) ==> nc.len() >= 2 && (nc[1] matches FsCall::ReadToString { path, .. } && path == dir
        + "/cgroup.procs"@)
    &&& call_ok(nc[0]) && !call_ok(nc[1]) ==> nc.len() == 2 && (r matches Err(CGroupsError::CGroupReadFailed(_)))
    &&& call_ok(nc[0]) && nc.len() >= 2 ==> match nc[1] {
        FsCall::ReadToString { contents: Some(text), .. } => {
        let ids = pid_list(words(text));
        &&& forall|q: int| 2 <= q < nc.len() && q - 2 < ids.len() ==> is_probe(#[trigger] nc[q], stat_path(ids[q - 2]))
        &&& forall|q: int| 2 <= q < nc.len() - 1 ==> !call_ok(#[trigger] nc[q])
        &&& (r matches Err(CGroupsError::CGroupHasRunningProcesses)) <==> (3 <= nc.len() <= ids.len() + 2
            && call_ok(nc.last()))
        &&& !(r matches Err(CGroupsError::CGroupHasRunningProcesses)) ==> (nc.len() == ids.len() + 3
            && (nc.last() matches FsCall::RemoveDir { path, ok } && path == dir && (r is Ok <==> ok))
            && (r is Err ==> (r matches Err(CGroupsError::CGroupRemovalFailed(_)))))
        },
        _ => true,
    }
}

/// The process ids listed in `text`.
fn pids_in(text: &String) -> (r: Vec<u64>)
    ensures
        r@.map_values(|v: u64| v as nat) == pid_list(words(text@)),
{
    let chars = crate::text::chars_of(text.as_str());
    let ws = split_words(&chars);
    let ghost all = words(text@);
    proof {
        assert(pieces_view(ws@) == all);
    }
    let mut out: Vec<u64> = Vec::new();
    let mut i: usize = 0;
    while i < ws.len()
        invariant
            i <= ws@.len(),
            pieces_view(ws@) == all,
            out@.map_values(|v: u64| v as nat) == pid_list(all.subrange(0, i as int)),
        decreases ws.len() - i,
    {
        proof {
            assert(all.subrange(0, i + 1).drop_last() =~= all.subrange(0, i as int));
            assert(all.subrange(0, i + 1).last() == ws@[i as int]@);
        }
        match parse_unsigned(&ws[i], i32::MAX as u64) {
            Some(v) => {
                out.push(v);
                proof {
                    assert(out@.map_values(|v: u64| v as nat) =~= pid_list(all.subrange(0, i as int)).push(v as nat));
                }
            },
            None => {},
        }
        i = i + 1;
    }
    proof {
        assert(all.subrange(0, i as int) =~= all);
    }
    out
}

/// The `/proc/<pid>/stat` path of process `pid`.
fn stat_file(pid: u64) -> (r: String)
    ensures
        r@ == stat_path(pid as nat),
{
    let mut s = String::from_str("/proc/");
    let d = crate::text::decimal_string(pid);
    s.append(d.as_str());
    s.append("/stat");
    s
}

/// Checks `ids[k..]` in order for a running process, stopping at the first found.
fn probe_from<F: FileSystem>(fs: &mut F, ids: &Vec<u64>, k: usize) -> (found: bool)
    requires
        k <= ids@.len(),
    ensures
        ({
            let nc = calls_since(final(fs).calls(), old(fs).calls().len() as int);
            &&& final(fs).calls().len() >= old(fs).calls().len()
            &&& final(fs).calls().subrange(0, old(fs).calls().len() as int) == old(fs).calls()
            &&& nc.len() <= ids@.len() - k
            &&& forall|q: int| 0 <= q < nc.len() ==> is_probe(#[trigger] nc[q], stat_path(ids@[k + q] as nat))
            &&& forall|q: int| 0 <= q < nc.len() - 1 ==> !call_ok(#[trigger] nc[q])
            &&& (found <==> (nc.len() >= 1 && call_ok(nc.last())))
            &&& (!found ==> nc.len() == ids@.len() - k)
        }),
    decreases ids@.len() - k,
{
    let ghost start = fs.calls();
    if k == ids.len() {
        proof {
            assert(calls_since(fs.calls(), start.len() as int) =~= seq![]);
            assert(fs.calls().subrange(0, start.len() as int) =~= start);
        }
        return false;
    }
    let path = stat_file(ids[k]);
    let here = fs.path_exists(path.as_str());
    let ghost mid = fs.calls();
    proof {
        assert(mid.subrange(0, start.len() as int) =~= start);
    }
    if here {
        proof {
            assert(calls_since(fs.calls(), start.len() as int) =~= seq![mid.last()]);
        }
        return true;
    }
    let rest = probe_from(fs, ids, k + 1);
    proof {
        let nc = calls_since(fs.calls(), start.len() as int);
        let tail = calls_since(fs.calls(), mid.len() as int);
        assert(fs.calls().subrange(0, mid.len() as int) == mid);
        assert(fs.calls().subrange(0, start.len() as int) =~= start);
        assert(nc =~= seq![mid.last()] + tail);
        assert forall|q: int| 0 <= q < nc.len() implies is_probe(#[trigger] nc[q], stat_path(ids@[k + q] as nat)) by {
            if q >= 1 {
                assert(nc[q] == tail[q - 1]);
            }
        }
        assert forall|q: int| 0 <= q < nc.len() - 1 implies !call_ok(#[trigger] nc[q]) by {
            if q >= 1 {
                assert(nc[q] == tail[q - 1]);
            }
        }
    }
    rest
}

fn remove_on<F: FileSystem>(fs: &mut F, dir: &String) -> (r: Result<(), CGroupsError>)
    ensures
        removal_calls(calls_since(final(fs).calls(), old(fs).calls().len() as int), dir@, r),
        final(fs).calls().subrange(0, old(fs).calls().len() as int) == old(fs).calls(),
{
    let ghost start = fs.calls();
    if !fs.path_exists(dir.as_str()) {
        proof {
            assert(calls_since(fs.calls(), start.len() as int) =~= seq![fs.calls().last()]);
            assert(fs.calls().subrange(0, start.len() as int) =~= start);
        }
        return Err(CGroupsError::CGroupRemovalFailed(FsError { kind: FsErrorKind::NotFound, message: String::from_str("Cgroup does not exist") }));
    }
    let ghost c0 = fs.calls().last();
    let mut procs = dir.clone();
    procs.append("/cgroup.procs");
    let read = fs.read_to_string(procs.as_str());
    let ghost after_read = fs.calls();
    proof {
        assert(after_read.subrange(0, start.len() as int) =~= start);
        assert(calls_since(after_read, start.len() as int) =~= seq![c0, after_read.last()]);
    }
    let text = match read {
        Ok(t) => t,
        Err(e) => {
            return Err(CGroupsError::CGroupReadFailed(e));
        },
    };
    let ids = pids_in(&text);
    let ghost idv = pid_list(words(text@));
    proof {
        assert(ids@.len() == idv.len());
        assert forall|q: int| 0 <= q < ids@.len() implies #[trigger] ids@[q] as nat == idv[q] by {
            assert(ids@.map_values(|v: u64| v as nat)[q] == ids@[q] as nat);
        }
    }
    let running = probe_from(fs, &ids, 0);
    let ghost after_probe = fs.calls();
    proof {
        assert(after_probe.subrange(0, after_read.len() as int) == after_read);
        assert(after_probe.subrange(0, start.len() as int) =~= start);
        let nc = calls_since(after_probe, start.len() as int);
        let tail = calls_since(after_probe, after_read.len() as int);
        assert(nc =~= seq![c0, after_read.last()] + tail);
    }
    if running {
        return Err(CGroupsError::CGroupHasRunningProcesses);
    }
    let res = fs.remove_dir(dir.as_str());
    proof {
        let all = fs.calls();
        assert(all.subrange(0, after_probe.len() as int) =~= after_probe);
        assert(all.subrange(0, start.len() as int) =~= start);
        let nc = calls_since(all, start.len() as int);
        let tail = calls_since(after_probe, after_read.len() as int);
        assert(nc =~= seq![c0, after_read.last()] + tail + seq![all.last()]);
    }
    match res {
        Ok(()) => Ok(()),
        Err(e) => Err(CGroupsError::CGroupRemovalFailed(e)),
    }
}

/// Whether a logged call succeeded.
pub open spec fn call_ok(c: FsCall) -> bool {
    match c {
        FsCall::CreateDirAll { ok, .. } => ok,
        FsCall::Write { ok, .. } => ok,
        FsCall::Append { ok, .. } => ok,
        FsCall::ReadToString { contents, .. } => contents is Some,
        FsCall::PathExists { found, .. } => found,
        FsCall::RemoveDir { ok, .. } => ok,
    }
}

/// The controllers line for the limits that are set.
fn controllers_line(cpus: bool, memory: bool, io: bool) -> (r: String)
    ensures
        r@ == controllers_text(cpus, memory, io),
{
    let mut toks: Vec<&str> = Vec::new();
    if cpus {
        toks.push("+cpuset");
    }
    if memory {
        toks.push("+memory");
    }
    if io {
        toks.push("+io");
    }
    let ghost tv = toks@.map_values(|t: &str| t@);
    proof {
        assert(tv =~= (if cpus {
            seq!["+cpuset"@]
        } else {
            seq![]
        }) + (if memory {
            seq!["+memory"@]
        } else {
            seq![]
        }) + (if io {
            seq!["+io"@]
        } else {
            seq![]
        }));
    }
    let mut out = String::new();
    let mut i: usize = 0;
    while i < toks.len()
        invariant
            i <= toks@.len(),
            tv == toks@.map_values(|t: &str| t@),
            out@ == join_spaced(tv.subrange(0, i as int)),
        decreases toks.len() - i,
    {
        if i > 0 {
            out.append(" ");
        }
        out.append(toks[i]);
        proof {
            let pre = tv.subrange(0, i as int);
            let next = tv.subrange(0, i + 1);
            assert(next.drop_last() =~= pre);
            if i == 0 {
                assert(out@ =~= join_spaced(next));
            } else {
                reveal_strlit(" ");
                assert(out@ =~= join_spaced(next));
            }
        }
        i = i + 1;
    }
    proof {
        assert(tv.subrange(0, i as int) =~= tv);
    }
    out
}

/// On the in-memory filesystem, reading a path gives the bytes written there last:
/// after a write of `first` and then of `second`, the path holds `second`, and other
/// paths hold what they held before.
pub proof fn lemma_mem_read_after_writes(
    start: MemFileSystem,
    mid: MemFileSystem,
    end: MemFileSystem,
    path: Seq<char>,
    first: Seq<u8>,
    second: Seq<u8>,
)
    requires
        forall|p: Seq<char>| #[trigger] mid.file(p) == if p == path {
            Some(first)
        } else {
            start.file(p)
        },
        forall|p: Seq<char>| #[trigger] end.file(p) == if p == path {
            Some(second)
        } else {
            mid.file(p)
        },
    ensures
        end.file(path) == Some(second),
        forall|p: Seq<char>| p != path ==> #[trigger] end.file(p) == start.file(p),
{
    assert forall|p: Seq<char>| p != path implies #[trigger] end.file(p) == start.file(p) by {
        assert(mid.file(p) == start.file(p));
    }
}

} // verus!
