//! The HEAD pointer: the single mutable reference to the latest commit,
//! updated under the lockfile protocol so a partial write or a concurrent
//! updater can never corrupt it.

use vstd::prelude::*;
use crate::database::{append_bytes, append_range, path_join};
use crate::lockfile::{CreateOutcome, LockCommit, LockError, Lockfile};

verus! {

/// Failures of a HEAD update.
#[derive(Debug, PartialEq, Eq)]
pub enum RefError {
    /// Another process holds the HEAD lock: a recoverable race, distinct
    /// from I/O failure, so the caller can choose to retry. The payload
    /// names the contested path.
    LockDenied(Vec<u8>),
    /// An environmental failure from the locking layer.
    Lock(LockError),
}

/// `HEAD` — the pointer file's name.
pub open spec fn lit_head() -> Seq<u8> {
    seq![72u8, 69u8, 65u8, 68u8]
}

/// An ASCII whitespace byte, as trimming understands it.
pub open spec fn is_ascii_space(b: u8) -> bool {
    b == 32 || b == 9 || b == 10 || b == 13 || b == 11 || b == 12
}

/// The sequence with leading whitespace dropped.
pub open spec fn trim_front(s: Seq<u8>) -> Seq<u8>
    decreases s.len(),
{
    if s.len() > 0 && is_ascii_space(s.first()) {
        trim_front(s.drop_first())
    } else {
        s
    }
}

/// The sequence with trailing whitespace dropped.
pub open spec fn trim_back(s: Seq<u8>) -> Seq<u8>
    decreases s.len(),
{
    if s.len() > 0 && is_ascii_space(s.last()) {
        trim_back(s.drop_last())
    } else {
        s
    }
}

/// The sequence with whitespace dropped from both ends.
pub open spec fn trimmed(s: Seq<u8>) -> Seq<u8> {
    trim_back(trim_front(s))
}

/// Dropping leading whitespace byte by byte reaches `trim_front`.
proof fn lemma_trim_front_skip(s: Seq<u8>, i: int)
    requires
        0 <= i <= s.len(),
        forall|j: int| 0 <= j < i ==> is_ascii_space(#[trigger] s[j]),
    ensures
        trim_front(s) == trim_front(s.skip(i)),
    decreases i,
{
    if i > 0 {
        assert(s.skip(0) =~= s);
        assert(s.drop_first() =~= s.skip(1));
        assert(s.skip(1).skip(i - 1) =~= s.skip(i));
        assert(forall|j: int| 0 <= j < i - 1 ==> is_ascii_space(#[trigger] s.skip(1)[j]));
        lemma_trim_front_skip(s.skip(1), i - 1);
    } else {
        assert(s.skip(0) =~= s);
    }
}

/// Dropping trailing whitespace byte by byte reaches `trim_back`.
proof fn lemma_trim_back_take(s: Seq<u8>, i: int)
    requires
        0 <= i <= s.len(),
        forall|j: int| i <= j < s.len() ==> is_ascii_space(#[trigger] s[j]),
    ensures
        trim_back(s) == trim_back(s.take(i)),
    decreases s.len() - i,
{
    if i < s.len() {
        assert(is_ascii_space(s.last()));
        assert(s.drop_last() =~= s.take(s.len() - 1));
        assert(s.take(s.len() - 1).take(i) =~= s.take(i));
        assert(forall|j: int|
            i <= j < s.take(s.len() - 1).len() ==> is_ascii_space(
                #[trigger] s.take(s.len() - 1)[j],
            ));
        lemma_trim_back_take(s.take(s.len() - 1), i);
    } else {
        assert(s.take(s.len() as int) =~= s);
    }
}

/// Whether a byte is ASCII whitespace.
fn ascii_space(b: u8) -> (r: bool)
    ensures
        r == is_ascii_space(b),
{
    b == 32 || b == 9 || b == 10 || b == 13 || b == 11 || b == 12
}

/// Drops ASCII whitespace from both ends of a byte string.
pub fn trim_bytes(s: &[u8]) -> (r: Vec<u8>)
    ensures
        r@ == trimmed(s@),
{
    let mut start: usize = 0;
    while start < s.len() && ascii_space(s[start])
        invariant
            start <= s@.len(),
            forall|j: int| 0 <= j < start ==> is_ascii_space(#[trigger] s@[j]),
        decreases s@.len() - start,
    {
        start = start + 1;
    }
    proof {
        lemma_trim_front_skip(s@, start as int);
        assert(trim_front(s@.skip(start as int)) == s@.skip(start as int));
    }
    let mut end: usize = s.len();
    while end > start && ascii_space(s[end - 1])
        invariant
            start <= end <= s@.len(),
            forall|j: int| end <= j < s@.len() ==> is_ascii_space(#[trigger] s@[j]),
        decreases end,
    {
        end = end - 1;
    }
    proof {
        let t = s@.skip(start as int);
        assert(forall|j: int|
            end - start <= j < t.len() ==> is_ascii_space(#[trigger] t[j]));
        lemma_trim_back_take(t, end - start);
        assert(t.take(end - start) =~= s@.subrange(start as int, end as int));
        if end > start {
            assert(!is_ascii_space(s@[end - 1]));
            assert(t.take(end - start).last() == s@[end - 1]);
        }
        assert(trim_back(t.take(end - start)) == t.take(end - start));
    }
    let mut r: Vec<u8> = Vec::new();
    append_range(&mut r, s, start, end);
    r
}

/// The keeper of the HEAD pointer file under a repository metadata
/// directory.
pub struct Refs {
    path: Vec<u8>,
}

impl Refs {
    /// The repository metadata directory holding HEAD.
    pub closed spec fn spec_path(self) -> Seq<u8> {
        self.path@
    }

    /// The HEAD file's path.
    pub open spec fn spec_head_path(self) -> Seq<u8> {
        path_join(self.spec_path(), lit_head())
    }

    /// A HEAD keeper for the given metadata directory.
    pub fn new(path: Vec<u8>) -> (r: Refs)
        ensures
            r.spec_path() == path@,
    {
        Refs { path }
    }

    /// The path of the HEAD file.
    pub fn head_path(&self) -> (r: Vec<u8>)
        ensures
            r@ == self.spec_head_path(),
    {
        let mut r: Vec<u8> = Vec::new();
        append_bytes(&mut r, self.path.as_slice());
        r.push(47);
        let head: Vec<u8> = vec![72u8, 69u8, 65u8, 68u8];
        append_bytes(&mut r, head.as_slice());
        proof {
            assert(r@ =~= self.spec_head_path());
        }
        r
    }

    /// Repoints HEAD at a digest, under the lockfile protocol. The caller
    /// attempts the exclusive create of `HEAD.lock` and passes the
    /// outcome. Acquisition yields the commit plan — write the digest and
    /// a newline, then rename the lock onto HEAD. A lock already held
    /// elsewhere is a lock-denied failure here: at this layer contention
    /// is a genuine, retryable error, not information.
    pub fn update_head(&self, oid: &[u8], outcome: CreateOutcome) -> (r: Result<
        LockCommit,
        RefError,
    >)
        ensures
            match outcome {
                CreateOutcome::Created => {
                    &&& r is Ok
                    &&& r->Ok_0.lock_path@ == self.spec_head_path() + crate::lockfile::lock_suffix()
                    &&& r->Ok_0.target_path@ == self.spec_head_path()
                    &&& r->Ok_0.data@ == oid@ + seq![10u8]
                },
                CreateOutcome::AlreadyExists => r matches Err(RefError::LockDenied(p)) && p@
                    == self.spec_head_path(),
                CreateOutcome::MissingDirectory => r == Err::<LockCommit, RefError>(
                    RefError::Lock(LockError::MissingParent),
                ),
                CreateOutcome::PermissionDenied => r == Err::<LockCommit, RefError>(
                    RefError::Lock(LockError::NoPermission),
                ),
                CreateOutcome::OtherFailure => r == Err::<LockCommit, RefError>(
                    RefError::Lock(LockError::Io),
                ),
            },
    {
        let mut lockfile = Lockfile::new(self.head_path());
        match lockfile.hold_for_update(outcome) {
            Ok(true) => {
                let newline: Vec<u8> = vec![10u8];
                match lockfile.write(oid) {
                    Ok(_) => {},
                    Err(e) => {
                        proof {
                            assert(false);
                        }
                        return Err(RefError::Lock(e));
                    },
                }
                match lockfile.write(newline.as_slice()) {
                    Ok(_) => {},
                    Err(e) => {
                        proof {
                            assert(false);
                        }
                        return Err(RefError::Lock(e));
                    },
                }
                match lockfile.commit() {
                    Ok(plan) => Ok(plan),
                    Err(e) => {
                        proof {
                            assert(false);
                        }
                        Err(RefError::Lock(e))
                    },
                }
            },
            Ok(false) => Err(RefError::LockDenied(self.head_path())),
            Err(e) => Err(RefError::Lock(e)),
        }
    }

    /// Reads the HEAD pointer from the file's contents as the caller
    /// found them: absent means no commits yet — not an error — and
    /// present content is trimmed of surrounding whitespace.
    pub fn read_head(&self, content: Option<Vec<u8>>) -> (r: Option<Vec<u8>>)
        ensures
            match content {
                None => r is None,
                Some(b) => r is Some && r->0@ == trimmed(b@),
            },
    {
        match content {
            None => None,
            Some(b) => Some(trim_bytes(b.as_slice())),
        }
    }
}

} // verus!
