//! Filesystem-based mutual exclusion for one target file. The sole
//! synchronization primitive is exclusive file creation: whoever creates
//! `<target>.lock` holds the lock, buffers writes to it, and commits by
//! atomically renaming the lock file onto the target.
//!
//! The decision logic lives here, fully verified, as a state machine over
//! plain values: the caller performs each filesystem step and feeds its
//! outcome back in.

use vstd::prelude::*;
use crate::database::append_bytes;

verus! {

/// Errors of the locking protocol, surfaced verbatim to callers.
#[derive(Debug, PartialEq, Eq)]
pub enum LockError {
    /// The directory that should hold the lock file does not exist.
    MissingParent,
    /// Access control rejected creating the lock file.
    NoPermission,
    /// A write or commit was attempted while no lock is held; the payload
    /// names the lock path.
    StaleLock(Vec<u8>),
    /// Any other I/O failure while acquiring the lock.
    Io,
}

/// The outcome of the caller's attempt to exclusively create the lock
/// path (create-new: fails when the path exists).
#[derive(Debug, PartialEq, Eq, Structural, Clone, Copy)]
pub enum CreateOutcome {
    /// The lock file was created; the caller now holds the handle.
    Created,
    /// The lock path already exists: another party holds the lock.
    AlreadyExists,
    /// The containing directory does not exist.
    MissingDirectory,
    /// Access control rejected the creation.
    PermissionDenied,
    /// Any other I/O failure.
    OtherFailure,
}

/// `.lock` — the suffix appended to the target path.
pub open spec fn lock_suffix() -> Seq<u8> {
    seq![46u8, 108u8, 111u8, 99u8, 107u8]
}

/// What a committed lock asks of the filesystem: write `data` to the held
/// lock file, fsync it, and atomically rename `lock_path` onto
/// `target_path`.
#[derive(Debug, PartialEq, Eq)]
pub struct LockCommit {
    /// The lock file that was held and is renamed away.
    pub lock_path: Vec<u8>,
    /// The target file the lock file replaces.
    pub target_path: Vec<u8>,
    /// Everything written while the lock was held, in order.
    pub data: Vec<u8>,
}

/// The mutual-exclusion state machine for one target file: unlocked, or
/// held with writes buffered until commit.
pub struct Lockfile {
    file_path: Vec<u8>,
    lock_path: Vec<u8>,
    held: bool,
    buffer: Vec<u8>,
}

impl Lockfile {
    /// The target file this lock protects.
    pub closed spec fn spec_file_path(self) -> Seq<u8> {
        self.file_path@
    }

    /// The lock path: the target path with `.lock` appended.
    pub closed spec fn spec_lock_path(self) -> Seq<u8> {
        self.lock_path@
    }

    /// Whether the lock is currently held.
    pub closed spec fn spec_held(self) -> bool {
        self.held
    }

    /// What has been written while holding the lock.
    pub closed spec fn spec_buffer(self) -> Seq<u8> {
        self.buffer@
    }

    /// A fresh, unheld lock for one target path.
    pub fn new(path: Vec<u8>) -> (r: Lockfile)
        ensures
            r.spec_file_path() == path@,
            r.spec_lock_path() == path@ + lock_suffix(),
            !r.spec_held(),
            r.spec_buffer() == Seq::<u8>::empty(),
    {
        let mut lock_path: Vec<u8> = Vec::new();
        append_bytes(&mut lock_path, path.as_slice());
        let suffix: Vec<u8> = vec![46u8, 108u8, 111u8, 99u8, 107u8];
        append_bytes(&mut lock_path, suffix.as_slice());
        Lockfile { lock_path, file_path: path, held: false, buffer: Vec::new() }
    }

    /// Whether the lock is held (so the caller knows whether a create
    /// attempt is called for at all).
    pub fn is_held(&self) -> (r: bool)
        ensures
            r == self.spec_held(),
    {
        self.held
    }

    /// The lock path, for the caller's exclusive-create attempt.
    pub fn lock_path(&self) -> (r: Vec<u8>)
        ensures
            r@ == self.spec_lock_path(),
    {
        let mut r: Vec<u8> = Vec::new();
        append_bytes(&mut r, self.lock_path.as_slice());
        proof {
            assert(r@ =~= self.spec_lock_path());
        }
        r
    }

    /// Takes the lock, given the outcome of the caller's exclusive-create
    /// attempt on the lock path. `Ok(false)` — someone (possibly this very
    /// holder) already has it — is a normal outcome, not a failure; only
    /// environmental trouble is an error.
    pub fn hold_for_update(&mut self, outcome: CreateOutcome) -> (r: Result<bool, LockError>)
        ensures
            final(self).spec_file_path() == old(self).spec_file_path(),
            final(self).spec_lock_path() == old(self).spec_lock_path(),
            old(self).spec_held() ==> r == Ok::<bool, LockError>(false) && *final(self) == *old(
                self,
            ),
            !old(self).spec_held() ==> match outcome {
                CreateOutcome::Created => final(self).spec_held() && final(self).spec_buffer()
                    == Seq::<u8>::empty() && r == Ok::<bool, LockError>(true),
                CreateOutcome::AlreadyExists => *final(self) == *old(self) && r == Ok::<
                    bool,
                    LockError,
                >(false),
                CreateOutcome::MissingDirectory => *final(self) == *old(self) && r == Err::<
                    bool,
                    LockError,
                >(LockError::MissingParent),
                CreateOutcome::PermissionDenied => *final(self) == *old(self) && r == Err::<
                    bool,
                    LockError,
                >(LockError::NoPermission),
                CreateOutcome::OtherFailure => *final(self) == *old(self) && r == Err::<
                    bool,
                    LockError,
                >(LockError::Io),
            },
    {
        if self.held {
            return Ok(false);
        }
        match outcome {
            CreateOutcome::Created => {
                self.held = true;
                self.buffer = Vec::new();
                Ok(true)
            },
            CreateOutcome::AlreadyExists => Ok(false),
            CreateOutcome::MissingDirectory => Err(LockError::MissingParent),
            CreateOutcome::PermissionDenied => Err(LockError::NoPermission),
            CreateOutcome::OtherFailure => Err(LockError::Io),
        }
    }

    /// Buffers bytes to the held lock file. Writing without holding the
    /// lock is the caller's error — stale lock — not a race.
    pub fn write(&mut self, content: &[u8]) -> (r: Result<usize, LockError>)
        ensures
            final(self).spec_file_path() == old(self).spec_file_path(),
            final(self).spec_lock_path() == old(self).spec_lock_path(),
            final(self).spec_held() == old(self).spec_held(),
            old(self).spec_held() ==> final(self).spec_buffer() == old(self).spec_buffer()
                + content@ && r == Ok::<usize, LockError>(content@.len() as usize),
            !old(self).spec_held() ==> *final(self) == *old(self) && (r matches Err(
                LockError::StaleLock(p),
            ) && p@ == old(self).spec_lock_path()),
    {
        if self.held {
            let n = content.len();
            append_bytes(&mut self.buffer, content);
            Ok(n)
        } else {
            Err(LockError::StaleLock(self.lock_path()))
        }
    }

    /// Releases the held lock, handing back everything the filesystem
    /// must now do: flush the buffered bytes, fsync, and atomically rename
    /// the lock path onto the target. Committing without holding the lock
    /// is a stale-lock error.
    pub fn commit(&mut self) -> (r: Result<LockCommit, LockError>)
        ensures
            final(self).spec_file_path() == old(self).spec_file_path(),
            final(self).spec_lock_path() == old(self).spec_lock_path(),
            old(self).spec_held() ==> {
                &&& !final(self).spec_held()
                &&& final(self).spec_buffer() == Seq::<u8>::empty()
                &&& r is Ok
                &&& r->Ok_0.lock_path@ == old(self).spec_lock_path()
                &&& r->Ok_0.target_path@ == old(self).spec_file_path()
                &&& r->Ok_0.data@ == old(self).spec_buffer()
            },
            !old(self).spec_held() ==> *final(self) == *old(self) && (r matches Err(
                LockError::StaleLock(p),
            ) && p@ == old(self).spec_lock_path()),
    {
        if self.held {
            let lock_path = self.lock_path();
            let mut target_path: Vec<u8> = Vec::new();
            append_bytes(&mut target_path, self.file_path.as_slice());
            let mut data: Vec<u8> = Vec::new();
            core::mem::swap(&mut data, &mut self.buffer);
            self.held = false;
            proof {
                assert(target_path@ =~= old(self).spec_file_path());
            }
            Ok(LockCommit { lock_path, target_path, data })
        } else {
            Err(LockError::StaleLock(self.lock_path()))
        }
    }
}

} // verus!
