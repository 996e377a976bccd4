//! The workspace collaborator's decision logic: which directory entries
//! are trackable. The traversal itself is the caller's; the ignore rule —
//! at minimum the repository's own metadata directory — is decided here.

use vstd::prelude::*;

verus! {

/// `.git` — the repository metadata directory, never tracked.
pub open spec fn lit_git_dir() -> Seq<u8> {
    seq![46u8, 103u8, 105u8, 116u8]
}

/// Byte-for-byte equality of two byte strings.
pub fn bytes_equal(a: &[u8], b: &[u8]) -> (r: bool)
    ensures
        r == (a@ == b@),
{
    if a.len() != b.len() {
        return false;
    }
    let mut i: usize = 0;
    while i < a.len()
        invariant
            a@.len() == b@.len(),
            i <= a@.len(),
            forall|j: int| 0 <= j < i ==> a@[j] == b@[j],
        decreases a@.len() - i,
    {
        if a[i] != b[i] {
            return false;
        }
        i = i + 1;
    }
    proof {
        assert(a@ =~= b@);
    }
    true
}

/// The file tree a commit snapshots, rooted at one directory.
pub struct Workspace {
    path: Vec<u8>,
}

impl Workspace {
    /// The workspace root.
    pub closed spec fn spec_path(self) -> Seq<u8> {
        self.path@
    }

    /// A workspace rooted at the given directory.
    pub fn new(path: Vec<u8>) -> (r: Workspace)
        ensures
            r.spec_path() == path@,
    {
        Workspace { path }
    }

    /// Whether a directory entry name is in the ignore set: exactly the
    /// repository metadata directory.
    pub fn is_ignored(name: &[u8]) -> (r: bool)
        ensures
            r == (name@ == lit_git_dir()),
    {
        let git: Vec<u8> = vec![46u8, 103u8, 105u8, 116u8];
        bytes_equal(name, git.as_slice())
    }
}

} // verus!
