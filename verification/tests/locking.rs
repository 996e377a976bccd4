use minigit::lockfile::{CreateOutcome, LockError, Lockfile};
use minigit::refs::{RefError, Refs};

#[test]
fn lock_path_is_target_plus_lock_suffix() {
    let lock = Lockfile::new(b"repo/HEAD".to_vec());
    assert_eq!(lock.lock_path(), b"repo/HEAD.lock".to_vec());
    assert!(!lock.is_held());
}

#[test]
fn second_hold_returns_false_not_an_error() {
    let mut lock = Lockfile::new(b"repo/HEAD".to_vec());
    assert_eq!(lock.hold_for_update(CreateOutcome::Created), Ok(true));
    // The same holder asks again without committing: false, no error —
    // whatever the filesystem would have said.
    assert_eq!(
        lock.hold_for_update(CreateOutcome::AlreadyExists),
        Ok(false)
    );
    assert!(lock.is_held());
    // After a commit the lock is free again and a fresh exclusive create
    // succeeds.
    lock.write(b"digest\n").unwrap();
    let plan = lock.commit().unwrap();
    assert_eq!(plan.lock_path, b"repo/HEAD.lock".to_vec());
    assert_eq!(plan.target_path, b"repo/HEAD".to_vec());
    assert_eq!(plan.data, b"digest\n".to_vec());
    assert!(!lock.is_held());
    assert_eq!(lock.hold_for_update(CreateOutcome::Created), Ok(true));
}

#[test]
fn contended_hold_returns_false() {
    let mut lock = Lockfile::new(b"repo/HEAD".to_vec());
    assert_eq!(
        lock.hold_for_update(CreateOutcome::AlreadyExists),
        Ok(false)
    );
    assert!(!lock.is_held());
}

#[test]
fn hold_surfaces_environmental_errors() {
    let mut lock = Lockfile::new(b"missing/HEAD".to_vec());
    assert_eq!(
        lock.hold_for_update(CreateOutcome::MissingDirectory),
        Err(LockError::MissingParent)
    );
    assert_eq!(
        lock.hold_for_update(CreateOutcome::PermissionDenied),
        Err(LockError::NoPermission)
    );
    assert_eq!(
        lock.hold_for_update(CreateOutcome::OtherFailure),
        Err(LockError::Io)
    );
}

#[test]
fn write_without_holding_is_a_stale_lock() {
    let mut lock = Lockfile::new(b"repo/HEAD".to_vec());
    assert_eq!(
        lock.write(b"x"),
        Err(LockError::StaleLock(b"repo/HEAD.lock".to_vec()))
    );
}

#[test]
fn commit_without_holding_is_a_stale_lock() {
    let mut lock = Lockfile::new(b"repo/HEAD".to_vec());
    assert_eq!(
        lock.commit().unwrap_err(),
        LockError::StaleLock(b"repo/HEAD.lock".to_vec())
    );
}

#[test]
fn writes_accumulate_in_order() {
    let mut lock = Lockfile::new(b"repo/HEAD".to_vec());
    lock.hold_for_update(CreateOutcome::Created).unwrap();
    assert_eq!(lock.write(b"abc"), Ok(3));
    assert_eq!(lock.write(b"def"), Ok(3));
    let plan = lock.commit().unwrap();
    assert_eq!(plan.data, b"abcdef".to_vec());
}

#[test]
fn update_head_writes_digest_and_newline() {
    let refs = Refs::new(b"repo/.git".to_vec());
    assert_eq!(refs.head_path(), b"repo/.git/HEAD".to_vec());
    let plan = refs
        .update_head(b"32f95c0d1244a78b2be1bab8de17906fabb2c4a8", CreateOutcome::Created)
        .unwrap();
    assert_eq!(plan.target_path, b"repo/.git/HEAD".to_vec());
    assert_eq!(plan.lock_path, b"repo/.git/HEAD.lock".to_vec());
    assert_eq!(
        plan.data,
        b"32f95c0d1244a78b2be1bab8de17906fabb2c4a8\n".to_vec()
    );
}

#[test]
fn losing_the_head_race_is_lock_denied() {
    let refs = Refs::new(b"repo/.git".to_vec());
    let denied = refs.update_head(b"abc", CreateOutcome::AlreadyExists);
    assert_eq!(
        denied,
        Err(RefError::LockDenied(b"repo/.git/HEAD".to_vec()))
    );
    let missing = refs.update_head(b"abc", CreateOutcome::MissingDirectory);
    assert_eq!(missing, Err(RefError::Lock(LockError::MissingParent)));
}

#[test]
fn read_head_absent_means_no_commits_yet() {
    let refs = Refs::new(b"repo/.git".to_vec());
    assert_eq!(refs.read_head(None), None);
}

#[test]
fn read_head_trims_the_stored_digest() {
    let refs = Refs::new(b"repo/.git".to_vec());
    assert_eq!(
        refs.read_head(Some(b"abc123\n".to_vec())),
        Some(b"abc123".to_vec())
    );
    assert_eq!(
        refs.read_head(Some(b"  x \t\n".to_vec())),
        Some(b"x".to_vec())
    );
    assert_eq!(refs.read_head(Some(b"\n".to_vec())), Some(Vec::new()));
}
