use pfs_fuzz::name::Name;
use pfs_fuzz::ops::Delimiter;
use pfs_fuzz::ops::Op;
use pfs_fuzz::validate::validate;

fn name_of(bytes: &[u8]) -> Name {
    Name::new(bytes.to_vec()).unwrap()
}

fn create_repo(name: &[u8]) -> Op {
    Op::CreateRepo { name: name_of(name), update: false }
}

fn create_branch(name: &[u8], new: bool) -> Op {
    Op::CreateBranch { name: name_of(name), new }
}

fn put_file(path: &[u8], bytes: &[u8]) -> Op {
    Op::PutFile {
        path: name_of(path),
        bytes: bytes.to_vec(),
        delimiter: Delimiter::NoDelimiter,
        target_file_datums: 0,
        target_file_bytes: 0,
        header_records: 0,
        overwrite_index: None,
    }
}

#[test]
fn delete_branch_before_any_create_branch_is_rejected() {
    let ops = vec![Op::DeleteBranch { force: false }];
    assert!(!validate(&ops));
    let ops = vec![create_repo(b"R"), Op::DeleteBranch { force: true }];
    assert!(!validate(&ops));
}

#[test]
fn a_full_write_sequence_is_accepted() {
    let ops = vec![
        create_repo(b"R"),
        create_branch(b"master", true),
        Op::StartCommit,
        put_file(b"/test", b"0"),
        Op::FinishCommit,
    ];
    assert!(validate(&ops));
}

#[test]
fn duplicate_repo_names_are_rejected() {
    let ops = vec![create_repo(b"R"), create_repo(b"R")];
    assert!(!validate(&ops));
    let ops = vec![create_repo(b"R"), create_repo(b"S")];
    assert!(validate(&ops));
}

#[test]
fn duplicate_branch_names_within_a_repo_are_rejected() {
    let ops = vec![create_repo(b"R"), create_branch(b"m", true), create_branch(b"m", true)];
    assert!(!validate(&ops));
    let ops = vec![create_repo(b"R"), create_branch(b"m", true), create_branch(b"n", true)];
    assert!(validate(&ops));
}

#[test]
fn inspections_need_a_target() {
    assert!(!validate(&vec![Op::InspectRepo]));
    assert!(!validate(&vec![Op::InspectBranch]));
    assert!(!validate(&vec![Op::InspectFile]));
    assert!(validate(&vec![create_repo(b"R"), Op::InspectRepo]));
    assert!(validate(&vec![Op::ListRepo]));
}

#[test]
fn delete_repo_all_resets_everything() {
    let ops = vec![
        create_repo(b"R"),
        Op::DeleteRepo { force: false, all: true },
        Op::InspectRepo,
    ];
    assert!(!validate(&ops));
    let ops = vec![create_repo(b"R"), Op::DeleteAll, Op::InspectRepo];
    assert!(!validate(&ops));
    let ops = vec![create_repo(b"R"), Op::DeleteRepo { force: false, all: false }, Op::InspectRepo];
    assert!(!validate(&ops));
    let ops = vec![Op::DeleteRepo { force: false, all: true }];
    assert!(validate(&ops));
}

#[test]
fn start_commit_needs_a_closed_branch() {
    assert!(!validate(&vec![create_repo(b"R"), Op::StartCommit]));
    let ops = vec![create_repo(b"R"), create_branch(b"m", true), Op::StartCommit];
    assert!(validate(&ops));
    let ops = vec![
        create_repo(b"R"),
        create_branch(b"m", true),
        Op::StartCommit,
        Op::StartCommit,
    ];
    assert!(!validate(&ops));
}

#[test]
fn finish_commit_needs_an_open_commit() {
    let ops = vec![create_repo(b"R"), create_branch(b"m", true), Op::FinishCommit];
    assert!(!validate(&ops));
    let ops = vec![
        create_repo(b"R"),
        create_branch(b"m", true),
        Op::StartCommit,
        Op::FinishCommit,
    ];
    assert!(validate(&ops));
}

#[test]
fn delete_commit_needs_a_head() {
    let ops = vec![create_repo(b"R"), create_branch(b"m", true), Op::DeleteCommit];
    assert!(!validate(&ops));
    let ops = vec![
        create_repo(b"R"),
        create_branch(b"m", true),
        Op::StartCommit,
        Op::DeleteCommit,
    ];
    assert!(validate(&ops));
    let ops = vec![
        create_repo(b"R"),
        create_branch(b"m", true),
        Op::StartCommit,
        put_file(b"/f", b"x"),
        Op::FinishCommit,
        Op::DeleteCommit,
    ];
    assert!(validate(&ops));
}

#[test]
fn delete_branch_needs_a_closed_nonempty_head_unless_forced() {
    let closed_empty = vec![
        create_repo(b"R"),
        create_branch(b"m", true),
        Op::DeleteBranch { force: false },
    ];
    assert!(!validate(&closed_empty));

    let forced = vec![
        create_repo(b"R"),
        create_branch(b"m", true),
        Op::DeleteBranch { force: true },
    ];
    assert!(validate(&forced));

    let ops = vec![
        create_repo(b"R"),
        create_branch(b"m", true),
        Op::StartCommit,
        put_file(b"/f", b"x"),
        Op::FinishCommit,
        Op::DeleteBranch { force: false },
    ];
    assert!(validate(&ops));

    let ops = vec![
        create_repo(b"R"),
        create_branch(b"m", true),
        Op::StartCommit,
        put_file(b"/f", b"x"),
        Op::DeleteBranch { force: false },
    ];
    assert!(!validate(&ops));
}

#[test]
fn diff_file_needs_two_files() {
    let ops = vec![
        create_repo(b"R"),
        create_branch(b"m", true),
        Op::StartCommit,
        put_file(b"/a", b"1"),
        Op::DiffFile { shallow: false },
    ];
    assert!(!validate(&ops));
    let ops = vec![
        create_repo(b"R"),
        create_branch(b"m", true),
        Op::StartCommit,
        put_file(b"/a", b"1"),
        put_file(b"/b", b"2"),
        Op::DiffFile { shallow: false },
    ];
    assert!(validate(&ops));
}

#[test]
fn create_branch_from_head_needs_a_closed_branch() {
    let ops = vec![create_repo(b"R"), create_branch(b"m", false)];
    assert!(!validate(&ops));
    let ops = vec![
        create_repo(b"R"),
        create_branch(b"a", true),
        create_branch(b"b", false),
    ];
    assert!(validate(&ops));
}

#[test]
fn put_file_needs_a_branch() {
    assert!(!validate(&vec![create_repo(b"R"), put_file(b"/f", b"x")]));
}
