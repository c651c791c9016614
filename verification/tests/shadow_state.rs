use pfs_fuzz::name::name_eq;
use pfs_fuzz::name::Name;
use pfs_fuzz::state::State;

fn name_of(bytes: &[u8]) -> Name {
    Name::new(bytes.to_vec()).unwrap()
}

#[test]
fn a_fresh_state_tracks_nothing() {
    let state = State::default();
    assert!(state.repo().is_none());
    assert!(state.branch().is_none());
    assert!(state.file().is_none());
}

#[test]
fn repos_stack() {
    let mut state = State::default();
    state.push_repo(name_of(b"a"));
    state.push_repo(name_of(b"b"));
    assert!(name_eq(&state.repo().unwrap().name, &name_of(b"b")));
    let popped = state.pop_repo().unwrap();
    assert!(name_eq(&popped.name, &name_of(b"b")));
    assert!(name_eq(&state.repo().unwrap().name, &name_of(b"a")));
    assert!(state.has_repo_named(&name_of(b"a")));
    assert!(!state.has_repo_named(&name_of(b"b")));
}

#[test]
fn the_top_branch_is_the_last_branch_of_the_last_repo_that_has_any() {
    let mut state = State::default();
    state.push_repo(name_of(b"a"));
    state.create_branch(name_of(b"x"));
    state.push_repo(name_of(b"b"));
    // repo b has no branches: the top branch is still a/x
    let top = state.branch().unwrap();
    assert!(name_eq(&top.repo_name, &name_of(b"a")));
    assert!(name_eq(&top.name, &name_of(b"x")));
}

#[test]
fn open_and_closed_branches_are_tracked_separately() {
    let mut state = State::default();
    state.push_repo(name_of(b"r"));
    assert!(!state.start_commit());
    state.create_branch(name_of(b"x"));
    state.create_branch(name_of(b"y"));
    assert!(state.start_commit());
    // y (the top closed branch) is now open
    assert!(name_eq(&state.open_branch().unwrap().name, &name_of(b"y")));
    assert!(name_eq(&state.closed_branch().unwrap().name, &name_of(b"x")));
    assert!(state.finish_commit());
    assert!(state.open_branch().is_none());
}

#[test]
fn files_pop_across_branches_and_repos() {
    let mut state = State::default();
    state.push_repo(name_of(b"a"));
    state.create_branch(name_of(b"x"));
    assert!(state.push_file(name_of(b"/one")));
    state.push_repo(name_of(b"b"));
    // repo b has no branch, so the top file still lives in a/x
    let top = state.file().unwrap();
    assert!(name_eq(&top.repo_name, &name_of(b"a")));
    assert!(name_eq(&top.branch_name, &name_of(b"x")));
    assert!(name_eq(&top.name, &name_of(b"/one")));
    let popped = state.pop_file().unwrap();
    assert!(name_eq(&popped.name, &name_of(b"/one")));
    assert!(state.file().is_none());
    assert!(state.pop_file().is_none());
}

#[test]
fn popping_two_files_needs_two_and_restores_otherwise() {
    let mut state = State::default();
    state.push_repo(name_of(b"a"));
    state.create_branch(name_of(b"x"));
    assert!(state.push_file(name_of(b"/one")));
    // only one file: the pair pop fails and the file is still tracked
    assert!(state.pop_two_files().is_none());
    assert!(state.file().is_some());
    assert!(state.push_file(name_of(b"/two")));
    let (first, second) = state.pop_two_files().unwrap();
    assert!(name_eq(&first.name, &name_of(b"/two")));
    assert!(name_eq(&second.name, &name_of(b"/one")));
    assert!(state.file().is_none());
}

#[test]
fn pop_branch_takes_the_most_recent() {
    let mut state = State::default();
    state.push_repo(name_of(b"a"));
    state.create_branch(name_of(b"x"));
    state.push_repo(name_of(b"b"));
    state.create_branch(name_of(b"y"));
    let popped = state.pop_branch().unwrap();
    assert!(name_eq(&popped.name, &name_of(b"y")));
    let popped = state.pop_branch().unwrap();
    assert!(name_eq(&popped.name, &name_of(b"x")));
    assert!(state.pop_branch().is_none());
}

#[test]
fn clearing_forgets_everything() {
    let mut state = State::default();
    state.push_repo(name_of(b"a"));
    state.create_branch(name_of(b"x"));
    state.clear();
    assert!(state.repo().is_none());
    assert!(state.branch().is_none());
}

#[test]
fn push_branch_and_push_file_attach_to_their_owners() {
    let mut repo = pfs_fuzz::state::Repo { name: name_of(b"r"), branches: Vec::new() };
    repo.push_branch(name_of(b"b"));
    assert_eq!(repo.branches.len(), 1);
    assert!(name_eq(&repo.branches[0].repo_name, &name_of(b"r")));
    assert!(!repo.branches[0].open);

    let mut branch = repo.branches.pop().unwrap();
    branch.push_file(name_of(b"/f"));
    assert_eq!(branch.files.len(), 1);
    assert!(name_eq(&branch.files[0].repo_name, &name_of(b"r")));
    assert!(name_eq(&branch.files[0].branch_name, &name_of(b"b")));
    assert!(name_eq(&branch.files[0].name, &name_of(b"/f")));
}
