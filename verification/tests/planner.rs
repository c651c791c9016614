use pfs_fuzz::name::Name;
use pfs_fuzz::ops::Delimiter;
use pfs_fuzz::ops::Op;
use pfs_fuzz::plan::plan;
use pfs_fuzz::plan::plan_run;
use pfs_fuzz::plan::Action;
use pfs_fuzz::validate::validate;

fn name_of(bytes: &[u8]) -> Name {
    Name::new(bytes.to_vec()).unwrap()
}

fn scenario_ops() -> Vec<Op> {
    vec![
        Op::CreateRepo { name: name_of(b"R"), update: false },
        Op::CreateBranch { name: name_of(b"master"), new: true },
        Op::StartCommit,
        Op::PutFile {
            path: name_of(b"/test"),
            bytes: b"0".to_vec(),
            delimiter: Delimiter::NoDelimiter,
            target_file_datums: 0,
            target_file_bytes: 0,
            header_records: 0,
            overwrite_index: None,
        },
        Op::FinishCommit,
    ]
}

#[test]
fn scenario_plans_the_expected_calls() {
    let ops = scenario_ops();
    assert!(validate(&ops));
    let actions = plan(&ops).unwrap();
    assert_eq!(actions.len(), 5);
    match &actions[0] {
        Action::CreateRepo { repo, update } => {
            assert_eq!(repo, "Ug--");
            assert!(!*update);
        },
        _ => panic!("wrong action"),
    }
    match &actions[1] {
        Action::CreateBranch { repo, name, head } => {
            assert_eq!(repo, "Ug--");
            assert_eq!(name, "bWFzdGVy");
            assert!(head.is_none());
        },
        _ => panic!("wrong action"),
    }
    match &actions[2] {
        Action::StartCommit { repo, id } => {
            assert_eq!(repo, "Ug--");
            assert_eq!(id, "bWFzdGVy");
        },
        _ => panic!("wrong action"),
    }
    match &actions[3] {
        Action::PutFile { repo, id, path, value, overwrite_index, .. } => {
            assert_eq!(repo, "Ug--");
            assert_eq!(id, "bWFzdGVy");
            assert_eq!(path, "L3Rlc3Q-");
            assert_eq!(value, &b"0".to_vec());
            assert!(overwrite_index.is_none());
        },
        _ => panic!("wrong action"),
    }
    match &actions[4] {
        Action::FinishCommit { repo, id } => {
            assert_eq!(repo, "Ug--");
            assert_eq!(id, "bWFzdGVy");
        },
        _ => panic!("wrong action"),
    }
}

#[test]
fn a_run_is_bracketed_by_wipes_and_ends_with_a_consistency_check() {
    let ops = scenario_ops();
    let actions = plan_run(&ops).unwrap();
    assert_eq!(actions.len(), 5 + 5);
    assert!(matches!(actions[0], Action::DeleteAllPipelines));
    assert!(matches!(actions[1], Action::DeleteAll));
    assert!(matches!(actions[7], Action::Fsck { fix: false }));
    assert!(matches!(actions[8], Action::DeleteAllPipelines));
    assert!(matches!(actions[9], Action::DeleteAll));
}

#[test]
fn every_validated_sequence_plans_fully() {
    let candidates: Vec<Vec<Op>> = vec![
        scenario_ops(),
        vec![Op::ListRepo],
        vec![Op::CreateRepo { name: name_of(b"a"), update: false }, Op::InspectRepo, Op::ListBranch {
            reverse: true,
        }],
        vec![
            Op::CreateRepo { name: name_of(b"a"), update: false },
            Op::CreateBranch { name: name_of(b"b"), new: true },
            Op::InspectCommit { block_state: pfs_fuzz::ops::BlockState::Ready },
            Op::DeleteBranch { force: true },
        ],
    ];
    for ops in candidates {
        assert!(validate(&ops));
        let actions = plan(&ops).unwrap();
        assert_eq!(actions.len(), ops.len());
    }
}

#[test]
fn a_rejected_sequence_does_not_plan() {
    let ops = vec![Op::DeleteBranch { force: false }];
    assert!(!validate(&ops));
    assert!(plan(&ops).is_none());
    assert!(plan_run(&ops).is_none());
}

#[test]
fn deleting_the_top_repo_names_it() {
    let ops = vec![
        Op::CreateRepo { name: name_of(b"R"), update: false },
        Op::DeleteRepo { force: true, all: false },
    ];
    let actions = plan(&ops).unwrap();
    match &actions[1] {
        Action::DeleteRepo { repo, force, all } => {
            assert_eq!(repo.as_deref(), Some("Ug--"));
            assert!(*force);
            assert!(!*all);
        },
        _ => panic!("wrong action"),
    }
}

#[test]
fn operations_thread_names_through_the_stacks() {
    // Two repos: the branch goes to the most recent repo, the file to the
    // most recent branch, and deletions pop in stack order.
    let ops = vec![
        Op::CreateRepo { name: name_of(b"R"), update: false },
        Op::CreateRepo { name: name_of(b"S"), update: false },
        Op::CreateBranch { name: name_of(b"m"), new: true },
        Op::StartCommit,
        Op::PutFile {
            path: name_of(b"/f"),
            bytes: b"v".to_vec(),
            delimiter: Delimiter::Json,
            target_file_datums: 1,
            target_file_bytes: 2,
            header_records: 3,
            overwrite_index: Some(0),
        },
        Op::GetFile { offset_bytes: 0, size_bytes: 0 },
        Op::DeleteFile,
    ];
    assert!(validate(&ops));
    let actions = plan(&ops).unwrap();
    let s_ident = name_of(b"S").to_ident();
    let m_ident = name_of(b"m").to_ident();
    let f_ident = name_of(b"/f").to_ident();
    match &actions[2] {
        Action::CreateBranch { repo, name, head } => {
            assert_eq!(repo, &s_ident);
            assert_eq!(name, &m_ident);
            assert!(head.is_none());
        },
        _ => panic!("wrong action"),
    }
    match &actions[5] {
        Action::GetFile { repo, id, path, .. } => {
            assert_eq!(repo, &s_ident);
            assert_eq!(id, &m_ident);
            assert_eq!(path, &f_ident);
        },
        _ => panic!("wrong action"),
    }
    match &actions[6] {
        Action::DeleteFile { repo, id, path } => {
            assert_eq!(repo, &s_ident);
            assert_eq!(id, &m_ident);
            assert_eq!(path, &f_ident);
        },
        _ => panic!("wrong action"),
    }
}
