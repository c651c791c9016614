//! The whole pipeline on raw bytes: decode, validate, plan, and the oracle's
//! expected read-back, on the concrete flows the harness is built around.

use pfs_fuzz::oracle;
use pfs_fuzz::oracle::OracleAction;
use pfs_fuzz::ops::decode;
use pfs_fuzz::plan::plan_run;
use pfs_fuzz::plan::Action;
use pfs_fuzz::validate::validate;

/// Raw bytes for: create repo `R`, create branch `m` fresh, start a commit,
/// put `/t` with bytes `0`, finish the commit.
fn write_sequence_bytes() -> Vec<u8> {
    let mut input = Vec::new();
    input.extend_from_slice(&[0, 1, b'R', 0]);
    input.extend_from_slice(&[18, 1, b'm', 1]);
    input.push(4);
    input.push(10);
    input.extend_from_slice(&[2, b'/', b't']);
    input.extend_from_slice(&[1, b'0']);
    input.push(0);
    input.extend_from_slice(&0i64.to_le_bytes());
    input.extend_from_slice(&0i64.to_le_bytes());
    input.extend_from_slice(&0i64.to_le_bytes());
    input.push(0);
    input.push(5);
    input
}

#[test]
fn raw_bytes_flow_through_decode_validate_and_plan() {
    let input = write_sequence_bytes();
    let ops = decode(&input).unwrap();
    assert_eq!(ops.len(), 5);
    assert!(validate(&ops));
    let actions = plan_run(&ops).unwrap();
    // bracketed by full wipes, with the consistency check before the final wipe
    assert_eq!(actions.len(), 10);
    assert!(matches!(actions[0], Action::DeleteAllPipelines));
    assert!(matches!(actions[1], Action::DeleteAll));
    match &actions[5] {
        Action::PutFile { value, .. } => assert_eq!(value, &b"0".to_vec()),
        other => panic!("unexpected action {other:?}"),
    }
    assert!(matches!(actions[7], Action::Fsck { fix: false }));
}

#[test]
fn a_decoded_sequence_with_an_impossible_step_never_plans() {
    // delete a branch before any branch exists: decodes, but is rejected whole
    let input = vec![0, 1, b'R', 0, 21, 0];
    let ops = decode(&input).unwrap();
    assert_eq!(ops.len(), 2);
    assert!(!validate(&ops));
    assert!(plan_run(&ops).is_none());
}

#[test]
fn one_write_reads_back_as_the_first_counter_value() {
    // one fresh write, extract with no exclusions, wipe, restore: the file is
    // expected to read back as the first counter value
    let input = vec![0, 1, 0, 0, 1, 1, 0];
    let opts = oracle::decode_oracle(&input).unwrap();
    assert!(!opts.deferred);
    assert_eq!(oracle::expected_content(&opts.ops), Some(b"0".to_vec()));
    let script = oracle::oracle_script(&opts);
    match &script[3] {
        OracleAction::PutTestFile { contents, flush } => {
            assert_eq!(contents, &b"0".to_vec());
            assert!(*flush);
        },
        other => panic!("unexpected step {other:?}"),
    }
    assert!(matches!(
        script[5],
        OracleAction::Extract { no_objects: false, no_repos: false, no_pipelines: false }
    ));
    assert!(script.iter().any(|s| matches!(s, OracleAction::ReadBackFile)));
    assert!(script.iter().any(|s| matches!(s, OracleAction::Fsck)));
}

#[test]
fn plan_case_runs_the_whole_front_half() {
    let input = write_sequence_bytes();
    let actions = pfs_fuzz::plan::plan_case(&input).unwrap();
    assert_eq!(actions.len(), 10);

    let garbage = vec![99];
    assert_eq!(
        pfs_fuzz::plan::plan_case(&garbage).err(),
        Some(pfs_fuzz::plan::CaseError::Decode(
            pfs_fuzz::ops::DecodeError::IncorrectFormat
        ))
    );

    let rejected = vec![0, 1, b'R', 0, 21, 0];
    assert_eq!(
        pfs_fuzz::plan::plan_case(&rejected).err(),
        Some(pfs_fuzz::plan::CaseError::Rejected)
    );
}

#[test]
fn oracle_case_runs_the_whole_front_half() {
    let input = vec![0, 1, 0, 0, 1, 1, 0];
    let steps = pfs_fuzz::oracle::oracle_case(&input).unwrap();
    assert_eq!(steps.len(), 14);
    assert!(pfs_fuzz::oracle::oracle_case(&vec![0, 0]).is_err());
}
