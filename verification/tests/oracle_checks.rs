use pfs_fuzz::classify::RpcCode;
use pfs_fuzz::oracle::decode_oracle;
use pfs_fuzz::oracle::expected_content;
use pfs_fuzz::oracle::input_head_id;
use pfs_fuzz::oracle::oracle_script;
use pfs_fuzz::oracle::restore_verdict;
use pfs_fuzz::oracle::sort_bytes_list;
use pfs_fuzz::oracle::to_decimal;
use pfs_fuzz::oracle::trace_of;
use pfs_fuzz::oracle::CommitMeta;
use pfs_fuzz::oracle::JobMeta;
use pfs_fuzz::oracle::OracleAction;
use pfs_fuzz::oracle::OracleOp;
use pfs_fuzz::oracle::OracleOptions;
use pfs_fuzz::oracle::Outro;
use pfs_fuzz::oracle::Snapshot;
use pfs_fuzz::ops::DecodeError;

fn put(corrupted: bool, flush: bool) -> OracleOp {
    OracleOp::PutFile { corrupted, flush }
}

#[test]
fn decimal_rendering_is_exact() {
    assert_eq!(to_decimal(0), b"0".to_vec());
    assert_eq!(to_decimal(7), b"7".to_vec());
    assert_eq!(to_decimal(10), b"10".to_vec());
    assert_eq!(to_decimal(12345), b"12345".to_vec());
    assert_eq!(to_decimal(u64::MAX), b"18446744073709551615".to_vec());
}

#[test]
fn the_trace_counts_fresh_writes() {
    let ops = vec![put(false, false), put(true, false), put(false, true)];
    let (counter, inserted, last_corrupted) = trace_of(&ops);
    assert_eq!(counter, 2);
    assert!(inserted);
    assert!(!last_corrupted);

    let (counter, inserted, last_corrupted) =
        trace_of(&vec![OracleOp::UpdatePipeline { stats: false, reprocess: false }]);
    assert_eq!(counter, 0);
    assert!(!inserted);
    assert!(!last_corrupted);
}

#[test]
fn expected_content_tracks_the_last_write() {
    let ops = vec![put(false, true), put(false, true)];
    assert_eq!(expected_content(&ops), Some(b"1".to_vec()));

    let ops = vec![put(false, false), put(true, false)];
    assert_eq!(expected_content(&ops), Some(b"corrupted".to_vec()));

    let ops = vec![OracleOp::UpdatePipeline { stats: true, reprocess: false }];
    assert_eq!(expected_content(&ops), None);

    let ops = vec![put(false, false)];
    assert_eq!(expected_content(&ops), Some(b"0".to_vec()));
}

#[test]
fn oracle_bytes_decode_into_a_case() {
    let input = vec![0, 2, 0, 0, 1, 0, 1, 0, 1, 1];
    let opts = decode_oracle(&input).unwrap();
    assert!(!opts.deferred);
    assert_eq!(opts.ops.len(), 2);
    assert!(matches!(opts.ops[0], OracleOp::PutFile { corrupted: false, flush: true }));
    assert!(matches!(opts.ops[1], OracleOp::PutFile { corrupted: true, flush: false }));
    assert!(matches!(opts.outro, Outro::ExtractRestore { no_objects: true }));
}

#[test]
fn oracle_decoding_rejects_bad_input() {
    assert_eq!(decode_oracle(&Vec::new()).err(), Some(DecodeError::InsufficientData));
    // no operations at all
    assert_eq!(decode_oracle(&vec![0, 0, 1, 1]).err(), Some(DecodeError::InsufficientData));
    // bad operation tag
    assert_eq!(decode_oracle(&vec![0, 1, 2, 0, 0, 1, 1]).err(), Some(DecodeError::IncorrectFormat));
    // trailing byte after the outro
    assert_eq!(
        decode_oracle(&vec![0, 1, 0, 0, 1, 1, 1, 9]).err(),
        Some(DecodeError::IncorrectFormat)
    );
    // truncated outro
    assert_eq!(decode_oracle(&vec![0, 1, 0, 0, 1, 0, 1]).err(), Some(DecodeError::InsufficientData));
}

#[test]
fn the_round_trip_script_matches_the_flags() {
    // Two flushed writes, extract without object data, wipe, restore: the
    // file is expected to read back as the second write.
    let opts = OracleOptions {
        deferred: false,
        ops: vec![put(false, true), put(false, true)],
        outro: Outro::ExtractRestore { no_objects: true },
    };
    assert_eq!(expected_content(&opts.ops), Some(b"1".to_vec()));
    let script = oracle_script(&opts);
    assert!(matches!(script[0], OracleAction::WipeAll));
    assert!(matches!(script[1], OracleAction::CreateInputRepo));
    assert!(matches!(
        script[2],
        OracleAction::CreatePipeline { update: false, base_transform: true, .. }
    ));
    match &script[3] {
        OracleAction::PutTestFile { contents, flush } => {
            assert_eq!(contents, &b"0".to_vec());
            assert!(*flush);
        },
        _ => panic!("wrong step"),
    }
    match &script[4] {
        OracleAction::PutTestFile { contents, flush } => {
            assert_eq!(contents, &b"1".to_vec());
            assert!(*flush);
        },
        _ => panic!("wrong step"),
    }
    assert!(matches!(script[5], OracleAction::SnapshotBefore));
    assert!(matches!(
        script[6],
        OracleAction::Extract { no_objects: true, no_repos: false, no_pipelines: false }
    ));
    assert!(matches!(script[7], OracleAction::WipeAll));
    // no garbage collection when object data was excluded
    assert!(matches!(script[8], OracleAction::Restore));
    assert!(matches!(script[9], OracleAction::Fsck));
    assert!(matches!(script[10], OracleAction::SnapshotAfter));
    assert!(matches!(script[11], OracleAction::CompareSnapshots));
    assert!(matches!(script[12], OracleAction::ReadBackFile));
    assert!(matches!(script[13], OracleAction::WipeAll));
    assert_eq!(script.len(), 14);
}

#[test]
fn garbage_collection_runs_when_objects_were_kept() {
    let opts = OracleOptions {
        deferred: false,
        ops: vec![put(true, false)],
        outro: Outro::ExtractRestore { no_objects: false },
    };
    let script = oracle_script(&opts);
    assert!(matches!(script[7], OracleAction::GarbageCollect { memory_bytes: 67108864 }));
}

#[test]
fn a_corrupted_last_write_is_scripted_and_expected() {
    let opts = OracleOptions {
        deferred: false,
        ops: vec![put(false, false), put(true, false)],
        outro: Outro::ExtractRestore { no_objects: true },
    };
    let script = oracle_script(&opts);
    match &script[4] {
        OracleAction::PutTestFile { contents, .. } => {
            assert_eq!(contents, &b"corrupted".to_vec())
        },
        _ => panic!("wrong step"),
    }
    assert_eq!(expected_content(&opts.ops), Some(b"corrupted".to_vec()));
}

#[test]
fn deferred_mode_binds_the_master_branch() {
    let opts = OracleOptions {
        deferred: true,
        ops: vec![put(false, false)],
        outro: Outro::Extract { no_objects: false, no_repos: true, no_pipelines: false },
    };
    let script = oracle_script(&opts);
    assert!(matches!(script[4], OracleAction::CreateMasterBranch));
    assert!(matches!(
        script[5],
        OracleAction::Extract { no_objects: false, no_repos: true, no_pipelines: false }
    ));
    assert_eq!(input_head_id(true), "staging");
    assert_eq!(input_head_id(false), "master");
}

#[test]
fn pipeline_updates_are_scripted_as_updates() {
    let opts = OracleOptions {
        deferred: false,
        ops: vec![OracleOp::UpdatePipeline { stats: true, reprocess: false }],
        outro: Outro::Extract { no_objects: true, no_repos: true, no_pipelines: true },
    };
    let script = oracle_script(&opts);
    assert!(matches!(
        script[3],
        OracleAction::CreatePipeline {
            update: true,
            stats: true,
            reprocess: false,
            base_transform: false,
        }
    ));
    // nothing was written, so nothing is read back
    assert!(!script.iter().any(|a| matches!(a, OracleAction::ReadBackFile)));
}

#[test]
fn sorting_byte_lists_orders_lexicographically() {
    let src = vec![b"b".to_vec(), b"aa".to_vec(), b"a".to_vec(), b"ab".to_vec(), b"a".to_vec()];
    let sorted = sort_bytes_list(&src);
    assert_eq!(
        sorted,
        vec![b"a".to_vec(), b"a".to_vec(), b"aa".to_vec(), b"ab".to_vec(), b"b".to_vec()]
    );
}

fn commit(id: &[u8], started: Option<u64>, provenance: Vec<Vec<u8>>) -> CommitMeta {
    CommitMeta {
        repo: b"fuzz_extract_restore_input".to_vec(),
        id: id.to_vec(),
        started,
        finished: started,
        size_bytes: 1,
        provenance,
    }
}

fn job(id: &[u8], state: u64, started: Option<u64>) -> JobMeta {
    JobMeta {
        id: id.to_vec(),
        pipeline: b"fuzz_extract_restore_output".to_vec(),
        state,
        started,
        finished: None,
    }
}

#[test]
fn the_verdict_masks_timestamps_and_provenance_order() {
    let before = Snapshot {
        input_commit: Ok(commit(b"master", Some(5), vec![b"x".to_vec(), b"y".to_vec()])),
        output_commit: Ok(commit(b"master", Some(6), Vec::new())),
        jobs: Ok(vec![job(b"j1", 3, Some(9))]),
    };
    let after = Snapshot {
        input_commit: Ok(commit(b"master", Some(50), vec![b"y".to_vec(), b"x".to_vec()])),
        output_commit: Ok(commit(b"master", None, Vec::new())),
        jobs: Ok(vec![job(b"j1", 3, None)]),
    };
    let expected = Some(b"1".to_vec());
    let read_back = Some(b"1".to_vec());
    assert!(restore_verdict(&before, &after, &expected, &read_back));
}

#[test]
fn the_verdict_rejects_changed_commit_metadata() {
    let before = Snapshot {
        input_commit: Ok(commit(b"master", None, Vec::new())),
        output_commit: Ok(commit(b"master", None, Vec::new())),
        jobs: Ok(Vec::new()),
    };
    let after = Snapshot {
        input_commit: Ok(commit(b"other", None, Vec::new())),
        output_commit: Ok(commit(b"master", None, Vec::new())),
        jobs: Ok(Vec::new()),
    };
    assert!(!restore_verdict(&before, &after, &None, &None));
}

#[test]
fn the_verdict_rejects_changed_job_history() {
    let before = Snapshot {
        input_commit: Err(RpcCode::NotFound),
        output_commit: Err(RpcCode::NotFound),
        jobs: Ok(vec![job(b"j1", 3, None)]),
    };
    let after = Snapshot {
        input_commit: Err(RpcCode::NotFound),
        output_commit: Err(RpcCode::NotFound),
        jobs: Ok(vec![job(b"j1", 4, None)]),
    };
    assert!(!restore_verdict(&before, &after, &None, &None));
}

#[test]
fn matching_error_codes_agree_and_differing_ones_do_not() {
    let before = Snapshot {
        input_commit: Err(RpcCode::NotFound),
        output_commit: Err(RpcCode::NotFound),
        jobs: Err(RpcCode::Unavailable),
    };
    let after_same = Snapshot {
        input_commit: Err(RpcCode::NotFound),
        output_commit: Err(RpcCode::NotFound),
        jobs: Err(RpcCode::Unavailable),
    };
    assert!(restore_verdict(&before, &after_same, &None, &None));
    let after_other = Snapshot {
        input_commit: Err(RpcCode::Internal),
        output_commit: Err(RpcCode::NotFound),
        jobs: Err(RpcCode::Unavailable),
    };
    assert!(!restore_verdict(&before, &after_other, &None, &None));
}

#[test]
fn the_verdict_demands_the_expected_file_bytes() {
    let snap = || Snapshot {
        input_commit: Ok(commit(b"master", None, Vec::new())),
        output_commit: Ok(commit(b"master", None, Vec::new())),
        jobs: Ok(Vec::new()),
    };
    let expected = Some(b"1".to_vec());
    assert!(!restore_verdict(&snap(), &snap(), &expected, &None));
    assert!(!restore_verdict(&snap(), &snap(), &expected, &Some(b"corrupted".to_vec())));
    assert!(restore_verdict(&snap(), &snap(), &expected, &Some(b"1".to_vec())));
    // nothing was written: the read back is not consulted
    assert!(restore_verdict(&snap(), &snap(), &None, &None));
}
