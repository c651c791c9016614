use pfs_fuzz::ops::decode;
use pfs_fuzz::ops::BlockState;
use pfs_fuzz::ops::DecodeError;
use pfs_fuzz::ops::Delimiter;
use pfs_fuzz::ops::Op;

#[test]
fn empty_input_is_insufficient() {
    assert_eq!(decode(&Vec::new()).err(), Some(DecodeError::InsufficientData));
}

#[test]
fn unknown_tag_is_incorrect_format() {
    assert_eq!(decode(&vec![23]).err(), Some(DecodeError::IncorrectFormat));
    assert_eq!(decode(&vec![255]).err(), Some(DecodeError::IncorrectFormat));
}

#[test]
fn create_repo_decodes_name_and_flag() {
    let ops = decode(&vec![0, 1, b'R', 0]).unwrap();
    assert_eq!(ops.len(), 1);
    match &ops[0] {
        Op::CreateRepo { name, update } => {
            assert_eq!(name.bytes, b"R".to_vec());
            assert!(!*update);
        },
        _ => panic!("wrong variant"),
    }
    let ops = decode(&vec![0, 1, b'R', 1]).unwrap();
    assert!(matches!(&ops[0], Op::CreateRepo { update: true, .. }));
}

#[test]
fn empty_name_is_insufficient() {
    assert_eq!(decode(&vec![0, 0]).err(), Some(DecodeError::InsufficientData));
}

#[test]
fn truncated_name_is_insufficient() {
    assert_eq!(decode(&vec![0, 2, b'R']).err(), Some(DecodeError::InsufficientData));
}

#[test]
fn parameterless_ops_decode() {
    let ops = decode(&vec![1, 2, 4, 5, 8, 9, 12, 14, 17, 19, 22]).unwrap();
    assert!(matches!(ops[0], Op::InspectRepo));
    assert!(matches!(ops[1], Op::ListRepo));
    assert!(matches!(ops[2], Op::StartCommit));
    assert!(matches!(ops[3], Op::FinishCommit));
    assert!(matches!(ops[4], Op::DeleteCommit));
    assert!(matches!(ops[5], Op::FlushCommit));
    assert!(matches!(ops[6], Op::InspectFile));
    assert!(matches!(ops[7], Op::WalkFile));
    assert!(matches!(ops[8], Op::DeleteFile));
    assert!(matches!(ops[9], Op::InspectBranch));
    assert!(matches!(ops[10], Op::DeleteAll));
}

#[test]
fn delete_repo_reads_two_flags() {
    let ops = decode(&vec![3, 1, 0]).unwrap();
    assert!(matches!(ops[0], Op::DeleteRepo { force: true, all: false }));
    let ops = decode(&vec![3, 0, 7]).unwrap();
    assert!(matches!(ops[0], Op::DeleteRepo { force: false, all: true }));
}

#[test]
fn inspect_commit_reads_block_state() {
    let ops = decode(&vec![6, 0]).unwrap();
    assert!(matches!(ops[0], Op::InspectCommit { block_state: BlockState::Started }));
    let ops = decode(&vec![6, 1]).unwrap();
    assert!(matches!(ops[0], Op::InspectCommit { block_state: BlockState::Ready }));
    let ops = decode(&vec![6, 2]).unwrap();
    assert!(matches!(ops[0], Op::InspectCommit { block_state: BlockState::Finished }));
    assert_eq!(decode(&vec![6, 3]).err(), Some(DecodeError::IncorrectFormat));
}

#[test]
fn list_commit_reads_number_and_flag() {
    let mut input = vec![7];
    input.extend_from_slice(&5u64.to_le_bytes());
    input.push(1);
    let ops = decode(&input).unwrap();
    assert!(matches!(ops[0], Op::ListCommit { number: 5, reverse: true }));
}

#[test]
fn put_file_reads_all_parameters() {
    let mut input = vec![10];
    input.extend_from_slice(&[5, b'/', b't', b'e', b's', b't']); // name
    input.extend_from_slice(&[1, b'0']); // bytes
    input.push(2); // delimiter: line
    input.extend_from_slice(&3i64.to_le_bytes());
    input.extend_from_slice(&(-1i64).to_le_bytes());
    input.extend_from_slice(&0i64.to_le_bytes());
    input.push(1); // overwrite index present
    input.extend_from_slice(&7i64.to_le_bytes());
    let ops = decode(&input).unwrap();
    match &ops[0] {
        Op::PutFile {
            path,
            bytes,
            delimiter,
            target_file_datums,
            target_file_bytes,
            header_records,
            overwrite_index,
        } => {
            assert_eq!(path.bytes, b"/test".to_vec());
            assert_eq!(bytes, &b"0".to_vec());
            assert_eq!(*delimiter, Delimiter::Line);
            assert_eq!(*target_file_datums, 3);
            assert_eq!(*target_file_bytes, -1);
            assert_eq!(*header_records, 0);
            assert_eq!(*overwrite_index, Some(7));
        },
        _ => panic!("wrong variant"),
    }
}

#[test]
fn put_file_without_overwrite_index() {
    let mut input = vec![10, 1, b'f', 0, 4];
    input.extend_from_slice(&0i64.to_le_bytes());
    input.extend_from_slice(&0i64.to_le_bytes());
    input.extend_from_slice(&0i64.to_le_bytes());
    input.push(0);
    let ops = decode(&input).unwrap();
    match &ops[0] {
        Op::PutFile { bytes, delimiter, overwrite_index, .. } => {
            assert!(bytes.is_empty());
            assert_eq!(*delimiter, Delimiter::Csv);
            assert_eq!(*overwrite_index, None);
        },
        _ => panic!("wrong variant"),
    }
}

#[test]
fn bad_delimiter_is_incorrect_format() {
    let input = vec![10, 1, b'f', 0, 5];
    assert_eq!(decode(&input).err(), Some(DecodeError::IncorrectFormat));
}

#[test]
fn get_file_reads_signed_words() {
    let mut input = vec![11];
    input.extend_from_slice(&(-1i64).to_le_bytes());
    input.extend_from_slice(&i64::MIN.to_le_bytes());
    let ops = decode(&input).unwrap();
    assert!(matches!(ops[0], Op::GetFile { offset_bytes: -1, size_bytes: i64::MIN }));
}

#[test]
fn glob_pattern_must_be_ascii() {
    let ops = decode(&vec![15, 2, b'/', b'*']).unwrap();
    match &ops[0] {
        Op::GlobFile { pattern } => assert_eq!(pattern, &b"/*".to_vec()),
        _ => panic!("wrong variant"),
    }
    assert_eq!(decode(&vec![15, 1, 0x80]).err(), Some(DecodeError::IncorrectFormat));
}

#[test]
fn create_branch_reads_name_and_flag() {
    let ops = decode(&vec![18, 1, b'm', 1]).unwrap();
    match &ops[0] {
        Op::CreateBranch { name, new } => {
            assert_eq!(name.bytes, b"m".to_vec());
            assert!(*new);
        },
        _ => panic!("wrong variant"),
    }
}

#[test]
fn several_ops_decode_in_order() {
    let ops = decode(&vec![0, 1, b'R', 0, 18, 1, b'm', 1, 4]).unwrap();
    assert_eq!(ops.len(), 3);
    assert!(matches!(ops[0], Op::CreateRepo { .. }));
    assert!(matches!(ops[1], Op::CreateBranch { .. }));
    assert!(matches!(ops[2], Op::StartCommit));
}

#[test]
fn trailing_truncation_rejects_the_whole_input() {
    assert_eq!(decode(&vec![4, 0, 1]).err(), Some(DecodeError::InsufficientData));
}
