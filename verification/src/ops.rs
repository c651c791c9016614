//! The operation catalog and the decoder from raw fuzz bytes to operations.
//!
//! An operation sequence is decoded from an unstructured byte string by a
//! fixed grammar: the bytes are consumed front to back, each operation being
//! one tag byte followed by its parameters. Names and byte blobs are length
//! prefixed (one byte), multi-byte integers are little endian, and a boolean
//! is any byte (zero meaning false). Decoding the whole input either yields
//! the full operation list or rejects the input: an input that ends too early
//! is rejected as insufficient data, and one whose next byte fits no rule of
//! the grammar as incorrect format. Decoding is a pure function of the input
//! bytes; it builds the candidate list only, and judges nothing about whether
//! the operations can run — that is the sequence validator's task.

use vstd::bytes::spec_u64_from_le_bytes;
use vstd::bytes::u64_from_le_bytes;
use vstd::prelude::*;
use vstd::slice::slice_subrange;
use vstd::slice::slice_to_vec;

use crate::name::Name;

verus! {

/// Why a byte string was rejected before any operation was modeled.
#[derive(Clone, Copy, Debug, PartialEq, Eq, Structural)]
pub enum DecodeError {
    /// The input ended before the grammar was satisfied, or a required name
    /// was empty.
    InsufficientData,
    /// A byte fit no rule of the grammar.
    IncorrectFormat,
}

/// How a file's contents are split into records on the remote side.
#[derive(Clone, Copy, Debug, PartialEq, Eq, Structural)]
pub enum Delimiter {
    /// No record splitting.
    NoDelimiter,
    Json,
    Line,
    Sql,
    Csv,
}

/// The commit state a blocking inspection waits for.
#[derive(Clone, Copy, Debug, PartialEq, Eq, Structural)]
pub enum BlockState {
    Started,
    Ready,
    Finished,
}

/// One operation to run against the remote service. The set is closed: each
/// variant carries exactly the parameters needed to build one remote call.
pub enum Op {
    CreateRepo { name: Name, update: bool },
    InspectRepo,
    ListRepo,
    DeleteRepo { force: bool, all: bool },
    StartCommit,
    FinishCommit,
    InspectCommit { block_state: BlockState },
    ListCommit { number: u64, reverse: bool },
    DeleteCommit,
    FlushCommit,
    PutFile {
        path: Name,
        bytes: Vec<u8>,
        delimiter: Delimiter,
        target_file_datums: i64,
        target_file_bytes: i64,
        header_records: i64,
        overwrite_index: Option<i64>,
    },
    GetFile { offset_bytes: i64, size_bytes: i64 },
    InspectFile,
    ListFile { full: bool, history: i64 },
    WalkFile,
    GlobFile { pattern: Vec<u8> },
    DiffFile { shallow: bool },
    DeleteFile,
    CreateBranch { name: Name, new: bool },
    InspectBranch,
    ListBranch { reverse: bool },
    DeleteBranch { force: bool },
    DeleteAll,
}

/// The mathematical model of an operation, with names and blobs as byte
/// sequences.
pub ghost enum OpV {
    CreateRepo { name: Seq<u8>, update: bool },
    InspectRepo,
    ListRepo,
    DeleteRepo { force: bool, all: bool },
    StartCommit,
    FinishCommit,
    InspectCommit { block_state: BlockState },
    ListCommit { number: u64, reverse: bool },
    DeleteCommit,
    FlushCommit,
    PutFile {
        path: Seq<u8>,
        bytes: Seq<u8>,
        delimiter: Delimiter,
        target_file_datums: i64,
        target_file_bytes: i64,
        header_records: i64,
        overwrite_index: Option<i64>,
    },
    GetFile { offset_bytes: i64, size_bytes: i64 },
    InspectFile,
    ListFile { full: bool, history: i64 },
    WalkFile,
    GlobFile { pattern: Seq<u8> },
    DiffFile { shallow: bool },
    DeleteFile,
    CreateBranch { name: Seq<u8>, new: bool },
    InspectBranch,
    ListBranch { reverse: bool },
    DeleteBranch { force: bool },
    DeleteAll,
}

impl View for Op {
    type V = OpV;

    open spec fn view(&self) -> OpV {
        match self {
            Op::CreateRepo { name, update } => OpV::CreateRepo { name: name@, update: *update },
            Op::InspectRepo => OpV::InspectRepo,
            Op::ListRepo => OpV::ListRepo,
            Op::DeleteRepo { force, all } => OpV::DeleteRepo { force: *force, all: *all },
            Op::StartCommit => OpV::StartCommit,
            Op::FinishCommit => OpV::FinishCommit,
            Op::InspectCommit { block_state } => OpV::InspectCommit { block_state: *block_state },
            Op::ListCommit { number, reverse } => OpV::ListCommit {
                number: *number,
                reverse: *reverse,
            },
            Op::DeleteCommit => OpV::DeleteCommit,
            Op::FlushCommit => OpV::FlushCommit,
            Op::PutFile {
                path,
                bytes,
                delimiter,
                target_file_datums,
                target_file_bytes,
                header_records,
                overwrite_index,
            } => OpV::PutFile {
                path: path@,
                bytes: bytes@,
                delimiter: *delimiter,
                target_file_datums: *target_file_datums,
                target_file_bytes: *target_file_bytes,
                header_records: *header_records,
                overwrite_index: *overwrite_index,
            },
            Op::GetFile { offset_bytes, size_bytes } => OpV::GetFile {
                offset_bytes: *offset_bytes,
                size_bytes: *size_bytes,
            },
            Op::InspectFile => OpV::InspectFile,
            Op::ListFile { full, history } => OpV::ListFile { full: *full, history: *history },
            Op::WalkFile => OpV::WalkFile,
            Op::GlobFile { pattern } => OpV::GlobFile { pattern: pattern@ },
            Op::DiffFile { shallow } => OpV::DiffFile { shallow: *shallow },
            Op::DeleteFile => OpV::DeleteFile,
            Op::CreateBranch { name, new } => OpV::CreateBranch { name: name@, new: *new },
            Op::InspectBranch => OpV::InspectBranch,
            Op::ListBranch { reverse } => OpV::ListBranch { reverse: *reverse },
            Op::DeleteBranch { force } => OpV::DeleteBranch { force: *force },
            Op::DeleteAll => OpV::DeleteAll,
        }
    }
}

/// The view of a decoded operation list.
pub open spec fn ops_view(ops: Seq<Op>) -> Seq<OpV> {
    ops.map_values(|o: Op| o@)
}

/// Whether every name an operation carries is well formed.
pub open spec fn op_names_wf(op: OpV) -> bool {
    match op {
        OpV::CreateRepo { name, .. } => crate::name::name_wf(name),
        OpV::PutFile { path, .. } => crate::name::name_wf(path),
        OpV::CreateBranch { name, .. } => crate::name::name_wf(name),
        _ => true,
    }
}

/// Whether every name in an operation list is well formed.
pub open spec fn ops_names_wf(ops: Seq<OpV>) -> bool {
    forall|i: int| 0 <= i < ops.len() ==> op_names_wf(#[trigger] ops[i])
}

/// The signed reading of a 64-bit little-endian word (two's complement).
pub open spec fn s_i64_of(u: u64) -> i64 {
    if u <= i64::MAX as u64 {
        u as i64
    } else {
        ((u as int) - 0x1_0000_0000_0000_0000) as i64
    }
}

/// Reads one byte.
pub open spec fn s_read_byte(b: Seq<u8>) -> Result<(u8, Seq<u8>), DecodeError> {
    if b.len() >= 1 {
        Ok((b[0], b.skip(1)))
    } else {
        Err(DecodeError::InsufficientData)
    }
}

/// Reads one boolean: any non-zero byte is true.
pub open spec fn s_read_bool(b: Seq<u8>) -> Result<(bool, Seq<u8>), DecodeError> {
    match s_read_byte(b) {
        Ok((x, r)) => Ok((x != 0, r)),
        Err(e) => Err(e),
    }
}

/// Reads a little-endian unsigned 64-bit word.
pub open spec fn s_read_u64(b: Seq<u8>) -> Result<(u64, Seq<u8>), DecodeError> {
    if b.len() >= 8 {
        Ok((spec_u64_from_le_bytes(b.subrange(0, 8)), b.skip(8)))
    } else {
        Err(DecodeError::InsufficientData)
    }
}

/// Reads a little-endian signed 64-bit word.
pub open spec fn s_read_i64(b: Seq<u8>) -> Result<(i64, Seq<u8>), DecodeError> {
    match s_read_u64(b) {
        Ok((u, r)) => Ok((s_i64_of(u), r)),
        Err(e) => Err(e),
    }
}

/// Reads a length-prefixed name; the empty name is rejected as insufficient
/// data, as the naming rules demand at least one byte.
pub open spec fn s_read_name(b: Seq<u8>) -> Result<(Seq<u8>, Seq<u8>), DecodeError> {
    match s_read_byte(b) {
        Err(e) => Err(e),
        Ok((l, r)) => {
            if l == 0 {
                Err(DecodeError::InsufficientData)
            } else if r.len() >= l {
                Ok((r.subrange(0, l as int), r.skip(l as int)))
            } else {
                Err(DecodeError::InsufficientData)
            }
        },
    }
}

/// Reads a length-prefixed blob; the empty blob is allowed.
pub open spec fn s_read_blob(b: Seq<u8>) -> Result<(Seq<u8>, Seq<u8>), DecodeError> {
    match s_read_byte(b) {
        Err(e) => Err(e),
        Ok((l, r)) => {
            if r.len() >= l {
                Ok((r.subrange(0, l as int), r.skip(l as int)))
            } else {
                Err(DecodeError::InsufficientData)
            }
        },
    }
}

/// Reads a length-prefixed glob pattern, which must be plain ASCII.
pub open spec fn s_read_pattern(b: Seq<u8>) -> Result<(Seq<u8>, Seq<u8>), DecodeError> {
    match s_read_blob(b) {
        Err(e) => Err(e),
        Ok((data, r)) => {
            if forall|i: int| 0 <= i < data.len() ==> data[i] < 128 {
                Ok((data, r))
            } else {
                Err(DecodeError::IncorrectFormat)
            }
        },
    }
}

/// Reads a delimiter tag.
pub open spec fn s_read_delimiter(b: Seq<u8>) -> Result<(Delimiter, Seq<u8>), DecodeError> {
    match s_read_byte(b) {
        Err(e) => Err(e),
        Ok((x, r)) => {
            if x == 0 {
                Ok((Delimiter::NoDelimiter, r))
            } else if x == 1 {
                Ok((Delimiter::Json, r))
            } else if x == 2 {
                Ok((Delimiter::Line, r))
            } else if x == 3 {
                Ok((Delimiter::Sql, r))
            } else if x == 4 {
                Ok((Delimiter::Csv, r))
            } else {
                Err(DecodeError::IncorrectFormat)
            }
        },
    }
}

/// Reads a block-state tag.
pub open spec fn s_read_block_state(b: Seq<u8>) -> Result<(BlockState, Seq<u8>), DecodeError> {
    match s_read_byte(b) {
        Err(e) => Err(e),
        Ok((x, r)) => {
            if x == 0 {
                Ok((BlockState::Started, r))
            } else if x == 1 {
                Ok((BlockState::Ready, r))
            } else if x == 2 {
                Ok((BlockState::Finished, r))
            } else {
                Err(DecodeError::IncorrectFormat)
            }
        },
    }
}

/// Reads an optional signed word: a zero flag byte means absent.
pub open spec fn s_read_opt_i64(b: Seq<u8>) -> Result<(Option<i64>, Seq<u8>), DecodeError> {
    match s_read_byte(b) {
        Err(e) => Err(e),
        Ok((flag, r)) => {
            if flag == 0 {
                Ok((None, r))
            } else {
                match s_read_i64(r) {
                    Ok((v, r2)) => Ok((Some(v), r2)),
                    Err(e) => Err(e),
                }
            }
        },
    }
}

/// Decodes the parameters of a create-repo operation.
pub open spec fn s_op_create_repo(r: Seq<u8>) -> Result<(OpV, Seq<u8>), DecodeError> {
    match s_read_name(r) {
        Err(e) => Err(e),
        Ok((name, r2)) => match s_read_bool(r2) {
            Err(e) => Err(e),
            Ok((update, r3)) => Ok((OpV::CreateRepo { name, update }, r3)),
        },
    }
}

/// Decodes the parameters of a delete-repo operation.
pub open spec fn s_op_delete_repo(r: Seq<u8>) -> Result<(OpV, Seq<u8>), DecodeError> {
    match s_read_bool(r) {
        Err(e) => Err(e),
        Ok((force, r2)) => match s_read_bool(r2) {
            Err(e) => Err(e),
            Ok((all, r3)) => Ok((OpV::DeleteRepo { force, all }, r3)),
        },
    }
}

/// Decodes the parameters of a blocking commit inspection.
pub open spec fn s_op_inspect_commit(r: Seq<u8>) -> Result<(OpV, Seq<u8>), DecodeError> {
    match s_read_block_state(r) {
        Err(e) => Err(e),
        Ok((block_state, r2)) => Ok((OpV::InspectCommit { block_state }, r2)),
    }
}

/// Decodes the parameters of a commit listing.
pub open spec fn s_op_list_commit(r: Seq<u8>) -> Result<(OpV, Seq<u8>), DecodeError> {
    match s_read_u64(r) {
        Err(e) => Err(e),
        Ok((number, r2)) => match s_read_bool(r2) {
            Err(e) => Err(e),
            Ok((reverse, r3)) => Ok((OpV::ListCommit { number, reverse }, r3)),
        },
    }
}

/// Decodes the parameters of a file write.
pub open spec fn s_op_put_file(r: Seq<u8>) -> Result<(OpV, Seq<u8>), DecodeError> {
    match s_read_name(r) {
        Err(e) => Err(e),
        Ok((path, r2)) => match s_read_blob(r2) {
            Err(e) => Err(e),
            Ok((bytes, r3)) => match s_read_delimiter(r3) {
                Err(e) => Err(e),
                Ok((delimiter, r4)) => match s_read_i64(r4) {
                    Err(e) => Err(e),
                    Ok((target_file_datums, r5)) => match s_read_i64(r5) {
                        Err(e) => Err(e),
                        Ok((target_file_bytes, r6)) => match s_read_i64(r6) {
                            Err(e) => Err(e),
                            Ok((header_records, r7)) => match s_read_opt_i64(r7) {
                                Err(e) => Err(e),
                                Ok((overwrite_index, r8)) => Ok(
                                    (
                                        OpV::PutFile {
                                            path,
                                            bytes,
                                            delimiter,
                                            target_file_datums,
                                            target_file_bytes,
                                            header_records,
                                            overwrite_index,
                                        },
                                        r8,
                                    ),
                                ),
                            },
                        },
                    },
                },
            },
        },
    }
}

/// Decodes the parameters of a file read.
pub open spec fn s_op_get_file(r: Seq<u8>) -> Result<(OpV, Seq<u8>), DecodeError> {
    match s_read_i64(r) {
        Err(e) => Err(e),
        Ok((offset_bytes, r2)) => match s_read_i64(r2) {
            Err(e) => Err(e),
            Ok((size_bytes, r3)) => Ok((OpV::GetFile { offset_bytes, size_bytes }, r3)),
        },
    }
}

/// Decodes the parameters of a file listing.
pub open spec fn s_op_list_file(r: Seq<u8>) -> Result<(OpV, Seq<u8>), DecodeError> {
    match s_read_bool(r) {
        Err(e) => Err(e),
        Ok((full, r2)) => match s_read_i64(r2) {
            Err(e) => Err(e),
            Ok((history, r3)) => Ok((OpV::ListFile { full, history }, r3)),
        },
    }
}

/// Decodes the parameters of a glob query.
pub open spec fn s_op_glob_file(r: Seq<u8>) -> Result<(OpV, Seq<u8>), DecodeError> {
    match s_read_pattern(r) {
        Err(e) => Err(e),
        Ok((pattern, r2)) => Ok((OpV::GlobFile { pattern }, r2)),
    }
}

/// Decodes the parameters of a file diff.
pub open spec fn s_op_diff_file(r: Seq<u8>) -> Result<(OpV, Seq<u8>), DecodeError> {
    match s_read_bool(r) {
        Err(e) => Err(e),
        Ok((shallow, r2)) => Ok((OpV::DiffFile { shallow }, r2)),
    }
}

/// Decodes the parameters of a branch creation.
pub open spec fn s_op_create_branch(r: Seq<u8>) -> Result<(OpV, Seq<u8>), DecodeError> {
    match s_read_name(r) {
        Err(e) => Err(e),
        Ok((name, r2)) => match s_read_bool(r2) {
            Err(e) => Err(e),
            Ok((new, r3)) => Ok((OpV::CreateBranch { name, new }, r3)),
        },
    }
}

/// Decodes the parameters of a branch listing.
pub open spec fn s_op_list_branch(r: Seq<u8>) -> Result<(OpV, Seq<u8>), DecodeError> {
    match s_read_bool(r) {
        Err(e) => Err(e),
        Ok((reverse, r2)) => Ok((OpV::ListBranch { reverse }, r2)),
    }
}

/// Decodes the parameters of a branch deletion.
pub open spec fn s_op_delete_branch(r: Seq<u8>) -> Result<(OpV, Seq<u8>), DecodeError> {
    match s_read_bool(r) {
        Err(e) => Err(e),
        Ok((force, r2)) => Ok((OpV::DeleteBranch { force }, r2)),
    }
}

/// Decodes one operation from the front of the remaining input: a tag byte
/// followed by the tagged variant's parameters.
pub open spec fn s_decode_op(b: Seq<u8>) -> Result<(OpV, Seq<u8>), DecodeError> {
    match s_read_byte(b) {
        Err(e) => Err(e),
        Ok((tag, r)) => {
            if tag == 0 {
                s_op_create_repo(r)
            } else if tag == 1 {
                Ok((OpV::InspectRepo, r))
            } else if tag == 2 {
                Ok((OpV::ListRepo, r))
            } else if tag == 3 {
                s_op_delete_repo(r)
            } else if tag == 4 {
                Ok((OpV::StartCommit, r))
            } else if tag == 5 {
                Ok((OpV::FinishCommit, r))
            } else if tag == 6 {
                s_op_inspect_commit(r)
            } else if tag == 7 {
                s_op_list_commit(r)
            } else if tag == 8 {
                Ok((OpV::DeleteCommit, r))
            } else if tag == 9 {
                Ok((OpV::FlushCommit, r))
            } else if tag == 10 {
                s_op_put_file(r)
            } else if tag == 11 {
                s_op_get_file(r)
            } else if tag == 12 {
                Ok((OpV::InspectFile, r))
            } else if tag == 13 {
                s_op_list_file(r)
            } else if tag == 14 {
                Ok((OpV::WalkFile, r))
            } else if tag == 15 {
                s_op_glob_file(r)
            } else if tag == 16 {
                s_op_diff_file(r)
            } else if tag == 17 {
                Ok((OpV::DeleteFile, r))
            } else if tag == 18 {
                s_op_create_branch(r)
            } else if tag == 19 {
                Ok((OpV::InspectBranch, r))
            } else if tag == 20 {
                s_op_list_branch(r)
            } else if tag == 21 {
                s_op_delete_branch(r)
            } else if tag == 22 {
                Ok((OpV::DeleteAll, r))
            } else {
                Err(DecodeError::IncorrectFormat)
            }
        },
    }
}

/// Every reader yields a suffix no longer than its input, so decoding one
/// operation's parameters never grows the remainder.
pub proof fn lemma_op_params_consume(r: Seq<u8>)
    ensures
        s_op_create_repo(r) matches Ok((_, rest)) ==> rest.len() <= r.len(),
        s_op_delete_repo(r) matches Ok((_, rest)) ==> rest.len() <= r.len(),
        s_op_inspect_commit(r) matches Ok((_, rest)) ==> rest.len() <= r.len(),
        s_op_list_commit(r) matches Ok((_, rest)) ==> rest.len() <= r.len(),
        s_op_get_file(r) matches Ok((_, rest)) ==> rest.len() <= r.len(),
        s_op_list_file(r) matches Ok((_, rest)) ==> rest.len() <= r.len(),
        s_op_glob_file(r) matches Ok((_, rest)) ==> rest.len() <= r.len(),
        s_op_diff_file(r) matches Ok((_, rest)) ==> rest.len() <= r.len(),
        s_op_create_branch(r) matches Ok((_, rest)) ==> rest.len() <= r.len(),
        s_op_list_branch(r) matches Ok((_, rest)) ==> rest.len() <= r.len(),
        s_op_delete_branch(r) matches Ok((_, rest)) ==> rest.len() <= r.len(),
{
}

/// The file-write parameters, the longest chain, also never grow the
/// remainder.
pub proof fn lemma_op_put_file_consumes(r: Seq<u8>)
    ensures
        s_op_put_file(r) matches Ok((_, rest)) ==> rest.len() <= r.len(),
{
}

/// Decoding one operation always consumes at least the tag byte.
pub proof fn lemma_decode_op_consumes(b: Seq<u8>)
    ensures
        s_decode_op(b) matches Ok((op, rest)) ==> rest.len() < b.len(),
{
    if b.len() >= 1 {
        let r = b.skip(1);
        lemma_op_params_consume(r);
        lemma_op_put_file_consumes(r);
    }
}

pub(crate) fn read_byte(input: &Vec<u8>, pos: usize) -> (r: Result<(u8, usize), DecodeError>)
    requires
        pos <= input@.len(),
    ensures
        match r {
            Ok((b, p2)) => s_read_byte(input@.skip(pos as int)) == Ok::<_, DecodeError>(
                (b, input@.skip(p2 as int)),
            ) && p2 == pos + 1,
            Err(e) => s_read_byte(input@.skip(pos as int)) == Err::<(u8, Seq<u8>), _>(e),
        },
{
    if pos >= input.len() {
        return Err(DecodeError::InsufficientData);
    }
    let b = input[pos];
    proof {
        assert(input@.skip(pos as int)[0] == b);
        assert(input@.skip(pos as int).skip(1) =~= input@.skip(pos as int + 1));
    }
    Ok((b, pos + 1))
}

pub(crate) fn read_bool(input: &Vec<u8>, pos: usize) -> (r: Result<(bool, usize), DecodeError>)
    requires
        pos <= input@.len(),
    ensures
        match r {
            Ok((b, p2)) => s_read_bool(input@.skip(pos as int)) == Ok::<_, DecodeError>(
                (b, input@.skip(p2 as int)),
            ) && pos < p2 <= input@.len(),
            Err(e) => s_read_bool(input@.skip(pos as int)) == Err::<(bool, Seq<u8>), _>(e),
        },
{
    match read_byte(input, pos) {
        Ok((b, p2)) => Ok((b != 0, p2)),
        Err(e) => Err(e),
    }
}

fn read_u64(input: &Vec<u8>, pos: usize) -> (r: Result<(u64, usize), DecodeError>)
    requires
        pos <= input@.len(),
    ensures
        match r {
            Ok((v, p2)) => s_read_u64(input@.skip(pos as int)) == Ok::<_, DecodeError>(
                (v, input@.skip(p2 as int)),
            ) && pos < p2 <= input@.len(),
            Err(e) => s_read_u64(input@.skip(pos as int)) == Err::<(u64, Seq<u8>), _>(e),
        },
{
    if input.len() - pos < 8 {
        return Err(DecodeError::InsufficientData);
    }
    let v = u64_from_le_bytes(slice_subrange(input.as_slice(), pos, pos + 8));
    proof {
        assert(input@.subrange(pos as int, pos as int + 8) =~= input@.skip(pos as int).subrange(
            0,
            8,
        ));
        assert(input@.skip(pos as int).skip(8) =~= input@.skip(pos as int + 8));
    }
    Ok((v, pos + 8))
}

fn i64_of(u: u64) -> (r: i64)
    ensures
        r == s_i64_of(u),
{
    if u <= i64::MAX as u64 {
        u as i64
    } else {
        let m = u - (i64::MAX as u64) - 1;
        (m as i64) + i64::MIN
    }
}

fn read_i64(input: &Vec<u8>, pos: usize) -> (r: Result<(i64, usize), DecodeError>)
    requires
        pos <= input@.len(),
    ensures
        match r {
            Ok((v, p2)) => s_read_i64(input@.skip(pos as int)) == Ok::<_, DecodeError>(
                (v, input@.skip(p2 as int)),
            ) && pos < p2 <= input@.len(),
            Err(e) => s_read_i64(input@.skip(pos as int)) == Err::<(i64, Seq<u8>), _>(e),
        },
{
    match read_u64(input, pos) {
        Ok((u, p2)) => Ok((i64_of(u), p2)),
        Err(e) => Err(e),
    }
}

fn read_name(input: &Vec<u8>, pos: usize) -> (r: Result<(Name, usize), DecodeError>)
    requires
        pos <= input@.len(),
    ensures
        match r {
            Ok((n, p2)) => s_read_name(input@.skip(pos as int)) == Ok::<_, DecodeError>(
                (n@, input@.skip(p2 as int)),
            ) && pos < p2 <= input@.len() && n.wf(),
            Err(e) => s_read_name(input@.skip(pos as int)) == Err::<(Seq<u8>, Seq<u8>), _>(e),
        },
{
    let (l, p1) = match read_byte(input, pos) {
        Ok(x) => x,
        Err(e) => {
            return Err(e);
        },
    };
    if l == 0 {
        return Err(DecodeError::InsufficientData);
    }
    let l_us = l as usize;
    if input.len() - p1 < l_us {
        return Err(DecodeError::InsufficientData);
    }
    let bytes = slice_to_vec(slice_subrange(input.as_slice(), p1, p1 + l_us));
    proof {
        assert(bytes@ =~= input@.skip(p1 as int).subrange(0, l as int));
        assert(input@.skip(p1 as int).skip(l as int) =~= input@.skip(p1 as int + l as int));
    }
    Ok((Name { bytes }, p1 + l_us))
}

fn read_blob(input: &Vec<u8>, pos: usize) -> (r: Result<(Vec<u8>, usize), DecodeError>)
    requires
        pos <= input@.len(),
    ensures
        match r {
            Ok((b, p2)) => s_read_blob(input@.skip(pos as int)) == Ok::<_, DecodeError>(
                (b@, input@.skip(p2 as int)),
            ) && pos < p2 <= input@.len(),
            Err(e) => s_read_blob(input@.skip(pos as int)) == Err::<(Seq<u8>, Seq<u8>), _>(e),
        },
{
    let (l, p1) = match read_byte(input, pos) {
        Ok(x) => x,
        Err(e) => {
            return Err(e);
        },
    };
    let l_us = l as usize;
    if input.len() - p1 < l_us {
        return Err(DecodeError::InsufficientData);
    }
    let bytes = slice_to_vec(slice_subrange(input.as_slice(), p1, p1 + l_us));
    proof {
        assert(bytes@ =~= input@.skip(p1 as int).subrange(0, l as int));
        assert(input@.skip(p1 as int).skip(l as int) =~= input@.skip(p1 as int + l as int));
    }
    Ok((bytes, p1 + l_us))
}

fn read_pattern(input: &Vec<u8>, pos: usize) -> (r: Result<(Vec<u8>, usize), DecodeError>)
    requires
        pos <= input@.len(),
    ensures
        match r {
            Ok((b, p2)) => s_read_pattern(input@.skip(pos as int)) == Ok::<_, DecodeError>(
                (b@, input@.skip(p2 as int)),
            ) && pos < p2 <= input@.len(),
            Err(e) => s_read_pattern(input@.skip(pos as int)) == Err::<(Seq<u8>, Seq<u8>), _>(e),
        },
{
    let (data, p2) = match read_blob(input, pos) {
        Ok(x) => x,
        Err(e) => {
            return Err(e);
        },
    };
    let mut i: usize = 0;
    while i < data.len()
        invariant
            i <= data@.len(),
            pos < p2 <= input@.len(),
            s_read_blob(input@.skip(pos as int)) == Ok::<_, DecodeError>(
                (data@, input@.skip(p2 as int)),
            ),
            forall|k: int| 0 <= k < i ==> data@[k] < 128,
        decreases data@.len() - i,
    {
        if data[i] >= 128 {
            proof {
                assert(data@[i as int] >= 128);
                assert(!(forall|k: int| 0 <= k < data@.len() ==> data@[k] < 128));
            }
            return Err(DecodeError::IncorrectFormat);
        }
        i = i + 1;
    }
    Ok((data, p2))
}

fn read_delimiter(input: &Vec<u8>, pos: usize) -> (r: Result<(Delimiter, usize), DecodeError>)
    requires
        pos <= input@.len(),
    ensures
        match r {
            Ok((d, p2)) => s_read_delimiter(input@.skip(pos as int)) == Ok::<_, DecodeError>(
                (d, input@.skip(p2 as int)),
            ) && pos < p2 <= input@.len(),
            Err(e) => s_read_delimiter(input@.skip(pos as int)) == Err::<
                (Delimiter, Seq<u8>),
                _,
            >(e),
        },
{
    let (x, p2) = match read_byte(input, pos) {
        Ok(v) => v,
        Err(e) => {
            return Err(e);
        },
    };
    if x == 0 {
        Ok((Delimiter::NoDelimiter, p2))
    } else if x == 1 {
        Ok((Delimiter::Json, p2))
    } else if x == 2 {
        Ok((Delimiter::Line, p2))
    } else if x == 3 {
        Ok((Delimiter::Sql, p2))
    } else if x == 4 {
        Ok((Delimiter::Csv, p2))
    } else {
        Err(DecodeError::IncorrectFormat)
    }
}

fn read_block_state(input: &Vec<u8>, pos: usize) -> (r: Result<(BlockState, usize), DecodeError>)
    requires
        pos <= input@.len(),
    ensures
        match r {
            Ok((d, p2)) => s_read_block_state(input@.skip(pos as int)) == Ok::<_, DecodeError>(
                (d, input@.skip(p2 as int)),
            ) && pos < p2 <= input@.len(),
            Err(e) => s_read_block_state(input@.skip(pos as int)) == Err::<
                (BlockState, Seq<u8>),
                _,
            >(e),
        },
{
    let (x, p2) = match read_byte(input, pos) {
        Ok(v) => v,
        Err(e) => {
            return Err(e);
        },
    };
    if x == 0 {
        Ok((BlockState::Started, p2))
    } else if x == 1 {
        Ok((BlockState::Ready, p2))
    } else if x == 2 {
        Ok((BlockState::Finished, p2))
    } else {
        Err(DecodeError::IncorrectFormat)
    }
}

fn read_opt_i64(input: &Vec<u8>, pos: usize) -> (r: Result<(Option<i64>, usize), DecodeError>)
    requires
        pos <= input@.len(),
    ensures
        match r {
            Ok((v, p2)) => s_read_opt_i64(input@.skip(pos as int)) == Ok::<_, DecodeError>(
                (v, input@.skip(p2 as int)),
            ) && pos < p2 <= input@.len(),
            Err(e) => s_read_opt_i64(input@.skip(pos as int)) == Err::<
                (Option<i64>, Seq<u8>),
                _,
            >(e),
        },
{
    let (flag, p1) = match read_byte(input, pos) {
        Ok(v) => v,
        Err(e) => {
            return Err(e);
        },
    };
    if flag == 0 {
        Ok((None, p1))
    } else {
        match read_i64(input, p1) {
            Ok((v, p2)) => Ok((Some(v), p2)),
            Err(e) => Err(e),
        }
    }
}

fn decode_create_repo(input: &Vec<u8>, pos: usize) -> (r: Result<(Op, usize), DecodeError>)
    requires
        pos <= input@.len(),
    ensures
        match r {
            Ok((op, p2)) => s_op_create_repo(input@.skip(pos as int)) == Ok::<_, DecodeError>(
                (op@, input@.skip(p2 as int)),
            ) && pos <= p2 <= input@.len() && op_names_wf(op@),
            Err(e) => s_op_create_repo(input@.skip(pos as int)) == Err::<(OpV, Seq<u8>), _>(e),
        },
{
    match read_name(input, pos) {
        Err(e) => Err(e),
        Ok((name, p2)) => match read_bool(input, p2) {
            Err(e) => Err(e),
            Ok((update, p3)) => Ok((Op::CreateRepo { name, update }, p3)),
        },
    }
}

fn decode_delete_repo(input: &Vec<u8>, pos: usize) -> (r: Result<(Op, usize), DecodeError>)
    requires
        pos <= input@.len(),
    ensures
        match r {
            Ok((op, p2)) => s_op_delete_repo(input@.skip(pos as int)) == Ok::<_, DecodeError>(
                (op@, input@.skip(p2 as int)),
            ) && pos <= p2 <= input@.len(),
            Err(e) => s_op_delete_repo(input@.skip(pos as int)) == Err::<(OpV, Seq<u8>), _>(e),
        },
{
    match read_bool(input, pos) {
        Err(e) => Err(e),
        Ok((force, p2)) => match read_bool(input, p2) {
            Err(e) => Err(e),
            Ok((all, p3)) => Ok((Op::DeleteRepo { force, all }, p3)),
        },
    }
}

fn decode_inspect_commit(input: &Vec<u8>, pos: usize) -> (r: Result<(Op, usize), DecodeError>)
    requires
        pos <= input@.len(),
    ensures
        match r {
            Ok((op, p2)) => s_op_inspect_commit(input@.skip(pos as int)) == Ok::<_, DecodeError>(
                (op@, input@.skip(p2 as int)),
            ) && pos <= p2 <= input@.len(),
            Err(e) => s_op_inspect_commit(input@.skip(pos as int)) == Err::<(OpV, Seq<u8>), _>(e),
        },
{
    match read_block_state(input, pos) {
        Err(e) => Err(e),
        Ok((block_state, p2)) => Ok((Op::InspectCommit { block_state }, p2)),
    }
}

fn decode_list_commit(input: &Vec<u8>, pos: usize) -> (r: Result<(Op, usize), DecodeError>)
    requires
        pos <= input@.len(),
    ensures
        match r {
            Ok((op, p2)) => s_op_list_commit(input@.skip(pos as int)) == Ok::<_, DecodeError>(
                (op@, input@.skip(p2 as int)),
            ) && pos <= p2 <= input@.len(),
            Err(e) => s_op_list_commit(input@.skip(pos as int)) == Err::<(OpV, Seq<u8>), _>(e),
        },
{
    match read_u64(input, pos) {
        Err(e) => Err(e),
        Ok((number, p2)) => match read_bool(input, p2) {
            Err(e) => Err(e),
            Ok((reverse, p3)) => Ok((Op::ListCommit { number, reverse }, p3)),
        },
    }
}

fn decode_put_file(input: &Vec<u8>, pos: usize) -> (r: Result<(Op, usize), DecodeError>)
    requires
        pos <= input@.len(),
    ensures
        match r {
            Ok((op, p2)) => s_op_put_file(input@.skip(pos as int)) == Ok::<_, DecodeError>(
                (op@, input@.skip(p2 as int)),
            ) && pos <= p2 <= input@.len() && op_names_wf(op@),
            Err(e) => s_op_put_file(input@.skip(pos as int)) == Err::<(OpV, Seq<u8>), _>(e),
        },
{
    let (path, p2) = match read_name(input, pos) {
        Ok(v) => v,
        Err(e) => {
            return Err(e);
        },
    };
    let (bytes, p3) = match read_blob(input, p2) {
        Ok(v) => v,
        Err(e) => {
            return Err(e);
        },
    };
    let (delimiter, p4) = match read_delimiter(input, p3) {
        Ok(v) => v,
        Err(e) => {
            return Err(e);
        },
    };
    let (target_file_datums, p5) = match read_i64(input, p4) {
        Ok(v) => v,
        Err(e) => {
            return Err(e);
        },
    };
    let (target_file_bytes, p6) = match read_i64(input, p5) {
        Ok(v) => v,
        Err(e) => {
            return Err(e);
        },
    };
    let (header_records, p7) = match read_i64(input, p6) {
        Ok(v) => v,
        Err(e) => {
            return Err(e);
        },
    };
    let (overwrite_index, p8) = match read_opt_i64(input, p7) {
        Ok(v) => v,
        Err(e) => {
            return Err(e);
        },
    };
    Ok(
        (
            Op::PutFile {
                path,
                bytes,
                delimiter,
                target_file_datums,
                target_file_bytes,
                header_records,
                overwrite_index,
            },
            p8,
        ),
    )
}

fn decode_get_file(input: &Vec<u8>, pos: usize) -> (r: Result<(Op, usize), DecodeError>)
    requires
        pos <= input@.len(),
    ensures
        match r {
            Ok((op, p2)) => s_op_get_file(input@.skip(pos as int)) == Ok::<_, DecodeError>(
                (op@, input@.skip(p2 as int)),
            ) && pos <= p2 <= input@.len(),
            Err(e) => s_op_get_file(input@.skip(pos as int)) == Err::<(OpV, Seq<u8>), _>(e),
        },
{
    match read_i64(input, pos) {
        Err(e) => Err(e),
        Ok((offset_bytes, p2)) => match read_i64(input, p2) {
            Err(e) => Err(e),
            Ok((size_bytes, p3)) => Ok((Op::GetFile { offset_bytes, size_bytes }, p3)),
        },
    }
}

fn decode_list_file(input: &Vec<u8>, pos: usize) -> (r: Result<(Op, usize), DecodeError>)
    requires
        pos <= input@.len(),
    ensures
        match r {
            Ok((op, p2)) => s_op_list_file(input@.skip(pos as int)) == Ok::<_, DecodeError>(
                (op@, input@.skip(p2 as int)),
            ) && pos <= p2 <= input@.len(),
            Err(e) => s_op_list_file(input@.skip(pos as int)) == Err::<(OpV, Seq<u8>), _>(e),
        },
{
    match read_bool(input, pos) {
        Err(e) => Err(e),
        Ok((full, p2)) => match read_i64(input, p2) {
            Err(e) => Err(e),
            Ok((history, p3)) => Ok((Op::ListFile { full, history }, p3)),
        },
    }
}

fn decode_create_branch(input: &Vec<u8>, pos: usize) -> (r: Result<(Op, usize), DecodeError>)
    requires
        pos <= input@.len(),
    ensures
        match r {
            Ok((op, p2)) => s_op_create_branch(input@.skip(pos as int)) == Ok::<_, DecodeError>(
                (op@, input@.skip(p2 as int)),
            ) && pos <= p2 <= input@.len() && op_names_wf(op@),
            Err(e) => s_op_create_branch(input@.skip(pos as int)) == Err::<(OpV, Seq<u8>), _>(e),
        },
{
    match read_name(input, pos) {
        Err(e) => Err(e),
        Ok((name, p2)) => match read_bool(input, p2) {
            Err(e) => Err(e),
            Ok((new, p3)) => Ok((Op::CreateBranch { name, new }, p3)),
        },
    }
}

fn decode_op(input: &Vec<u8>, pos: usize) -> (r: Result<(Op, usize), DecodeError>)
    requires
        pos <= input@.len(),
    ensures
        match r {
            Ok((op, p2)) => s_decode_op(input@.skip(pos as int)) == Ok::<_, DecodeError>(
                (op@, input@.skip(p2 as int)),
            ) && pos < p2 <= input@.len() && op_names_wf(op@),
            Err(e) => s_decode_op(input@.skip(pos as int)) == Err::<(OpV, Seq<u8>), _>(e),
        },
{
    let (tag, p1) = match read_byte(input, pos) {
        Ok(v) => v,
        Err(e) => {
            return Err(e);
        },
    };
    if tag == 0 {
        decode_create_repo(input, p1)
    } else if tag == 1 {
        Ok((Op::InspectRepo, p1))
    } else if tag == 2 {
        Ok((Op::ListRepo, p1))
    } else if tag == 3 {
        decode_delete_repo(input, p1)
    } else if tag == 4 {
        Ok((Op::StartCommit, p1))
    } else if tag == 5 {
        Ok((Op::FinishCommit, p1))
    } else if tag == 6 {
        decode_inspect_commit(input, p1)
    } else if tag == 7 {
        decode_list_commit(input, p1)
    } else if tag == 8 {
        Ok((Op::DeleteCommit, p1))
    } else if tag == 9 {
        Ok((Op::FlushCommit, p1))
    } else if tag == 10 {
        decode_put_file(input, p1)
    } else if tag == 11 {
        decode_get_file(input, p1)
    } else if tag == 12 {
        Ok((Op::InspectFile, p1))
    } else if tag == 13 {
        decode_list_file(input, p1)
    } else if tag == 14 {
        Ok((Op::WalkFile, p1))
    } else if tag == 15 {
        match read_pattern(input, p1) {
            Err(e) => Err(e),
            Ok((pattern, p2)) => Ok((Op::GlobFile { pattern }, p2)),
        }
    } else if tag == 16 {
        match read_bool(input, p1) {
            Err(e) => Err(e),
            Ok((shallow, p2)) => Ok((Op::DiffFile { shallow }, p2)),
        }
    } else if tag == 17 {
        Ok((Op::DeleteFile, p1))
    } else if tag == 18 {
        decode_create_branch(input, p1)
    } else if tag == 19 {
        Ok((Op::InspectBranch, p1))
    } else if tag == 20 {
        match read_bool(input, p1) {
            Err(e) => Err(e),
            Ok((reverse, p2)) => Ok((Op::ListBranch { reverse }, p2)),
        }
    } else if tag == 21 {
        match read_bool(input, p1) {
            Err(e) => Err(e),
            Ok((force, p2)) => Ok((Op::DeleteBranch { force }, p2)),
        }
    } else if tag == 22 {
        Ok((Op::DeleteAll, p1))
    } else {
        Err(DecodeError::IncorrectFormat)
    }
}

/// Decodes operations until the input is exhausted. The empty tail yields the
/// empty list; the guard on the recursive call only records that each
/// operation consumes input, which `lemma_decode_op_consumes` shows always
/// holds.
pub open spec fn s_decode_ops(b: Seq<u8>) -> Result<Seq<OpV>, DecodeError>
    decreases b.len(),
{
    if b.len() == 0 {
        Ok(Seq::empty())
    } else {
        match s_decode_op(b) {
            Err(e) => Err(e),
            Ok((op, rest)) => {
                if rest.len() < b.len() {
                    match s_decode_ops(rest) {
                        Ok(ops) => Ok(seq![op] + ops),
                        Err(e) => Err(e),
                    }
                } else {
                    Err(DecodeError::IncorrectFormat)
                }
            },
        }
    }
}

/// Decodes a whole fuzz input into its candidate operation list. An empty
/// input carries no operations at all and is rejected as insufficient data.
pub open spec fn s_decode(b: Seq<u8>) -> Result<Seq<OpV>, DecodeError> {
    if b.len() == 0 {
        Err(DecodeError::InsufficientData)
    } else {
        s_decode_ops(b)
    }
}

/// Decodes a whole fuzz input into its candidate operation list, front to
/// back, rejecting the input outright if any point of it fails the grammar.
pub fn decode(input: &Vec<u8>) -> (r: Result<Vec<Op>, DecodeError>)
    ensures
        match r {
            Ok(ops) => s_decode(input@) == Ok::<_, DecodeError>(ops_view(ops@)) && ops@.len() > 0
                && ops_names_wf(ops_view(ops@)),
            Err(e) => s_decode(input@) == Err::<Seq<OpV>, _>(e),
        },
{
    if input.len() == 0 {
        return Err(DecodeError::InsufficientData);
    }
    let mut acc: Vec<Op> = Vec::new();
    let mut pos: usize = 0;
    proof {
        assert(input@.skip(0) =~= input@);
    }
    while pos < input.len()
        invariant
            pos <= input@.len(),
            (pos == 0) == (acc@.len() == 0),
            ops_names_wf(ops_view(acc@)),
            match s_decode_ops(input@.skip(pos as int)) {
                Ok(tail) => s_decode_ops(input@) == Ok::<_, DecodeError>(ops_view(acc@) + tail),
                Err(e) => s_decode_ops(input@) == Err::<Seq<OpV>, _>(e),
            },
        decreases input@.len() - pos,
    {
        match decode_op(input, pos) {
            Err(e) => {
                proof {
                    assert(input@.skip(pos as int).len() > 0);
                }
                return Err(e);
            },
            Ok((op, p2)) => {
                proof {
                    let suffix = input@.skip(pos as int);
                    let suffix2 = input@.skip(p2 as int);
                    assert(suffix.len() > 0);
                    assert(suffix2.len() < suffix.len());
                    match s_decode_ops(suffix2) {
                        Ok(tail2) => {
                            assert(s_decode_ops(suffix) == Ok::<_, DecodeError>(
                                seq![op@] + tail2,
                            ));
                            assert(ops_view(acc@.push(op)) =~= ops_view(acc@).push(op@));
                            assert(ops_view(acc@) + (seq![op@] + tail2) =~= ops_view(acc@).push(
                                op@,
                            ) + tail2);
                        },
                        Err(_) => {},
                    }
                }
                proof {
                    assert(ops_view(acc@.push(op)) =~= ops_view(acc@).push(op@));
                    assert(forall|m: int|
                        0 <= m < acc@.len() ==> ops_view(acc@.push(op))[m] == ops_view(acc@)[m]);
                }
                acc.push(op);
                pos = p2;
            },
        }
    }
    proof {
        assert(input@.skip(input@.len() as int) =~= Seq::<u8>::empty());
        assert(s_decode_ops(input@.skip(pos as int)) == Ok::<_, DecodeError>(Seq::<OpV>::empty()));
        assert(ops_view(acc@) + Seq::<OpV>::empty() =~= ops_view(acc@));
        assert(acc@.len() > 0) by {
            if acc@.len() == 0 {
                assert(pos == 0);
            }
        }
    }
    Ok(acc)
}

} // verus!
