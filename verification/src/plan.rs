//! The executor's planning half: turning a validated operation sequence into
//! the exact remote calls to make, threading concrete names from one
//! operation to the next through the shadow state.
//!
//! Each operation acts on the most recently created object of its kind, so
//! the planner reads the target's names off the shadow stacks, renders them
//! as wire identifiers, and advances the stacks exactly as the validator's
//! precondition table says. The remote calls themselves are input/output and
//! stay outside the library: a driver performs each [`Action`] in order,
//! hands every outcome to the error classifier, and continues on tolerable
//! errors with the stacks advanced as if the call had succeeded — the
//! validator has already shown the call should succeed under the model.

use vstd::prelude::*;

use crate::name::ident_of;
use crate::ops::BlockState;
use crate::ops::Delimiter;
use crate::ops::Op;
use crate::ops::OpV;
use crate::ops::ops_view;
use crate::state::RepoV;
use crate::state::State;
use crate::state::v_has_branch;
use crate::state::v_has_repo;
use crate::state::v_pop_branch;
use crate::state::v_pop_file;
use crate::state::v_state_wf;
use crate::state::v_top_branch;
use crate::state::v_top_file;
use crate::state::v_top_flag_branch;
use crate::state::v_top_repo;
use crate::ops::op_names_wf;
use crate::ops::ops_names_wf;
use crate::validate::s_apply_op;
use crate::validate::s_apply_ops;
use crate::validate::s_accepted;

verus! {

/// One remote call, fully determined: every identifier is already rendered
/// in wire form and every parameter is a plain value. A driver outside the
/// library performs these in order.
#[derive(Debug)]
#[allow(inconsistent_fields)]
pub enum Action {
    CreateRepo { repo: String, update: bool },
    InspectRepo { repo: String },
    ListRepo,
    DeleteRepo { repo: Option<String>, force: bool, all: bool },
    StartCommit { repo: String, id: String },
    FinishCommit { repo: String, id: String },
    InspectCommit { repo: String, id: String, block_state: BlockState },
    ListCommit { repo: String, number: u64, reverse: bool },
    DeleteCommit { repo: String, id: String },
    FlushCommit { repo: String, id: String },
    PutFile {
        repo: String,
        id: String,
        path: String,
        value: Vec<u8>,
        delimiter: Delimiter,
        target_file_datums: i64,
        target_file_bytes: i64,
        header_records: i64,
        overwrite_index: Option<i64>,
    },
    GetFile { repo: String, id: String, path: String, offset_bytes: i64, size_bytes: i64 },
    InspectFile { repo: String, id: String, path: String },
    ListFile { repo: String, id: String, full: bool, history: i64 },
    WalkFile { repo: String, id: String },
    GlobFile { repo: String, id: String, pattern: Vec<u8> },
    DiffFile {
        old_repo: String,
        old_id: String,
        old_path: String,
        new_repo: String,
        new_id: String,
        new_path: String,
        shallow: bool,
    },
    DeleteFile { repo: String, id: String, path: String },
    CreateBranch { repo: String, name: String, head: Option<(String, String)> },
    InspectBranch { repo: String, name: String },
    ListBranch { repo: String, reverse: bool },
    DeleteBranch { repo: String, name: String, force: bool },
    DeleteAll,
    /// Wiping the pipeline subsystem, issued together with `DeleteAll` when
    /// the whole cluster is bracketed clean.
    DeleteAllPipelines,
    /// The structural consistency check run after a whole sequence.
    Fsck { fix: bool },
}

/// The mathematical model of a planned remote call.
#[allow(inconsistent_fields)]
pub ghost enum ActionV {
    CreateRepo { repo: Seq<char>, update: bool },
    InspectRepo { repo: Seq<char> },
    ListRepo,
    DeleteRepo { repo: Option<Seq<char>>, force: bool, all: bool },
    StartCommit { repo: Seq<char>, id: Seq<char> },
    FinishCommit { repo: Seq<char>, id: Seq<char> },
    InspectCommit { repo: Seq<char>, id: Seq<char>, block_state: BlockState },
    ListCommit { repo: Seq<char>, number: u64, reverse: bool },
    DeleteCommit { repo: Seq<char>, id: Seq<char> },
    FlushCommit { repo: Seq<char>, id: Seq<char> },
    PutFile {
        repo: Seq<char>,
        id: Seq<char>,
        path: Seq<char>,
        value: Seq<u8>,
        delimiter: Delimiter,
        target_file_datums: i64,
        target_file_bytes: i64,
        header_records: i64,
        overwrite_index: Option<i64>,
    },
    GetFile { repo: Seq<char>, id: Seq<char>, path: Seq<char>, offset_bytes: i64, size_bytes: i64 },
    InspectFile { repo: Seq<char>, id: Seq<char>, path: Seq<char> },
    ListFile { repo: Seq<char>, id: Seq<char>, full: bool, history: i64 },
    WalkFile { repo: Seq<char>, id: Seq<char> },
    GlobFile { repo: Seq<char>, id: Seq<char>, pattern: Seq<u8> },
    DiffFile {
        old_repo: Seq<char>,
        old_id: Seq<char>,
        old_path: Seq<char>,
        new_repo: Seq<char>,
        new_id: Seq<char>,
        new_path: Seq<char>,
        shallow: bool,
    },
    DeleteFile { repo: Seq<char>, id: Seq<char>, path: Seq<char> },
    CreateBranch { repo: Seq<char>, name: Seq<char>, head: Option<(Seq<char>, Seq<char>)> },
    InspectBranch { repo: Seq<char>, name: Seq<char> },
    ListBranch { repo: Seq<char>, reverse: bool },
    DeleteBranch { repo: Seq<char>, name: Seq<char>, force: bool },
    DeleteAll,
    DeleteAllPipelines,
    Fsck { fix: bool },
}

impl View for Action {
    type V = ActionV;

    open spec fn view(&self) -> ActionV {
        match self {
            Action::CreateRepo { repo, update } => ActionV::CreateRepo { repo: repo@, update: *update },
            Action::InspectRepo { repo } => ActionV::InspectRepo { repo: repo@ },
            Action::ListRepo => ActionV::ListRepo,
            Action::DeleteRepo { repo, force, all } => ActionV::DeleteRepo {
                repo: match repo {
                    Some(r) => Some(r@),
                    None => None,
                },
                force: *force,
                all: *all,
            },
            Action::StartCommit { repo, id } => ActionV::StartCommit { repo: repo@, id: id@ },
            Action::FinishCommit { repo, id } => ActionV::FinishCommit { repo: repo@, id: id@ },
            Action::InspectCommit { repo, id, block_state } => ActionV::InspectCommit {
                repo: repo@,
                id: id@,
                block_state: *block_state,
            },
            Action::ListCommit { repo, number, reverse } => ActionV::ListCommit {
                repo: repo@,
                number: *number,
                reverse: *reverse,
            },
            Action::DeleteCommit { repo, id } => ActionV::DeleteCommit { repo: repo@, id: id@ },
            Action::FlushCommit { repo, id } => ActionV::FlushCommit { repo: repo@, id: id@ },
            Action::PutFile {
                repo,
                id,
                path,
                value,
                delimiter,
                target_file_datums,
                target_file_bytes,
                header_records,
                overwrite_index,
            } => ActionV::PutFile {
                repo: repo@,
                id: id@,
                path: path@,
                value: value@,
                delimiter: *delimiter,
                target_file_datums: *target_file_datums,
                target_file_bytes: *target_file_bytes,
                header_records: *header_records,
                overwrite_index: *overwrite_index,
            },
            Action::GetFile { repo, id, path, offset_bytes, size_bytes } => ActionV::GetFile {
                repo: repo@,
                id: id@,
                path: path@,
                offset_bytes: *offset_bytes,
                size_bytes: *size_bytes,
            },
            Action::InspectFile { repo, id, path } => ActionV::InspectFile {
                repo: repo@,
                id: id@,
                path: path@,
            },
            Action::ListFile { repo, id, full, history } => ActionV::ListFile {
                repo: repo@,
                id: id@,
                full: *full,
                history: *history,
            },
            Action::WalkFile { repo, id } => ActionV::WalkFile { repo: repo@, id: id@ },
            Action::GlobFile { repo, id, pattern } => ActionV::GlobFile {
                repo: repo@,
                id: id@,
                pattern: pattern@,
            },
            Action::DiffFile {
                old_repo,
                old_id,
                old_path,
                new_repo,
                new_id,
                new_path,
                shallow,
            } => ActionV::DiffFile {
                old_repo: old_repo@,
                old_id: old_id@,
                old_path: old_path@,
                new_repo: new_repo@,
                new_id: new_id@,
                new_path: new_path@,
                shallow: *shallow,
            },
            Action::DeleteFile { repo, id, path } => ActionV::DeleteFile {
                repo: repo@,
                id: id@,
                path: path@,
            },
            Action::CreateBranch { repo, name, head } => ActionV::CreateBranch {
                repo: repo@,
                name: name@,
                head: match head {
                    Some((hr, hi)) => Some((hr@, hi@)),
                    None => None,
                },
            },
            Action::InspectBranch { repo, name } => ActionV::InspectBranch {
                repo: repo@,
                name: name@,
            },
            Action::ListBranch { repo, reverse } => ActionV::ListBranch {
                repo: repo@,
                reverse: *reverse,
            },
            Action::DeleteBranch { repo, name, force } => ActionV::DeleteBranch {
                repo: repo@,
                name: name@,
                force: *force,
            },
            Action::DeleteAll => ActionV::DeleteAll,
            Action::DeleteAllPipelines => ActionV::DeleteAllPipelines,
            Action::Fsck { fix } => ActionV::Fsck { fix: *fix },
        }
    }
}

/// The view of a planned action list.
pub open spec fn actions_view(actions: Seq<Action>) -> Seq<ActionV> {
    actions.map_values(|a: Action| a@)
}

/// The remote call one operation makes in a given state, with every
/// identifier rendered; `None` exactly when the operation's preconditions
/// are unsatisfiable there.
pub open spec fn s_action_for(s: Seq<RepoV>, op: OpV) -> Option<ActionV> {
    match op {
        OpV::CreateRepo { name, update } => {
            if v_has_repo(s, name) {
                None
            } else {
                Some(ActionV::CreateRepo { repo: ident_of(name), update })
            }
        },
        OpV::InspectRepo => match v_top_repo(s) {
            Some(r) => Some(ActionV::InspectRepo { repo: ident_of(r.name) }),
            None => None,
        },
        OpV::ListRepo => Some(ActionV::ListRepo),
        OpV::DeleteRepo { force, all } => {
            if all {
                Some(ActionV::DeleteRepo { repo: None, force, all })
            } else {
                match v_top_repo(s) {
                    Some(r) => Some(
                        ActionV::DeleteRepo { repo: Some(ident_of(r.name)), force, all },
                    ),
                    None => None,
                }
            }
        },
        OpV::StartCommit => match v_top_flag_branch(s, false) {
            Some(b) => Some(
                ActionV::StartCommit { repo: ident_of(b.repo_name), id: ident_of(b.name) },
            ),
            None => None,
        },
        OpV::FinishCommit => match v_top_flag_branch(s, true) {
            Some(b) => Some(
                ActionV::FinishCommit { repo: ident_of(b.repo_name), id: ident_of(b.name) },
            ),
            None => None,
        },
        OpV::InspectCommit { block_state } => match v_top_branch(s) {
            Some(b) => Some(
                ActionV::InspectCommit {
                    repo: ident_of(b.repo_name),
                    id: ident_of(b.name),
                    block_state,
                },
            ),
            None => None,
        },
        OpV::ListCommit { number, reverse } => match v_top_repo(s) {
            Some(r) => Some(ActionV::ListCommit { repo: ident_of(r.name), number, reverse }),
            None => None,
        },
        OpV::DeleteCommit => match v_pop_branch(s) {
            Some((b, _s2)) => {
                if b.open || b.files.len() > 0 {
                    Some(ActionV::DeleteCommit { repo: ident_of(b.repo_name), id: ident_of(b.name) })
                } else {
                    None
                }
            },
            None => None,
        },
        OpV::FlushCommit => match v_top_flag_branch(s, false) {
            Some(b) => Some(
                ActionV::FlushCommit { repo: ident_of(b.repo_name), id: ident_of(b.name) },
            ),
            None => None,
        },
        OpV::PutFile {
            path,
            bytes,
            delimiter,
            target_file_datums,
            target_file_bytes,
            header_records,
            overwrite_index,
        } => match v_top_branch(s) {
            Some(b) => Some(
                ActionV::PutFile {
                    repo: ident_of(b.repo_name),
                    id: ident_of(b.name),
                    path: ident_of(path),
                    value: bytes,
                    delimiter,
                    target_file_datums,
                    target_file_bytes,
                    header_records,
                    overwrite_index,
                },
            ),
            None => None,
        },
        OpV::GetFile { offset_bytes, size_bytes } => match v_top_file(s) {
            Some(f) => Some(
                ActionV::GetFile {
                    repo: ident_of(f.repo_name),
                    id: ident_of(f.branch_name),
                    path: ident_of(f.name),
                    offset_bytes,
                    size_bytes,
                },
            ),
            None => None,
        },
        OpV::InspectFile => match v_top_file(s) {
            Some(f) => Some(
                ActionV::InspectFile {
                    repo: ident_of(f.repo_name),
                    id: ident_of(f.branch_name),
                    path: ident_of(f.name),
                },
            ),
            None => None,
        },
        OpV::ListFile { full, history } => match v_top_branch(s) {
            Some(b) => Some(
                ActionV::ListFile {
                    repo: ident_of(b.repo_name),
                    id: ident_of(b.name),
                    full,
                    history,
                },
            ),
            None => None,
        },
        OpV::WalkFile => match v_top_branch(s) {
            Some(b) => Some(ActionV::WalkFile { repo: ident_of(b.repo_name), id: ident_of(b.name) }),
            None => None,
        },
        OpV::GlobFile { pattern } => match v_top_branch(s) {
            Some(b) => Some(
                ActionV::GlobFile { repo: ident_of(b.repo_name), id: ident_of(b.name), pattern },
            ),
            None => None,
        },
        OpV::DiffFile { shallow } => match v_pop_file(s) {
            Some((f1, s2)) => match v_pop_file(s2) {
                Some((f2, _s3)) => Some(
                    ActionV::DiffFile {
                        old_repo: ident_of(f1.repo_name),
                        old_id: ident_of(f1.branch_name),
                        old_path: ident_of(f1.name),
                        new_repo: ident_of(f2.repo_name),
                        new_id: ident_of(f2.branch_name),
                        new_path: ident_of(f2.name),
                        shallow,
                    },
                ),
                None => None,
            },
            None => None,
        },
        OpV::DeleteFile => match v_pop_file(s) {
            Some((f, _s2)) => Some(
                ActionV::DeleteFile {
                    repo: ident_of(f.repo_name),
                    id: ident_of(f.branch_name),
                    path: ident_of(f.name),
                },
            ),
            None => None,
        },
        OpV::CreateBranch { name, new } => {
            if s.len() == 0 {
                None
            } else if !new && v_top_flag_branch(s, false) is None {
                None
            } else if v_has_branch(s.last(), name) {
                None
            } else {
                let head = if new {
                    None
                } else {
                    let b = v_top_flag_branch(s, false)->Some_0;
                    Some((ident_of(b.repo_name), ident_of(b.name)))
                };
                Some(
                    ActionV::CreateBranch {
                        repo: ident_of(s.last().name),
                        name: ident_of(name),
                        head,
                    },
                )
            }
        },
        OpV::InspectBranch => match v_top_branch(s) {
            Some(b) => Some(
                ActionV::InspectBranch { repo: ident_of(b.repo_name), name: ident_of(b.name) },
            ),
            None => None,
        },
        OpV::ListBranch { reverse } => match v_top_repo(s) {
            Some(r) => Some(ActionV::ListBranch { repo: ident_of(r.name), reverse }),
            None => None,
        },
        OpV::DeleteBranch { force } => match v_pop_branch(s) {
            Some((b, _s2)) => {
                if force || (!b.open && b.files.len() > 0) {
                    Some(
                        ActionV::DeleteBranch {
                            repo: ident_of(b.repo_name),
                            name: ident_of(b.name),
                            force,
                        },
                    )
                } else {
                    None
                }
            },
            None => None,
        },
        OpV::DeleteAll => Some(ActionV::DeleteAll),
    }
}

/// An operation has a planned call exactly when its preconditions are
/// satisfiable: the planner and the validator agree on every operation in
/// every state.
pub proof fn lemma_action_iff_apply(s: Seq<RepoV>, op: OpV)
    ensures
        (s_action_for(s, op) is Some) <==> (s_apply_op(s, op) is Some),
{
}

/// The planned calls for a whole list, with the state they leave behind:
/// `None` exactly when the validator would reject the list from that state.
pub open spec fn s_plan_ops(s: Seq<RepoV>, ops: Seq<OpV>) -> Option<(Seq<ActionV>, Seq<RepoV>)>
    decreases ops.len(),
{
    if ops.len() == 0 {
        Some((Seq::empty(), s))
    } else {
        match (s_action_for(s, ops[0]), s_apply_op(s, ops[0])) {
            (Some(a), Some(s2)) => match s_plan_ops(s2, ops.skip(1)) {
                Some((acts, sf)) => Some((seq![a] + acts, sf)),
                None => None,
            },
            _ => None,
        }
    }
}

/// Replaying a validated sequence never fails in the model: every sequence
/// the validator accepts plans fully, one remote call per operation, and the
/// planner walks the states the validator walked.
pub proof fn lemma_accepted_plans_fully(s: Seq<RepoV>, ops: Seq<OpV>)
    ensures
        s_apply_ops(s, ops) matches Some(sf) ==> (s_plan_ops(s, ops) matches Some((acts, sf2))
            && sf2 == sf && acts.len() == ops.len()),
        s_apply_ops(s, ops) is None ==> s_plan_ops(s, ops) is None,
    decreases ops.len(),
{
    if ops.len() > 0 {
        lemma_action_iff_apply(s, ops[0]);
        match s_apply_op(s, ops[0]) {
            Some(s2) => {
                lemma_accepted_plans_fully(s2, ops.skip(1));
            },
            None => {},
        }
    }
}

/// Every accepted sequence plans fully from the empty shadow state.
pub proof fn lemma_accepted_sequences_plan(ops: Seq<OpV>)
    requires
        s_accepted(ops),
    ensures
        s_plan_ops(Seq::empty(), ops) matches Some((acts, _sf)) && acts.len() == ops.len(),
{
    lemma_accepted_plans_fully(Seq::empty(), ops);
}

impl State {
    /// Plans the remote call for one operation and advances the shadow state,
    /// exactly when the operation's preconditions hold.
    pub fn plan_op(&mut self, op: &Op) -> (r: Option<Action>)
        requires
            v_state_wf(old(self)@),
            op_names_wf(op@),
        ensures
            match s_action_for(old(self)@, op@) {
                Some(a) => {
                    &&& r matches Some(act)
                    &&& act@ == a
                    &&& s_apply_op(old(self)@, op@) matches Some(s2)
                    &&& final(self)@ == s2
                },
                None => r is None && final(self)@ == old(self)@,
            },
    {
        proof {
            crate::state::lemma_tops_wf(self@);
        }
        match op {
            Op::CreateRepo { name, update } => {
                if self.has_repo_named(name) {
                    None
                } else {
                    let repo = name.to_ident();
                    self.push_repo(name.dup());
                    Some(Action::CreateRepo { repo, update: *update })
                }
            },
            Op::InspectRepo => {
                match self.repo() {
                    Some(r) => Some(Action::InspectRepo { repo: r.name.to_ident() }),
                    None => None,
                }
            },
            Op::ListRepo => Some(Action::ListRepo),
            Op::DeleteRepo { force, all } => {
                if *all {
                    self.clear();
                    Some(Action::DeleteRepo { repo: None, force: *force, all: *all })
                } else {
                    let repo = match self.repo() {
                        Some(r) => r.name.to_ident(),
                        None => {
                            return None;
                        },
                    };
                    let _ = self.pop_repo();
                    Some(Action::DeleteRepo { repo: Some(repo), force: *force, all: *all })
                }
            },
            Op::StartCommit => {
                let (repo, id) = match self.closed_branch() {
                    Some(b) => (b.repo_name.to_ident(), b.name.to_ident()),
                    None => {
                        return None;
                    },
                };
                let _ = self.start_commit();
                Some(Action::StartCommit { repo, id })
            },
            Op::FinishCommit => {
                let (repo, id) = match self.open_branch() {
                    Some(b) => (b.repo_name.to_ident(), b.name.to_ident()),
                    None => {
                        return None;
                    },
                };
                let _ = self.finish_commit();
                Some(Action::FinishCommit { repo, id })
            },
            Op::InspectCommit { block_state } => {
                match self.branch() {
                    Some(b) => Some(
                        Action::InspectCommit {
                            repo: b.repo_name.to_ident(),
                            id: b.name.to_ident(),
                            block_state: *block_state,
                        },
                    ),
                    None => None,
                }
            },
            Op::ListCommit { number, reverse } => {
                match self.repo() {
                    Some(r) => Some(
                        Action::ListCommit {
                            repo: r.name.to_ident(),
                            number: *number,
                            reverse: *reverse,
                        },
                    ),
                    None => None,
                }
            },
            Op::DeleteCommit => {
                let (repo, id, open, file_count) = match self.branch() {
                    Some(b) => (b.repo_name.to_ident(), b.name.to_ident(), b.open, b.files.len()),
                    None => {
                        return None;
                    },
                };
                if !open && file_count == 0 {
                    return None;
                }
                proof {
                    crate::state::lemma_top_branch_pos_props(self@);
                }
                let _ = self.pop_branch();
                Some(Action::DeleteCommit { repo, id })
            },
            Op::FlushCommit => {
                match self.closed_branch() {
                    Some(b) => Some(
                        Action::FlushCommit { repo: b.repo_name.to_ident(), id: b.name.to_ident() },
                    ),
                    None => None,
                }
            },
            Op::PutFile {
                path,
                bytes,
                delimiter,
                target_file_datums,
                target_file_bytes,
                header_records,
                overwrite_index,
            } => {
                let (repo, id) = match self.branch() {
                    Some(b) => (b.repo_name.to_ident(), b.name.to_ident()),
                    None => {
                        return None;
                    },
                };
                let path_ident = path.to_ident();
                let value = crate::name::dup_bytes(bytes);
                let _ = self.push_file(path.dup());
                Some(
                    Action::PutFile {
                        repo,
                        id,
                        path: path_ident,
                        value,
                        delimiter: *delimiter,
                        target_file_datums: *target_file_datums,
                        target_file_bytes: *target_file_bytes,
                        header_records: *header_records,
                        overwrite_index: *overwrite_index,
                    },
                )
            },
            Op::GetFile { offset_bytes, size_bytes } => {
                match self.file() {
                    Some(f) => Some(
                        Action::GetFile {
                            repo: f.repo_name.to_ident(),
                            id: f.branch_name.to_ident(),
                            path: f.name.to_ident(),
                            offset_bytes: *offset_bytes,
                            size_bytes: *size_bytes,
                        },
                    ),
                    None => None,
                }
            },
            Op::InspectFile => {
                match self.file() {
                    Some(f) => Some(
                        Action::InspectFile {
                            repo: f.repo_name.to_ident(),
                            id: f.branch_name.to_ident(),
                            path: f.name.to_ident(),
                        },
                    ),
                    None => None,
                }
            },
            Op::ListFile { full, history } => {
                match self.branch() {
                    Some(b) => Some(
                        Action::ListFile {
                            repo: b.repo_name.to_ident(),
                            id: b.name.to_ident(),
                            full: *full,
                            history: *history,
                        },
                    ),
                    None => None,
                }
            },
            Op::WalkFile => {
                match self.branch() {
                    Some(b) => Some(
                        Action::WalkFile { repo: b.repo_name.to_ident(), id: b.name.to_ident() },
                    ),
                    None => None,
                }
            },
            Op::GlobFile { pattern } => {
                match self.branch() {
                    Some(b) => Some(
                        Action::GlobFile {
                            repo: b.repo_name.to_ident(),
                            id: b.name.to_ident(),
                            pattern: crate::name::dup_bytes(pattern),
                        },
                    ),
                    None => None,
                }
            },
            Op::DiffFile { shallow } => {
                proof {
                    crate::state::lemma_pop_file_wf(self@);
                    match v_pop_file(self@) {
                        Some((_f, s2)) => {
                            crate::state::lemma_tops_wf(s2);
                            crate::state::lemma_top_file_pos_props(self@);
                            crate::state::lemma_top_file_pos_props(s2);
                        },
                        None => {},
                    }
                }
                match self.pop_two_files() {
                    Some((f1, f2)) => Some(
                        Action::DiffFile {
                            old_repo: f1.repo_name.to_ident(),
                            old_id: f1.branch_name.to_ident(),
                            old_path: f1.name.to_ident(),
                            new_repo: f2.repo_name.to_ident(),
                            new_id: f2.branch_name.to_ident(),
                            new_path: f2.name.to_ident(),
                            shallow: *shallow,
                        },
                    ),
                    None => None,
                }
            },
            Op::DeleteFile => {
                proof {
                    crate::state::lemma_top_file_pos_props(self@);
                }
                match self.pop_file() {
                    Some(f) => Some(
                        Action::DeleteFile {
                            repo: f.repo_name.to_ident(),
                            id: f.branch_name.to_ident(),
                            path: f.name.to_ident(),
                        },
                    ),
                    None => None,
                }
            },
            Op::CreateBranch { name, new } => {
                if self.repos.len() == 0 {
                    return None;
                }
                let head = if *new {
                    None
                } else {
                    match self.closed_branch() {
                        Some(b) => Some((b.repo_name.to_ident(), b.name.to_ident())),
                        None => {
                            return None;
                        },
                    }
                };
                let i = self.repos.len() - 1;
                proof {
                    assert(self@[i as int] == self.repos@[i as int]@);
                    assert(self@.last() == self@[i as int]);
                }
                if self.repos[i].has_branch_named(name) {
                    return None;
                }
                let repo = self.repos[i].name.to_ident();
                let branch_name = name.to_ident();
                let _ = self.create_branch(name.dup());
                Some(Action::CreateBranch { repo, name: branch_name, head })
            },
            Op::InspectBranch => {
                match self.branch() {
                    Some(b) => Some(
                        Action::InspectBranch {
                            repo: b.repo_name.to_ident(),
                            name: b.name.to_ident(),
                        },
                    ),
                    None => None,
                }
            },
            Op::ListBranch { reverse } => {
                match self.repo() {
                    Some(r) => Some(
                        Action::ListBranch { repo: r.name.to_ident(), reverse: *reverse },
                    ),
                    None => None,
                }
            },
            Op::DeleteBranch { force } => {
                let (repo, branch_name, open, file_count) = match self.branch() {
                    Some(b) => (b.repo_name.to_ident(), b.name.to_ident(), b.open, b.files.len()),
                    None => {
                        return None;
                    },
                };
                if !*force && (open || file_count == 0) {
                    return None;
                }
                proof {
                    crate::state::lemma_top_branch_pos_props(self@);
                }
                let _ = self.pop_branch();
                Some(Action::DeleteBranch { repo, name: branch_name, force: *force })
            },
            Op::DeleteAll => {
                self.clear();
                Some(Action::DeleteAll)
            },
        }
    }
}

/// Plans a whole validated sequence from the empty shadow state: one remote
/// call per operation, in order; `None` exactly when the validator would
/// reject the sequence.
pub fn plan(ops: &Vec<Op>) -> (r: Option<Vec<Action>>)
    requires
        ops_names_wf(ops_view(ops@)),
    ensures
        match r {
            Some(actions) => {
                &&& s_plan_ops(Seq::empty(), ops_view(ops@)) matches Some((acts, _sf))
                &&& actions_view(actions@) == acts
                &&& actions@.len() == ops@.len()
            },
            None => s_plan_ops(Seq::empty(), ops_view(ops@)) is None && !s_accepted(
                ops_view(ops@),
            ),
        },
{
    let mut state = State::default();
    let mut acc: Vec<Action> = Vec::new();
    let mut i: usize = 0;
    proof {
        assert(ops_view(ops@).skip(0) =~= ops_view(ops@));
        assert(actions_view(acc@) =~= Seq::<ActionV>::empty());
    }
    while i < ops.len()
        invariant
            i <= ops@.len(),
            acc@.len() == i,
            ops_names_wf(ops_view(ops@)),
            v_state_wf(state@),
            match s_plan_ops(state@, ops_view(ops@).skip(i as int)) {
                Some((acts2, sf)) => s_plan_ops(Seq::empty(), ops_view(ops@)) == Some(
                    (actions_view(acc@) + acts2, sf),
                ),
                None => s_plan_ops(Seq::empty(), ops_view(ops@)) is None,
            },
        decreases ops@.len() - i,
    {
        proof {
            assert(ops_view(ops@)[i as int] == ops@[i as int]@);
            assert(op_names_wf(ops_view(ops@)[i as int]));
            assert(ops_view(ops@).skip(i as int)[0] == ops@[i as int]@);
            assert(ops_view(ops@).skip(i as int).skip(1) =~= ops_view(ops@).skip(i as int + 1));
            crate::validate::lemma_apply_op_preserves_wf(state@, ops@[i as int]@);
        }
        let act = match state.plan_op(&ops[i]) {
            Some(a) => a,
            None => {
                proof {
                    lemma_action_iff_apply(state@, ops@[i as int]@);
                    assert(s_plan_ops(state@, ops_view(ops@).skip(i as int)) is None);
                    lemma_accepted_plans_fully(Seq::empty(), ops_view(ops@));
                }
                return None;
            },
        };
        let ghost prev_acc = acc@;
        acc.push(act);
        i = i + 1;
        proof {
            assert(actions_view(acc@) =~= actions_view(prev_acc).push(act@));
            match s_plan_ops(state@, ops_view(ops@).skip(i as int)) {
                Some((acts2, _sf)) => {
                    assert(actions_view(prev_acc) + (seq![act@] + acts2) =~= actions_view(
                        prev_acc,
                    ).push(act@) + acts2);
                },
                None => {},
            }
        }
    }
    proof {
        assert(ops_view(ops@).skip(ops@.len() as int) =~= Seq::<OpV>::empty());
        assert(actions_view(acc@) + Seq::<ActionV>::empty() =~= actions_view(acc@));
    }
    Some(acc)
}

/// The full action list of one fuzz run: wipe the cluster, run the planned
/// sequence, check structural consistency, and wipe again so the next case
/// starts clean.
pub open spec fn s_plan_run(ops: Seq<OpV>) -> Option<Seq<ActionV>> {
    match s_plan_ops(Seq::empty(), ops) {
        Some((acts, _sf)) => Some(
            seq![ActionV::DeleteAllPipelines, ActionV::DeleteAll] + acts
                + seq![
                ActionV::Fsck { fix: false },
                ActionV::DeleteAllPipelines,
                ActionV::DeleteAll,
            ],
        ),
        None => None,
    }
}

/// Plans a whole fuzz run: the validated sequence bracketed by full wipes,
/// with the structural consistency check at the end.
pub fn plan_run(ops: &Vec<Op>) -> (r: Option<Vec<Action>>)
    requires
        ops_names_wf(ops_view(ops@)),
    ensures
        match r {
            Some(actions) => s_plan_run(ops_view(ops@)) matches Some(acts) && actions_view(
                actions@,
            ) == acts,
            None => s_plan_run(ops_view(ops@)) is None && !s_accepted(ops_view(ops@)),
        },
{
    let planned = match plan(ops) {
        Some(a) => a,
        None => {
            return None;
        },
    };
    let mut out: Vec<Action> = Vec::new();
    out.push(Action::DeleteAllPipelines);
    out.push(Action::DeleteAll);
    let mut rest = planned;
    out.append(&mut rest);
    out.push(Action::Fsck { fix: false });
    out.push(Action::DeleteAllPipelines);
    out.push(Action::DeleteAll);
    proof {
        assert(actions_view(out@) =~= s_plan_run(ops_view(ops@))->Some_0);
    }
    Some(out)
}

/// Why a whole fuzz case produced no plan.
#[derive(Clone, Copy, Debug, PartialEq, Eq, Structural)]
pub enum CaseError {
    /// The raw bytes did not decode into an operation list.
    Decode(crate::ops::DecodeError),
    /// The decoded list was rejected whole by the sequence validator.
    Rejected,
}

/// Runs the whole front half of a fuzz case on raw bytes: decode the
/// operation list, validate it against the shadow model, and plan the
/// bracketed remote calls. Succeeds exactly on inputs that decode and whose
/// operation list the validator accepts.
pub fn plan_case(input: &Vec<u8>) -> (r: Result<Vec<Action>, CaseError>)
    ensures
        match r {
            Ok(actions) => {
                &&& crate::ops::s_decode(input@) matches Ok(opsv)
                &&& s_accepted(opsv)
                &&& s_plan_run(opsv) matches Some(acts)
                &&& actions_view(actions@) == acts
            },
            Err(CaseError::Decode(e)) => crate::ops::s_decode(input@) == Err::<Seq<OpV>, _>(e),
            Err(CaseError::Rejected) => crate::ops::s_decode(input@) matches Ok(opsv)
                && !s_accepted(opsv),
        },
{
    let ops = match crate::ops::decode(input) {
        Ok(ops) => ops,
        Err(e) => {
            return Err(CaseError::Decode(e));
        },
    };
    match plan_run(&ops) {
        Some(actions) => {
            proof {
                lemma_accepted_plans_fully(Seq::empty(), ops_view(ops@));
            }
            Ok(actions)
        },
        None => Err(CaseError::Rejected),
    }
}

} // verus!
