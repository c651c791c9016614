//! The sequence validator: decides whether a whole candidate operation list
//! can run, given the cumulative effect of the earlier operations in the same
//! list.
//!
//! The validator walks the list once, mutating a projection of the shadow
//! state as it goes, and checks each operation's preconditions against the
//! outcome of the operations before it. One unsatisfiable operation rejects
//! the whole candidate — rejected sequences are discarded, never truncated or
//! repaired — which biases a mutation-based fuzzer toward self-consistent
//! sequences.

use vstd::prelude::*;

use crate::name::Name;
use crate::ops::Op;
use crate::ops::OpV;
use crate::ops::op_names_wf;
use crate::ops::ops_names_wf;
use crate::ops::ops_view;
use crate::state::RepoV;
use crate::state::State;
use crate::state::lemma_top_branch_pos_props;
use crate::state::v_has_branch;
use crate::state::v_has_repo;
use crate::state::v_pop_branch;
use crate::state::s_pop_two_files;
use crate::state::v_pop_file;
use crate::state::v_pop_repo;
use crate::state::v_push_branch;
use crate::state::v_push_file;
use crate::state::v_push_repo;
use crate::state::v_set_flag;
use crate::state::v_top_branch;
use crate::state::v_top_file;
use crate::state::v_top_flag_branch;

verus! {

/// The precondition table and state effect of one operation. `None` means the
/// operation's preconditions are unsatisfiable in the given state; otherwise
/// the result is the state after the operation.
///
/// The rules mirror what the remote service demands of each call, read over
/// the stack model: inspections and listings need a target to exist; creating
/// a repo or a branch demands a fresh name within its owner; starting a
/// commit needs a branch with no open commit and finishing one needs a branch
/// with an open commit; deleting a commit needs the popped branch to have a
/// head (an open commit or at least one file); deleting a branch demands a
/// closed, non-empty head unless forced; and the whole-hierarchy deletions
/// always succeed, resetting the model.
pub open spec fn s_apply_op(s: Seq<RepoV>, op: OpV) -> Option<Seq<RepoV>> {
    match op {
        OpV::CreateRepo { name, update: _ } => {
            if v_has_repo(s, name) {
                None
            } else {
                Some(v_push_repo(s, name))
            }
        },
        OpV::InspectRepo => {
            if s.len() > 0 {
                Some(s)
            } else {
                None
            }
        },
        OpV::ListRepo => Some(s),
        OpV::DeleteRepo { force: _, all } => {
            if all {
                Some(Seq::empty())
            } else {
                match v_pop_repo(s) {
                    Some((_r, s2)) => Some(s2),
                    None => None,
                }
            }
        },
        OpV::StartCommit => v_set_flag(s, false, true),
        OpV::FinishCommit => v_set_flag(s, true, false),
        OpV::InspectCommit { .. } => {
            if v_top_branch(s) is Some {
                Some(s)
            } else {
                None
            }
        },
        OpV::ListCommit { .. } => {
            if s.len() > 0 {
                Some(s)
            } else {
                None
            }
        },
        OpV::DeleteCommit => {
            match v_pop_branch(s) {
                Some((b, s2)) => {
                    if b.open || b.files.len() > 0 {
                        Some(s2)
                    } else {
                        None
                    }
                },
                None => None,
            }
        },
        OpV::FlushCommit => {
            if v_top_flag_branch(s, false) is Some {
                Some(s)
            } else {
                None
            }
        },
        OpV::PutFile { path, .. } => v_push_file(s, path),
        OpV::GetFile { .. } => {
            if v_top_file(s) is Some {
                Some(s)
            } else {
                None
            }
        },
        OpV::InspectFile => {
            if v_top_file(s) is Some {
                Some(s)
            } else {
                None
            }
        },
        OpV::ListFile { .. } => {
            if v_top_branch(s) is Some {
                Some(s)
            } else {
                None
            }
        },
        OpV::WalkFile => {
            if v_top_branch(s) is Some {
                Some(s)
            } else {
                None
            }
        },
        OpV::GlobFile { .. } => {
            if v_top_branch(s) is Some {
                Some(s)
            } else {
                None
            }
        },
        OpV::DiffFile { .. } => s_pop_two_files(s),
        OpV::DeleteFile => {
            match v_pop_file(s) {
                Some((_f, s2)) => Some(s2),
                None => None,
            }
        },
        OpV::CreateBranch { name, new } => {
            if s.len() == 0 {
                None
            } else if !new && v_top_flag_branch(s, false) is None {
                None
            } else if v_has_branch(s.last(), name) {
                None
            } else {
                v_push_branch(s, name)
            }
        },
        OpV::InspectBranch => {
            if v_top_branch(s) is Some {
                Some(s)
            } else {
                None
            }
        },
        OpV::ListBranch { .. } => {
            if s.len() > 0 {
                Some(s)
            } else {
                None
            }
        },
        OpV::DeleteBranch { force } => {
            match v_pop_branch(s) {
                Some((b, s2)) => {
                    if force || (!b.open && b.files.len() > 0) {
                        Some(s2)
                    } else {
                        None
                    }
                },
                None => None,
            }
        },
        OpV::DeleteAll => Some(Seq::empty()),
    }
}

/// Folds the precondition table over a whole list: the state after running
/// every operation, or `None` as soon as one operation is unsatisfiable.
pub open spec fn s_apply_ops(s: Seq<RepoV>, ops: Seq<OpV>) -> Option<Seq<RepoV>>
    decreases ops.len(),
{
    if ops.len() == 0 {
        Some(s)
    } else {
        match s_apply_op(s, ops[0]) {
            Some(s2) => s_apply_ops(s2, ops.skip(1)),
            None => None,
        }
    }
}

/// Whether a candidate list is accepted: every operation's preconditions are
/// satisfiable starting from the empty shadow state.
pub open spec fn s_accepted(ops: Seq<OpV>) -> bool {
    s_apply_ops(Seq::empty(), ops) is Some
}

/// One satisfiable operation keeps the shadow state structurally consistent.
pub proof fn lemma_apply_op_preserves_wf(s: Seq<RepoV>, op: OpV)
    requires
        crate::state::v_state_wf(s),
        op_names_wf(op),
    ensures
        s_apply_op(s, op) matches Some(s2) ==> crate::state::v_state_wf(s2),
{
    match op {
        OpV::CreateRepo { name, .. } => {
            if !v_has_repo(s, name) {
                crate::state::lemma_push_repo_wf(s, name);
            }
        },
        OpV::DeleteRepo { force: _, all } => {
            if !all {
                crate::state::lemma_pop_repo_wf(s);
            }
        },
        OpV::StartCommit => {
            crate::state::lemma_set_flag_wf(s, false, true);
        },
        OpV::FinishCommit => {
            crate::state::lemma_set_flag_wf(s, true, false);
        },
        OpV::DeleteCommit => {
            crate::state::lemma_pop_branch_wf(s);
        },
        OpV::PutFile { path, .. } => {
            crate::state::lemma_push_file_wf(s, path);
        },
        OpV::DiffFile { .. } => {
            crate::state::lemma_pop_two_files_wf(s);
        },
        OpV::DeleteFile => {
            crate::state::lemma_pop_file_wf(s);
        },
        OpV::CreateBranch { name, new: _ } => {
            if s.len() > 0 && !v_has_branch(s.last(), name) {
                crate::state::lemma_push_branch_wf(s, name);
            }
        },
        OpV::DeleteBranch { force: _ } => {
            crate::state::lemma_pop_branch_wf(s);
        },
        _ => {},
    }
}

/// A whole satisfiable list keeps the shadow state structurally consistent.
pub proof fn lemma_apply_ops_preserves_wf(s: Seq<RepoV>, ops: Seq<OpV>)
    requires
        crate::state::v_state_wf(s),
        ops_names_wf(ops),
    ensures
        s_apply_ops(s, ops) matches Some(s2) ==> crate::state::v_state_wf(s2),
    decreases ops.len(),
{
    if ops.len() > 0 {
        lemma_apply_op_preserves_wf(s, ops[0]);
        match s_apply_op(s, ops[0]) {
            Some(s2) => {
                assert(ops_names_wf(ops.skip(1))) by {
                    assert(forall|i: int|
                        0 <= i < ops.skip(1).len() ==> ops.skip(1)[i] == ops[i + 1]);
                }
                lemma_apply_ops_preserves_wf(s2, ops.skip(1));
            },
            None => {},
        }
    }
}

/// Structural consistency holds after every accepted sequence: replaying an
/// accepted operation list against the empty shadow state yields a state in
/// which every branch carries its owner's name, every file carries its
/// owners' names, all names are well formed, and no two repos — and no two
/// branches of one repo — share a name.
pub proof fn lemma_accepted_state_wf(ops: Seq<OpV>)
    requires
        ops_names_wf(ops),
        s_accepted(ops),
    ensures
        s_apply_ops(Seq::empty(), ops) matches Some(s2) ==> crate::state::v_state_wf(s2),
{
    assert(crate::state::v_state_wf(Seq::empty()));
    lemma_apply_ops_preserves_wf(Seq::empty(), ops);
}

impl State {
    /// Checks one operation against the current model and advances the model
    /// exactly when the operation is satisfiable.
    pub fn apply_op(&mut self, op: &Op) -> (r: bool)
        ensures
            match s_apply_op(old(self)@, op@) {
                Some(s2) => r && final(self)@ == s2,
                None => !r && final(self)@ == old(self)@,
            },
    {
        match op {
            Op::CreateRepo { name, update: _ } => {
                if self.has_repo_named(name) {
                    false
                } else {
                    self.push_repo(name.dup());
                    true
                }
            },
            Op::InspectRepo => self.repos.len() > 0,
            Op::ListRepo => true,
            Op::DeleteRepo { force: _, all } => {
                if *all {
                    self.clear();
                    true
                } else {
                    match self.pop_repo() {
                        Some(_) => true,
                        None => false,
                    }
                }
            },
            Op::StartCommit => self.start_commit(),
            Op::FinishCommit => self.finish_commit(),
            Op::InspectCommit { .. } => self.branch().is_some(),
            Op::ListCommit { .. } => self.repos.len() > 0,
            Op::DeleteCommit => {
                let (open, file_count) = match self.branch() {
                    Some(b) => (b.open, b.files.len()),
                    None => {
                        return false;
                    },
                };
                if !open && file_count == 0 {
                    return false;
                }
                proof {
                    lemma_top_branch_pos_props(self@);
                }
                let popped = self.pop_branch();
                true
            },
            Op::FlushCommit => self.closed_branch().is_some(),
            Op::PutFile { path, .. } => self.push_file(path.dup()),
            Op::GetFile { .. } => self.file().is_some(),
            Op::InspectFile => self.file().is_some(),
            Op::ListFile { .. } => self.branch().is_some(),
            Op::WalkFile => self.branch().is_some(),
            Op::GlobFile { .. } => self.branch().is_some(),
            Op::DiffFile { .. } => self.pop_two_files().is_some(),
            Op::DeleteFile => {
                match self.pop_file() {
                    Some(_) => true,
                    None => false,
                }
            },
            Op::CreateBranch { name, new } => {
                if self.repos.len() == 0 {
                    return false;
                }
                if !*new && self.closed_branch().is_none() {
                    return false;
                }
                let i = self.repos.len() - 1;
                proof {
                    assert(self@[i as int] == self.repos@[i as int]@);
                    assert(self@.last() == self@[i as int]);
                }
                if self.repos[i].has_branch_named(name) {
                    return false;
                }
                self.create_branch(name.dup())
            },
            Op::InspectBranch => self.branch().is_some(),
            Op::ListBranch { .. } => self.repos.len() > 0,
            Op::DeleteBranch { force } => {
                let (open, file_count) = match self.branch() {
                    Some(b) => (b.open, b.files.len()),
                    None => {
                        return false;
                    },
                };
                if !*force && (open || file_count == 0) {
                    return false;
                }
                proof {
                    lemma_top_branch_pos_props(self@);
                }
                let popped = self.pop_branch();
                true
            },
            Op::DeleteAll => {
                self.clear();
                true
            },
        }
    }
}

impl crate::state::Repo {
    /// Whether some branch of this repo already carries the given name.
    pub fn has_branch_named(&self, name: &Name) -> (r: bool)
        ensures
            r == v_has_branch(self@, name@),
    {
        let mut i: usize = 0;
        while i < self.branches.len()
            invariant
                i <= self.branches@.len(),
                self@.branches.len() == self.branches@.len(),
                forall|m: int| 0 <= m < i ==> #[trigger] self@.branches[m].name != name@,
            decreases self.branches@.len() - i,
        {
            proof {
                assert(self@.branches[i as int] == self.branches@[i as int]@);
            }
            if crate::name::name_eq(&self.branches[i].name, name) {
                return true;
            }
            i = i + 1;
        }
        false
    }
}

/// Decides whether a whole candidate operation list is accepted: walks the
/// list once over a fresh projection of the shadow state, rejecting the list
/// outright at the first operation whose preconditions cannot hold.
pub fn validate(ops: &Vec<Op>) -> (r: bool)
    ensures
        r == s_accepted(ops_view(ops@)),
{
    let mut state = State::default();
    let mut i: usize = 0;
    proof {
        assert(ops_view(ops@).skip(0) =~= ops_view(ops@));
    }
    while i < ops.len()
        invariant
            i <= ops@.len(),
            s_apply_ops(Seq::empty(), ops_view(ops@)) == s_apply_ops(
                state@,
                ops_view(ops@).skip(i as int),
            ),
        decreases ops@.len() - i,
    {
        proof {
            assert(ops_view(ops@).skip(i as int)[0] == ops@[i as int]@);
            assert(ops_view(ops@).skip(i as int).skip(1) =~= ops_view(ops@).skip(i as int + 1));
        }
        let ok = state.apply_op(&ops[i]);
        if !ok {
            return false;
        }
        i = i + 1;
    }
    proof {
        assert(ops_view(ops@).skip(ops@.len() as int) =~= Seq::<OpV>::empty());
    }
    true
}

} // verus!
