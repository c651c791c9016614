//! The shadow state model: the harness's local belief about which repos,
//! branches and files exist on the remote service.
//!
//! Every level of the hierarchy is treated as a stack: operations always act
//! on the most recently created object of the relevant kind. This is a
//! deliberate simplification — it trades addressing generality for a state
//! space small enough that random sequences can be validated cheaply — and is
//! a known coverage limitation, not an oversight.

use vstd::prelude::*;

use crate::name::Name;

verus! {

/// The mathematical model of a tracked file: the names identifying where it
/// lives and its own path name.
#[verifier::ext_equal]
pub ghost struct FileV {
    pub repo_name: Seq<u8>,
    pub branch_name: Seq<u8>,
    pub name: Seq<u8>,
}

/// The mathematical model of a branch: its owner's name, its own name,
/// whether its head commit is currently open for writes, and the files of its
/// head lineage.
#[verifier::ext_equal]
pub ghost struct BranchV {
    pub repo_name: Seq<u8>,
    pub name: Seq<u8>,
    pub open: bool,
    pub files: Seq<FileV>,
}

/// The mathematical model of a repository: its name and its branches.
#[verifier::ext_equal]
pub ghost struct RepoV {
    pub name: Seq<u8>,
    pub branches: Seq<BranchV>,
}

/// A tracked file.
pub struct File {
    /// The repo that this file is in.
    pub repo_name: Name,
    /// The branch that this file is in.
    pub branch_name: Name,
    /// The path name of the file.
    pub name: Name,
}

/// A tracked branch.
pub struct Branch {
    /// The name of the repo this branch is in.
    pub repo_name: Name,
    /// The name of the branch.
    pub name: Name,
    /// Whether the branch has an open commit.
    pub open: bool,
    /// The files in the branch's head commit.
    pub files: Vec<File>,
}

/// A tracked repository.
pub struct Repo {
    /// The name of the repo.
    pub name: Name,
    /// The repo's branches.
    pub branches: Vec<Branch>,
}

/// The whole shadow state: the repos believed to exist, oldest first.
pub struct State {
    /// The repos expected to be present on the remote service.
    pub repos: Vec<Repo>,
}

impl View for File {
    type V = FileV;

    open spec fn view(&self) -> FileV {
        FileV { repo_name: self.repo_name@, branch_name: self.branch_name@, name: self.name@ }
    }
}

impl View for Branch {
    type V = BranchV;

    open spec fn view(&self) -> BranchV {
        BranchV {
            repo_name: self.repo_name@,
            name: self.name@,
            open: self.open,
            files: self.files@.map_values(|f: File| f@),
        }
    }
}

impl View for Repo {
    type V = RepoV;

    open spec fn view(&self) -> RepoV {
        RepoV { name: self.name@, branches: self.branches@.map_values(|b: Branch| b@) }
    }
}

impl View for State {
    type V = Seq<RepoV>;

    open spec fn view(&self) -> Seq<RepoV> {
        self.repos@.map_values(|r: Repo| r@)
    }
}

/// Whether some repo already carries the given name.
pub open spec fn v_has_repo(repos: Seq<RepoV>, name: Seq<u8>) -> bool {
    exists|i: int| 0 <= i < repos.len() && repos[i].name == name
}

/// Whether some branch of the repo already carries the given name.
pub open spec fn v_has_branch(repo: RepoV, name: Seq<u8>) -> bool {
    exists|j: int| 0 <= j < repo.branches.len() && repo.branches[j].name == name
}

/// The position of the most recent branch: the last branch of the last repo
/// that has any.
pub open spec fn top_branch_pos(repos: Seq<RepoV>) -> Option<(int, int)>
    decreases repos.len(),
{
    if repos.len() == 0 {
        None
    } else if repos.last().branches.len() > 0 {
        Some(((repos.len() - 1) as int, (repos.last().branches.len() - 1) as int))
    } else {
        top_branch_pos(repos.drop_last())
    }
}

/// The index of the most recent branch whose `open` flag has the given value,
/// within one repo's branch stack.
pub open spec fn top_flag_pos_in(branches: Seq<BranchV>, open: bool) -> Option<int>
    decreases branches.len(),
{
    if branches.len() == 0 {
        None
    } else if branches.last().open == open {
        Some((branches.len() - 1) as int)
    } else {
        top_flag_pos_in(branches.drop_last(), open)
    }
}

/// The position of the most recent branch whose `open` flag has the given
/// value, over the whole hierarchy.
pub open spec fn top_flag_pos(repos: Seq<RepoV>, open: bool) -> Option<(int, int)>
    decreases repos.len(),
{
    if repos.len() == 0 {
        None
    } else {
        match top_flag_pos_in(repos.last().branches, open) {
            Some(j) => Some(((repos.len() - 1) as int, j)),
            None => top_flag_pos(repos.drop_last(), open),
        }
    }
}

/// The position, within one repo's branch stack, of the most recent file:
/// the last file of the last branch that has any.
pub open spec fn top_file_pos_in(branches: Seq<BranchV>) -> Option<(int, int)>
    decreases branches.len(),
{
    if branches.len() == 0 {
        None
    } else if branches.last().files.len() > 0 {
        Some(((branches.len() - 1) as int, (branches.last().files.len() - 1) as int))
    } else {
        top_file_pos_in(branches.drop_last())
    }
}

/// The position of the most recent file over the whole hierarchy.
pub open spec fn top_file_pos(repos: Seq<RepoV>) -> Option<(int, int, int)>
    decreases repos.len(),
{
    if repos.len() == 0 {
        None
    } else {
        match top_file_pos_in(repos.last().branches) {
            Some((j, k)) => Some(((repos.len() - 1) as int, j, k)),
            None => top_file_pos(repos.drop_last()),
        }
    }
}

/// The most recent repo.
pub open spec fn v_top_repo(repos: Seq<RepoV>) -> Option<RepoV> {
    if repos.len() == 0 {
        None
    } else {
        Some(repos.last())
    }
}

/// The most recent branch.
pub open spec fn v_top_branch(repos: Seq<RepoV>) -> Option<BranchV> {
    match top_branch_pos(repos) {
        Some((i, j)) => Some(repos[i].branches[j]),
        None => None,
    }
}

/// The most recent branch whose `open` flag has the given value.
pub open spec fn v_top_flag_branch(repos: Seq<RepoV>, open: bool) -> Option<BranchV> {
    match top_flag_pos(repos, open) {
        Some((i, j)) => Some(repos[i].branches[j]),
        None => None,
    }
}

/// The most recent file.
pub open spec fn v_top_file(repos: Seq<RepoV>) -> Option<FileV> {
    match top_file_pos(repos) {
        Some((i, j, k)) => Some(repos[i].branches[j].files[k]),
        None => None,
    }
}

/// Adding a fresh repo with no branches.
pub open spec fn v_push_repo(repos: Seq<RepoV>, name: Seq<u8>) -> Seq<RepoV> {
    repos.push(RepoV { name: name, branches: Seq::empty() })
}

/// Removing the most recent repo, together with everything it owns.
pub open spec fn v_pop_repo(repos: Seq<RepoV>) -> Option<(RepoV, Seq<RepoV>)> {
    if repos.len() == 0 {
        None
    } else {
        Some((repos.last(), repos.drop_last()))
    }
}

/// Adding a fresh closed branch with no files to the most recent repo.
pub open spec fn v_push_branch(repos: Seq<RepoV>, name: Seq<u8>) -> Option<Seq<RepoV>> {
    if repos.len() == 0 {
        None
    } else {
        let r = repos.last();
        let b = BranchV { repo_name: r.name, name: name, open: false, files: Seq::empty() };
        Some(
            repos.update(
                repos.len() - 1,
                RepoV { name: r.name, branches: r.branches.push(b) },
            ),
        )
    }
}

/// Flipping the `open` flag of the most recent branch whose flag is `from`.
pub open spec fn v_set_flag(repos: Seq<RepoV>, from: bool, to: bool) -> Option<Seq<RepoV>> {
    match top_flag_pos(repos, from) {
        Some((i, j)) => {
            let r = repos[i];
            let b = r.branches[j];
            let b2 = BranchV { repo_name: b.repo_name, name: b.name, open: to, files: b.files };
            Some(repos.update(i, RepoV { name: r.name, branches: r.branches.update(j, b2) }))
        },
        None => None,
    }
}

/// Adding a file to the head of the most recent branch.
pub open spec fn v_push_file(repos: Seq<RepoV>, name: Seq<u8>) -> Option<Seq<RepoV>> {
    match top_branch_pos(repos) {
        Some((i, j)) => {
            let r = repos[i];
            let b = r.branches[j];
            let f = FileV { repo_name: b.repo_name, branch_name: b.name, name: name };
            let b2 = BranchV {
                repo_name: b.repo_name,
                name: b.name,
                open: b.open,
                files: b.files.push(f),
            };
            Some(repos.update(i, RepoV { name: r.name, branches: r.branches.update(j, b2) }))
        },
        None => None,
    }
}

/// Removing the most recent branch, returning it.
pub open spec fn v_pop_branch(repos: Seq<RepoV>) -> Option<(BranchV, Seq<RepoV>)> {
    match top_branch_pos(repos) {
        Some((i, j)) => {
            let r = repos[i];
            Some(
                (
                    r.branches[j],
                    repos.update(i, RepoV { name: r.name, branches: r.branches.drop_last() }),
                ),
            )
        },
        None => None,
    }
}

/// Removing the most recent file, returning it.
pub open spec fn v_pop_file(repos: Seq<RepoV>) -> Option<(FileV, Seq<RepoV>)> {
    match top_file_pos(repos) {
        Some((i, j, k)) => {
            let r = repos[i];
            let b = r.branches[j];
            let b2 = BranchV {
                repo_name: b.repo_name,
                name: b.name,
                open: b.open,
                files: b.files.drop_last(),
            };
            Some(
                (
                    b.files[k],
                    repos.update(i, RepoV { name: r.name, branches: r.branches.update(j, b2) }),
                ),
            )
        },
        None => None,
    }
}

/// A tracked file is well formed when it carries its owners' names and a
/// well-formed name of its own.
pub open spec fn v_file_wf(repo_name: Seq<u8>, branch_name: Seq<u8>, f: FileV) -> bool {
    &&& f.repo_name == repo_name
    &&& f.branch_name == branch_name
    &&& crate::name::name_wf(f.name)
}

/// A tracked branch is well formed when it carries its owner's name, its own
/// name is well formed, and every file of its head is well formed.
pub open spec fn v_branch_wf(repo_name: Seq<u8>, b: BranchV) -> bool {
    &&& b.repo_name == repo_name
    &&& crate::name::name_wf(b.name)
    &&& forall|k: int|
        0 <= k < b.files.len() ==> v_file_wf(repo_name, b.name, #[trigger] b.files[k])
}

/// A tracked repo is well formed when its name is well formed, every branch
/// is well formed, and no two branches share a name.
pub open spec fn v_repo_wf(r: RepoV) -> bool {
    &&& crate::name::name_wf(r.name)
    &&& forall|j: int| 0 <= j < r.branches.len() ==> v_branch_wf(r.name, #[trigger] r.branches[j])
    &&& forall|j: int, j2: int|
        #![trigger r.branches[j], r.branches[j2]]
        0 <= j < j2 < r.branches.len() ==> r.branches[j].name != r.branches[j2].name
}

/// Structural consistency of the whole shadow state: every repo is well
/// formed and no two repos share a name. This is the local counterpart of the
/// remote service's own integrity rules.
pub open spec fn v_state_wf(s: Seq<RepoV>) -> bool {
    &&& forall|i: int| 0 <= i < s.len() ==> v_repo_wf(#[trigger] s[i])
    &&& forall|i: int, i2: int|
        #![trigger s[i], s[i2]]
        0 <= i < i2 < s.len() ==> s[i].name != s[i2].name
}

/// Removing the two most recent files, as a file diff demands: the state
/// after both removals, or `None` if fewer than two files are tracked.
pub open spec fn s_pop_two_files(s: Seq<RepoV>) -> Option<Seq<RepoV>> {
    match v_pop_file(s) {
        Some((_f1, s2)) => match v_pop_file(s2) {
            Some((_f2, s3)) => Some(s3),
            None => None,
        },
        None => None,
    }
}

/// In a well-formed state, every object a stack accessor can return carries
/// well-formed names.
pub proof fn lemma_tops_wf(s: Seq<RepoV>)
    requires
        v_state_wf(s),
    ensures
        v_top_repo(s) matches Some(r) ==> crate::name::name_wf(r.name),
        v_top_branch(s) matches Some(b) ==> crate::name::name_wf(b.repo_name)
            && crate::name::name_wf(b.name),
        v_top_flag_branch(s, true) matches Some(b) ==> crate::name::name_wf(b.repo_name)
            && crate::name::name_wf(b.name),
        v_top_flag_branch(s, false) matches Some(b) ==> crate::name::name_wf(b.repo_name)
            && crate::name::name_wf(b.name),
        v_top_file(s) matches Some(f) ==> crate::name::name_wf(f.repo_name)
            && crate::name::name_wf(f.branch_name) && crate::name::name_wf(f.name),
{
    lemma_top_branch_pos_props(s);
    lemma_top_flag_pos_props(s, true);
    lemma_top_flag_pos_props(s, false);
    lemma_top_file_pos_props(s);
    if s.len() > 0 {
        assert(v_repo_wf(s[s.len() - 1]));
    }
    match top_branch_pos(s) {
        Some((i, j)) => {
            assert(v_repo_wf(s[i]));
            assert(v_branch_wf(s[i].name, s[i].branches[j]));
        },
        None => {},
    }
    match top_flag_pos(s, true) {
        Some((i, j)) => {
            assert(v_repo_wf(s[i]));
            assert(v_branch_wf(s[i].name, s[i].branches[j]));
        },
        None => {},
    }
    match top_flag_pos(s, false) {
        Some((i, j)) => {
            assert(v_repo_wf(s[i]));
            assert(v_branch_wf(s[i].name, s[i].branches[j]));
        },
        None => {},
    }
    match top_file_pos(s) {
        Some((i, j, k)) => {
            assert(v_repo_wf(s[i]));
            assert(v_branch_wf(s[i].name, s[i].branches[j]));
            assert(v_file_wf(s[i].name, s[i].branches[j].name, s[i].branches[j].files[k]));
        },
        None => {},
    }
}

/// Adding a repo under a fresh well-formed name keeps the state well formed.
pub proof fn lemma_push_repo_wf(s: Seq<RepoV>, name: Seq<u8>)
    requires
        v_state_wf(s),
        crate::name::name_wf(name),
        !v_has_repo(s, name),
    ensures
        v_state_wf(v_push_repo(s, name)),
{
    let s2 = v_push_repo(s, name);
    assert forall|i: int| 0 <= i < s2.len() implies v_repo_wf(#[trigger] s2[i]) by {
        if i < s.len() {
            assert(s2[i] == s[i]);
        }
    }
    assert forall|i: int, i2: int|
        #![trigger s2[i], s2[i2]]
        0 <= i < i2 < s2.len() implies s2[i].name != s2[i2].name by {
        if i2 < s.len() {
            assert(s2[i] == s[i] && s2[i2] == s[i2]);
        } else {
            assert(s2[i] == s[i]);
            assert(!(0 <= i < s.len() && s[i].name == name));
        }
    }
}

/// Removing the top repo keeps the state well formed.
pub proof fn lemma_pop_repo_wf(s: Seq<RepoV>)
    requires
        v_state_wf(s),
    ensures
        v_pop_repo(s) matches Some((_r, s2)) ==> v_state_wf(s2),
{
}

/// Flipping one branch's `open` flag keeps the state well formed.
pub proof fn lemma_set_flag_wf(s: Seq<RepoV>, from: bool, to: bool)
    requires
        v_state_wf(s),
    ensures
        v_set_flag(s, from, to) matches Some(s2) ==> v_state_wf(s2),
{
    lemma_top_flag_pos_props(s, from);
    match top_flag_pos(s, from) {
        Some((i, j)) => {
            let s2 = v_set_flag(s, from, to)->Some_0;
            let r = s[i];
            let b = r.branches[j];
            assert forall|m: int| 0 <= m < s2.len() implies v_repo_wf(#[trigger] s2[m]) by {
                if m == i {
                    assert(s2[m].name == r.name);
                    assert(s2[m].branches.len() == r.branches.len());
                    assert forall|n: int|
                        0 <= n < s2[m].branches.len() implies v_branch_wf(
                        s2[m].name,
                        #[trigger] s2[m].branches[n],
                    ) by {
                        if n != j {
                            assert(s2[m].branches[n] == r.branches[n]);
                        } else {
                            assert(v_branch_wf(r.name, b));
                            assert(s2[m].branches[n].name == b.name);
                            assert(s2[m].branches[n].repo_name == b.repo_name);
                            assert(s2[m].branches[n].files == b.files);
                        }
                    }
                    assert forall|n: int, n2: int|
                        #![trigger s2[m].branches[n], s2[m].branches[n2]]
                        0 <= n < n2 < s2[m].branches.len() implies s2[m].branches[n].name
                        != s2[m].branches[n2].name by {
                        assert(s2[m].branches[n].name == r.branches[n].name);
                        assert(s2[m].branches[n2].name == r.branches[n2].name);
                    }
                } else {
                    assert(s2[m] == s[m]);
                }
            }
            assert forall|m: int, m2: int|
                #![trigger s2[m], s2[m2]]
                0 <= m < m2 < s2.len() implies s2[m].name != s2[m2].name by {
                assert(s2[m].name == s[m].name);
                assert(s2[m2].name == s[m2].name);
            }
        },
        None => {},
    }
}

/// Adding a well-formed file to the top branch keeps the state well formed.
pub proof fn lemma_push_file_wf(s: Seq<RepoV>, name: Seq<u8>)
    requires
        v_state_wf(s),
        crate::name::name_wf(name),
    ensures
        v_push_file(s, name) matches Some(s2) ==> v_state_wf(s2),
{
    lemma_top_branch_pos_props(s);
    match top_branch_pos(s) {
        Some((i, j)) => {
            let s2 = v_push_file(s, name)->Some_0;
            let r = s[i];
            let b = r.branches[j];
            assert forall|m: int| 0 <= m < s2.len() implies v_repo_wf(#[trigger] s2[m]) by {
                if m == i {
                    assert(s2[m].name == r.name);
                    assert forall|n: int|
                        0 <= n < s2[m].branches.len() implies v_branch_wf(
                        s2[m].name,
                        #[trigger] s2[m].branches[n],
                    ) by {
                        if n != j {
                            assert(s2[m].branches[n] == r.branches[n]);
                        } else {
                            assert(v_branch_wf(r.name, b));
                            let b2 = s2[m].branches[n];
                            assert forall|k: int|
                                0 <= k < b2.files.len() implies v_file_wf(
                                r.name,
                                b2.name,
                                #[trigger] b2.files[k],
                            ) by {
                                if k < b.files.len() {
                                    assert(b2.files[k] == b.files[k]);
                                    assert(v_file_wf(r.name, b.name, b.files[k]));
                                }
                            }
                        }
                    }
                    assert forall|n: int, n2: int|
                        #![trigger s2[m].branches[n], s2[m].branches[n2]]
                        0 <= n < n2 < s2[m].branches.len() implies s2[m].branches[n].name
                        != s2[m].branches[n2].name by {
                        assert(s2[m].branches[n].name == r.branches[n].name);
                        assert(s2[m].branches[n2].name == r.branches[n2].name);
                    }
                } else {
                    assert(s2[m] == s[m]);
                }
            }
            assert forall|m: int, m2: int|
                #![trigger s2[m], s2[m2]]
                0 <= m < m2 < s2.len() implies s2[m].name != s2[m2].name by {
                assert(s2[m].name == s[m].name);
                assert(s2[m2].name == s[m2].name);
            }
        },
        None => {},
    }
}

/// Adding a branch under a name fresh within the top repo keeps the state
/// well formed.
pub proof fn lemma_push_branch_wf(s: Seq<RepoV>, name: Seq<u8>)
    requires
        v_state_wf(s),
        crate::name::name_wf(name),
        s.len() > 0 ==> !v_has_branch(s.last(), name),
    ensures
        v_push_branch(s, name) matches Some(s2) ==> v_state_wf(s2),
{
    if s.len() > 0 {
        let i = s.len() - 1;
        let s2 = v_push_branch(s, name)->Some_0;
        let r = s[i];
        assert forall|m: int| 0 <= m < s2.len() implies v_repo_wf(#[trigger] s2[m]) by {
            if m == i {
                assert(v_repo_wf(r));
                assert(s2[m].name == r.name);
                assert forall|n: int|
                    0 <= n < s2[m].branches.len() implies v_branch_wf(
                    s2[m].name,
                    #[trigger] s2[m].branches[n],
                ) by {
                    if n < r.branches.len() {
                        assert(s2[m].branches[n] == r.branches[n]);
                    }
                }
                assert forall|n: int, n2: int|
                    #![trigger s2[m].branches[n], s2[m].branches[n2]]
                    0 <= n < n2 < s2[m].branches.len() implies s2[m].branches[n].name
                    != s2[m].branches[n2].name by {
                    if n2 < r.branches.len() {
                        assert(s2[m].branches[n] == r.branches[n]);
                        assert(s2[m].branches[n2] == r.branches[n2]);
                    } else {
                        assert(s2[m].branches[n] == r.branches[n]);
                        assert(!(0 <= n < r.branches.len() && r.branches[n].name == name));
                    }
                }
            } else {
                assert(s2[m] == s[m]);
            }
        }
        assert forall|m: int, m2: int|
            #![trigger s2[m], s2[m2]]
            0 <= m < m2 < s2.len() implies s2[m].name != s2[m2].name by {
            assert(s2[m].name == s[m].name);
            assert(s2[m2].name == s[m2].name);
        }
    }
}

/// Removing the top branch keeps the state well formed.
pub proof fn lemma_pop_branch_wf(s: Seq<RepoV>)
    requires
        v_state_wf(s),
    ensures
        v_pop_branch(s) matches Some((_b, s2)) ==> v_state_wf(s2),
{
    lemma_top_branch_pos_props(s);
    match top_branch_pos(s) {
        Some((i, j)) => {
            let s2 = v_pop_branch(s)->Some_0.1;
            let r = s[i];
            assert forall|m: int| 0 <= m < s2.len() implies v_repo_wf(#[trigger] s2[m]) by {
                if m == i {
                    assert(v_repo_wf(r));
                    assert(s2[m].name == r.name);
                    assert forall|n: int|
                        0 <= n < s2[m].branches.len() implies v_branch_wf(
                        s2[m].name,
                        #[trigger] s2[m].branches[n],
                    ) by {
                        assert(s2[m].branches[n] == r.branches[n]);
                    }
                    assert forall|n: int, n2: int|
                        #![trigger s2[m].branches[n], s2[m].branches[n2]]
                        0 <= n < n2 < s2[m].branches.len() implies s2[m].branches[n].name
                        != s2[m].branches[n2].name by {
                        assert(s2[m].branches[n] == r.branches[n]);
                        assert(s2[m].branches[n2] == r.branches[n2]);
                    }
                } else {
                    assert(s2[m] == s[m]);
                }
            }
            assert forall|m: int, m2: int|
                #![trigger s2[m], s2[m2]]
                0 <= m < m2 < s2.len() implies s2[m].name != s2[m2].name by {
                assert(s2[m].name == s[m].name);
                assert(s2[m2].name == s[m2].name);
            }
        },
        None => {},
    }
}

/// Removing the top file keeps the state well formed.
pub proof fn lemma_pop_file_wf(s: Seq<RepoV>)
    requires
        v_state_wf(s),
    ensures
        v_pop_file(s) matches Some((_f, s2)) ==> v_state_wf(s2),
{
    lemma_top_file_pos_props(s);
    match top_file_pos(s) {
        Some((i, j, _k)) => {
            let s2 = v_pop_file(s)->Some_0.1;
            let r = s[i];
            let b = r.branches[j];
            assert forall|m: int| 0 <= m < s2.len() implies v_repo_wf(#[trigger] s2[m]) by {
                if m == i {
                    assert(v_repo_wf(r));
                    assert(s2[m].name == r.name);
                    assert forall|n: int|
                        0 <= n < s2[m].branches.len() implies v_branch_wf(
                        s2[m].name,
                        #[trigger] s2[m].branches[n],
                    ) by {
                        if n != j {
                            assert(s2[m].branches[n] == r.branches[n]);
                        } else {
                            assert(v_branch_wf(r.name, b));
                            let b2 = s2[m].branches[n];
                            assert forall|k: int|
                                0 <= k < b2.files.len() implies v_file_wf(
                                r.name,
                                b2.name,
                                #[trigger] b2.files[k],
                            ) by {
                                assert(b2.files[k] == b.files[k]);
                                assert(v_file_wf(r.name, b.name, b.files[k]));
                            }
                        }
                    }
                    assert forall|n: int, n2: int|
                        #![trigger s2[m].branches[n], s2[m].branches[n2]]
                        0 <= n < n2 < s2[m].branches.len() implies s2[m].branches[n].name
                        != s2[m].branches[n2].name by {
                        assert(s2[m].branches[n].name == r.branches[n].name);
                        assert(s2[m].branches[n2].name == r.branches[n2].name);
                    }
                } else {
                    assert(s2[m] == s[m]);
                }
            }
            assert forall|m: int, m2: int|
                #![trigger s2[m], s2[m2]]
                0 <= m < m2 < s2.len() implies s2[m].name != s2[m2].name by {
                assert(s2[m].name == s[m].name);
                assert(s2[m2].name == s[m2].name);
            }
        },
        None => {},
    }
}

/// Removing the two most recent files keeps the state well formed.
pub proof fn lemma_pop_two_files_wf(s: Seq<RepoV>)
    requires
        v_state_wf(s),
    ensures
        s_pop_two_files(s) matches Some(s3) ==> v_state_wf(s3),
{
    lemma_pop_file_wf(s);
    match v_pop_file(s) {
        Some((_f, s2)) => {
            lemma_pop_file_wf(s2);
        },
        None => {},
    }
}

/// A branch position returned by `top_flag_pos_in` is in range and its branch
/// has the requested flag.
pub proof fn lemma_top_flag_pos_in_props(branches: Seq<BranchV>, open: bool)
    ensures
        top_flag_pos_in(branches, open) matches Some(j) ==> 0 <= j < branches.len()
            && branches[j].open == open,
    decreases branches.len(),
{
    if branches.len() > 0 && branches.last().open != open {
        lemma_top_flag_pos_in_props(branches.drop_last(), open);
    }
}

/// A position returned by `top_flag_pos` is in range and names a branch with
/// the requested flag.
pub proof fn lemma_top_flag_pos_props(repos: Seq<RepoV>, open: bool)
    ensures
        top_flag_pos(repos, open) matches Some((i, j)) ==> 0 <= i < repos.len() && 0 <= j
            < repos[i].branches.len() && repos[i].branches[j].open == open,
    decreases repos.len(),
{
    if repos.len() > 0 {
        lemma_top_flag_pos_in_props(repos.last().branches, open);
        if top_flag_pos_in(repos.last().branches, open) is None {
            lemma_top_flag_pos_props(repos.drop_last(), open);
        }
    }
}

/// A position returned by `top_branch_pos` is in range and names the last
/// branch of its repo.
pub proof fn lemma_top_branch_pos_props(repos: Seq<RepoV>)
    ensures
        top_branch_pos(repos) matches Some((i, j)) ==> 0 <= i < repos.len()
            && repos[i].branches.len() > 0 && j == repos[i].branches.len() - 1,
    decreases repos.len(),
{
    if repos.len() > 0 && repos.last().branches.len() == 0 {
        lemma_top_branch_pos_props(repos.drop_last());
    }
}

/// A position returned by `top_file_pos_in` is in range and names the last
/// file of its branch.
pub proof fn lemma_top_file_pos_in_props(branches: Seq<BranchV>)
    ensures
        top_file_pos_in(branches) matches Some((j, k)) ==> 0 <= j < branches.len()
            && branches[j].files.len() > 0 && k == branches[j].files.len() - 1,
    decreases branches.len(),
{
    if branches.len() > 0 && branches.last().files.len() == 0 {
        lemma_top_file_pos_in_props(branches.drop_last());
    }
}

/// A position returned by `top_file_pos` is in range and names the last file
/// of its branch.
pub proof fn lemma_top_file_pos_props(repos: Seq<RepoV>)
    ensures
        top_file_pos(repos) matches Some((i, j, k)) ==> 0 <= i < repos.len() && 0 <= j
            < repos[i].branches.len() && repos[i].branches[j].files.len() > 0 && k
            == repos[i].branches[j].files.len() - 1,
    decreases repos.len(),
{
    if repos.len() > 0 {
        lemma_top_file_pos_in_props(repos.last().branches);
        if top_file_pos_in(repos.last().branches) is None {
            lemma_top_file_pos_props(repos.drop_last());
        }
    }
}

impl Default for State {
    /// A fresh shadow state tracks nothing.
    fn default() -> (s: State)
        ensures
            s@ == Seq::<RepoV>::empty(),
    {
        let s = State { repos: Vec::new() };
        proof {
            assert(s@ =~= Seq::<RepoV>::empty());
        }
        s
    }
}

impl Branch {
    /// Adds a file to the branch's head.
    pub fn push_file(&mut self, name: Name)
        ensures
            final(self)@.repo_name == old(self)@.repo_name,
            final(self)@.name == old(self)@.name,
            final(self)@.open == old(self)@.open,
            final(self)@.files == old(self)@.files.push(
                (FileV {
                    repo_name: old(self)@.repo_name,
                    branch_name: old(self)@.name,
                    name: name@,
                }),
            ),
    {
        let f = File { repo_name: self.repo_name.dup(), branch_name: self.name.dup(), name };
        self.files.push(f);
        proof {
            assert(self@.files =~= old(self)@.files.push(
                FileV {
                    repo_name: old(self)@.repo_name,
                    branch_name: old(self)@.name,
                    name: name@,
                },
            ));
        }
    }
}

impl Repo {
    /// Adds a fresh closed branch with no files to the repo.
    pub fn push_branch(&mut self, name: Name)
        ensures
            final(self)@.name == old(self)@.name,
            final(self)@.branches == old(self)@.branches.push(
                (BranchV {
                    repo_name: old(self)@.name,
                    name: name@,
                    open: false,
                    files: Seq::empty(),
                }),
            ),
    {
        let b = Branch {
            repo_name: self.name.dup(),
            name,
            open: false,
            files: Vec::new(),
        };
        self.branches.push(b);
        proof {
            assert(self@.branches =~~= old(self)@.branches.push(
                BranchV {
                    repo_name: old(self)@.name,
                    name: name@,
                    open: false,
                    files: Seq::empty(),
                },
            ));
        }
    }

    /// Finds the index of the most recent branch whose `open` flag equals
    /// `open`, if any.
    fn find_flag_branch(&self, open: bool) -> (r: Option<usize>)
        ensures
            match r {
                Some(j) => top_flag_pos_in(self@.branches, open) == Some(j as int),
                None => top_flag_pos_in(self@.branches, open) is None,
            },
    {
        let mut i: usize = self.branches.len();
        proof {
            assert(self@.branches.subrange(0, i as int) =~= self@.branches);
        }
        while i > 0
            invariant
                i <= self.branches@.len(),
                self@.branches.len() == self.branches@.len(),
                top_flag_pos_in(self@.branches, open) == top_flag_pos_in(
                    self@.branches.subrange(0, i as int),
                    open,
                ),
            decreases i,
        {
            proof {
                assert(self@.branches.subrange(0, i as int).last() == self@.branches[i - 1]);
                assert(self@.branches[i - 1] == self.branches@[i - 1]@);
            }
            if self.branches[i - 1].open == open {
                return Some(i - 1);
            }
            proof {
                assert(self@.branches.subrange(0, i as int).drop_last() =~= self@.branches
                    .subrange(0, i as int - 1));
            }
            i = i - 1;
        }
        None
    }

    /// Finds the position of the most recent file within this repo, if any.
    fn find_file(&self) -> (r: Option<(usize, usize)>)
        ensures
            match r {
                Some((j, k)) => top_file_pos_in(self@.branches) == Some((j as int, k as int)),
                None => top_file_pos_in(self@.branches) is None,
            },
    {
        let mut i: usize = self.branches.len();
        proof {
            assert(self@.branches.subrange(0, i as int) =~= self@.branches);
        }
        while i > 0
            invariant
                i <= self.branches@.len(),
                self@.branches.len() == self.branches@.len(),
                top_file_pos_in(self@.branches) == top_file_pos_in(
                    self@.branches.subrange(0, i as int),
                ),
            decreases i,
        {
            proof {
                assert(self@.branches.subrange(0, i as int).last() == self@.branches[i - 1]);
                assert(self@.branches[i - 1] == self.branches@[i - 1]@);
            }
            if self.branches[i - 1].files.len() > 0 {
                return Some((i - 1, self.branches[i - 1].files.len() - 1));
            }
            proof {
                assert(self@.branches[i - 1].files.len() == 0);
                assert(self@.branches.subrange(0, i as int).drop_last() =~= self@.branches
                    .subrange(0, i as int - 1));
            }
            i = i - 1;
        }
        None
    }
}

impl State {
    /// Finds the position of the most recent branch, if any.
    fn find_top_branch(&self) -> (r: Option<(usize, usize)>)
        ensures
            match r {
                Some((i, j)) => top_branch_pos(self@) == Some((i as int, j as int)),
                None => top_branch_pos(self@) is None,
            },
    {
        let mut i: usize = self.repos.len();
        proof {
            assert(self@.subrange(0, i as int) =~= self@);
        }
        while i > 0
            invariant
                i <= self.repos@.len(),
                self@.len() == self.repos@.len(),
                top_branch_pos(self@) == top_branch_pos(self@.subrange(0, i as int)),
            decreases i,
        {
            proof {
                assert(self@.subrange(0, i as int).last() == self@[i - 1]);
                assert(self@[i - 1] == self.repos@[i - 1]@);
            }
            if self.repos[i - 1].branches.len() > 0 {
                return Some((i - 1, self.repos[i - 1].branches.len() - 1));
            }
            proof {
                assert(self@[i - 1].branches.len() == 0);
                assert(self@.subrange(0, i as int).drop_last() =~= self@.subrange(
                    0,
                    i as int - 1,
                ));
            }
            i = i - 1;
        }
        None
    }

    /// Finds the position of the most recent branch whose `open` flag equals
    /// `open`, if any.
    fn find_flag(&self, open: bool) -> (r: Option<(usize, usize)>)
        ensures
            match r {
                Some((i, j)) => top_flag_pos(self@, open) == Some((i as int, j as int)),
                None => top_flag_pos(self@, open) is None,
            },
    {
        let mut i: usize = self.repos.len();
        proof {
            assert(self@.subrange(0, i as int) =~= self@);
        }
        while i > 0
            invariant
                i <= self.repos@.len(),
                self@.len() == self.repos@.len(),
                top_flag_pos(self@, open) == top_flag_pos(self@.subrange(0, i as int), open),
            decreases i,
        {
            proof {
                assert(self@.subrange(0, i as int).last() == self@[i - 1]);
                assert(self@[i - 1] == self.repos@[i - 1]@);
            }
            if let Some(j) = self.repos[i - 1].find_flag_branch(open) {
                return Some((i - 1, j));
            }
            proof {
                assert(self@.subrange(0, i as int).drop_last() =~= self@.subrange(
                    0,
                    i as int - 1,
                ));
            }
            i = i - 1;
        }
        None
    }

    /// Finds the position of the most recent file, if any.
    fn find_top_file(&self) -> (r: Option<(usize, usize, usize)>)
        ensures
            match r {
                Some((i, j, k)) => top_file_pos(self@) == Some((i as int, j as int, k as int)),
                None => top_file_pos(self@) is None,
            },
    {
        let mut i: usize = self.repos.len();
        proof {
            assert(self@.subrange(0, i as int) =~= self@);
        }
        while i > 0
            invariant
                i <= self.repos@.len(),
                self@.len() == self.repos@.len(),
                top_file_pos(self@) == top_file_pos(self@.subrange(0, i as int)),
            decreases i,
        {
            proof {
                assert(self@.subrange(0, i as int).last() == self@[i - 1]);
                assert(self@[i - 1] == self.repos@[i - 1]@);
            }
            if let Some((j, k)) = self.repos[i - 1].find_file() {
                return Some((i - 1, j, k));
            }
            proof {
                assert(self@.subrange(0, i as int).drop_last() =~= self@.subrange(
                    0,
                    i as int - 1,
                ));
            }
            i = i - 1;
        }
        None
    }

    /// Gets the top repo.
    pub fn repo(&self) -> (r: Option<&Repo>)
        ensures
            match r {
                Some(rp) => v_top_repo(self@) == Some(rp@),
                None => v_top_repo(self@) is None,
            },
    {
        if self.repos.len() == 0 {
            None
        } else {
            let r = &self.repos[self.repos.len() - 1];
            proof {
                assert(self@.last() == r@);
            }
            Some(r)
        }
    }

    /// Adds a new repo with no branches.
    pub fn push_repo(&mut self, name: Name)
        ensures
            final(self)@ == v_push_repo(old(self)@, name@),
    {
        self.repos.push(Repo { name: name, branches: Vec::new() });
        proof {
            assert(self@ =~~= v_push_repo(old(self)@, name@));
        }
    }

    /// Removes and returns the top repo.
    pub fn pop_repo(&mut self) -> (r: Option<Repo>)
        ensures
            match r {
                Some(rp) => {
                    &&& v_pop_repo(old(self)@) matches Some((top, rest))
                    &&& rp@ == top
                    &&& final(self)@ == rest
                },
                None => v_pop_repo(old(self)@) is None && final(self)@ == old(self)@,
            },
    {
        let r = self.repos.pop();
        proof {
            if old(self).repos@.len() > 0 {
                assert(self@ =~~= old(self)@.drop_last());
            }
        }
        r
    }

    /// Empties the shadow state, mirroring a whole-cluster wipe.
    pub fn clear(&mut self)
        ensures
            final(self)@ == Seq::<RepoV>::empty(),
    {
        self.repos = Vec::new();
        proof {
            assert(self@ =~= Seq::<RepoV>::empty());
        }
    }

    /// Whether some repo already carries the given name.
    pub fn has_repo_named(&self, name: &Name) -> (r: bool)
        ensures
            r == v_has_repo(self@, name@),
    {
        let mut i: usize = 0;
        while i < self.repos.len()
            invariant
                i <= self.repos@.len(),
                self@.len() == self.repos@.len(),
                forall|m: int| 0 <= m < i ==> #[trigger] self@[m].name != name@,
            decreases self.repos@.len() - i,
        {
            proof {
                assert(self@[i as int] == self.repos@[i as int]@);
            }
            if crate::name::name_eq(&self.repos[i].name, name) {
                return true;
            }
            i = i + 1;
        }
        false
    }

    /// Gets the top branch.
    pub fn branch(&self) -> (r: Option<&Branch>)
        ensures
            match r {
                Some(b) => v_top_branch(self@) == Some(b@),
                None => v_top_branch(self@) is None,
            },
    {
        match self.find_top_branch() {
            Some((i, j)) => {
                proof {
                    lemma_top_branch_pos_props(self@);
                    assert(self@[i as int] == self.repos@[i as int]@);
                    assert(self@[i as int].branches[j as int]
                        == self.repos@[i as int].branches@[j as int]@);
                }
                Some(&self.repos[i].branches[j])
            },
            None => None,
        }
    }

    /// Gets the top branch with an open commit.
    pub fn open_branch(&self) -> (r: Option<&Branch>)
        ensures
            match r {
                Some(b) => v_top_flag_branch(self@, true) == Some(b@),
                None => v_top_flag_branch(self@, true) is None,
            },
    {
        match self.find_flag(true) {
            Some((i, j)) => {
                proof {
                    lemma_top_flag_pos_props(self@, true);
                    assert(self@[i as int] == self.repos@[i as int]@);
                    assert(self@[i as int].branches[j as int]
                        == self.repos@[i as int].branches@[j as int]@);
                }
                Some(&self.repos[i].branches[j])
            },
            None => None,
        }
    }

    /// Gets the top branch without an open commit.
    pub fn closed_branch(&self) -> (r: Option<&Branch>)
        ensures
            match r {
                Some(b) => v_top_flag_branch(self@, false) == Some(b@),
                None => v_top_flag_branch(self@, false) is None,
            },
    {
        match self.find_flag(false) {
            Some((i, j)) => {
                proof {
                    lemma_top_flag_pos_props(self@, false);
                    assert(self@[i as int] == self.repos@[i as int]@);
                    assert(self@[i as int].branches[j as int]
                        == self.repos@[i as int].branches@[j as int]@);
                }
                Some(&self.repos[i].branches[j])
            },
            None => None,
        }
    }

    /// Gets the top file.
    pub fn file(&self) -> (r: Option<&File>)
        ensures
            match r {
                Some(f) => v_top_file(self@) == Some(f@),
                None => v_top_file(self@) is None,
            },
    {
        match self.find_top_file() {
            Some((i, j, k)) => {
                proof {
                    lemma_top_file_pos_props(self@);
                    assert(self@[i as int] == self.repos@[i as int]@);
                    assert(self@[i as int].branches[j as int]
                        == self.repos@[i as int].branches@[j as int]@);
                    assert(self@[i as int].branches[j as int].files[k as int]
                        == self.repos@[i as int].branches@[j as int].files@[k as int]@);
                }
                Some(&self.repos[i].branches[j].files[k])
            },
            None => None,
        }
    }

    /// Opens a commit on the top closed branch, if one exists.
    pub fn start_commit(&mut self) -> (r: bool)
        ensures
            match v_set_flag(old(self)@, false, true) {
                Some(s2) => r && final(self)@ == s2,
                None => !r && final(self)@ == old(self)@,
            },
    {
        self.set_flag(false, true)
    }

    /// Closes the commit on the top open branch, if one exists.
    pub fn finish_commit(&mut self) -> (r: bool)
        ensures
            match v_set_flag(old(self)@, true, false) {
                Some(s2) => r && final(self)@ == s2,
                None => !r && final(self)@ == old(self)@,
            },
    {
        self.set_flag(true, false)
    }

    /// Flips the `open` flag of the most recent branch whose flag is `from`.
    fn set_flag(&mut self, from: bool, to: bool) -> (r: bool)
        ensures
            match v_set_flag(old(self)@, from, to) {
                Some(s2) => r && final(self)@ == s2,
                None => !r && final(self)@ == old(self)@,
            },
    {
        match self.find_flag(from) {
            Some((i, j)) => {
                proof {
                    lemma_top_flag_pos_props(self@, from);
                    assert(self@[i as int] == self.repos@[i as int]@);
                    assert(self@[i as int].branches[j as int]
                        == self.repos@[i as int].branches@[j as int]@);
                }
                let repo = &mut self.repos[i];
                let branch = &mut repo.branches[j];
                branch.open = to;
                proof {
                    let target = v_set_flag(old(self)@, from, to)->Some_0;
                    assert forall|m: int| 0 <= m < self@.len() implies self@[m] =~~= target[m] by {
                        assert(self@[m] == self.repos@[m]@);
                        if m == i as int {
                            assert forall|n: int|
                                0 <= n < self@[m].branches.len() implies self@[m].branches[n]
                                =~~= target[m].branches[n] by {
                                assert(self@[m].branches[n] == self.repos@[m].branches@[n]@);
                            }
                            assert(self@[m].branches =~~= target[m].branches);
                        }
                    }
                    assert(final(self)@ =~~= target);
                }
                true
            },
            None => false,
        }
    }

    /// Adds a file to the head of the top branch, if one exists.
    pub fn push_file(&mut self, name: Name) -> (r: bool)
        ensures
            match v_push_file(old(self)@, name@) {
                Some(s2) => r && final(self)@ == s2,
                None => !r && final(self)@ == old(self)@,
            },
    {
        match self.find_top_branch() {
            Some((i, j)) => {
                proof {
                    lemma_top_branch_pos_props(self@);
                    assert(self@[i as int] == self.repos@[i as int]@);
                    assert(self@[i as int].branches[j as int]
                        == self.repos@[i as int].branches@[j as int]@);
                }
                let repo = &mut self.repos[i];
                let branch = &mut repo.branches[j];
                branch.push_file(name);
                proof {
                    let target = v_push_file(old(self)@, name@)->Some_0;
                    assert forall|m: int| 0 <= m < self@.len() implies self@[m] =~~= target[m] by {
                        assert(self@[m] == self.repos@[m]@);
                        if m == i as int {
                            assert forall|n: int|
                                0 <= n < self@[m].branches.len() implies self@[m].branches[n]
                                =~~= target[m].branches[n] by {
                                assert(self@[m].branches[n] == self.repos@[m].branches@[n]@);
                            }
                            assert(self@[m].branches =~~= target[m].branches);
                        }
                    }
                    assert(final(self)@ =~~= target);
                }
                true
            },
            None => false,
        }
    }

    /// Adds a fresh closed branch to the top repo, if one exists.
    pub fn create_branch(&mut self, name: Name) -> (r: bool)
        ensures
            match v_push_branch(old(self)@, name@) {
                Some(s2) => r && final(self)@ == s2,
                None => !r && final(self)@ == old(self)@,
            },
    {
        if self.repos.len() == 0 {
            return false;
        }
        let i = self.repos.len() - 1;
        proof {
            assert(self@[i as int] == self.repos@[i as int]@);
        }
        let repo = &mut self.repos[i];
        repo.push_branch(name);
        proof {
            let target = v_push_branch(old(self)@, name@)->Some_0;
            assert forall|m: int| 0 <= m < self@.len() implies self@[m] =~~= target[m] by {
                assert(self@[m] == self.repos@[m]@);
            }
            assert(final(self)@ =~~= target);
        }
        true
    }

    /// Removes and returns the top branch.
    pub fn pop_branch(&mut self) -> (r: Option<Branch>)
        ensures
            match v_pop_branch(old(self)@) {
                Some((b, s2)) => r matches Some(br) && br@ == b && final(self)@ == s2,
                None => r is None && final(self)@ == old(self)@,
            },
    {
        match self.find_top_branch() {
            Some((i, _j)) => {
                proof {
                    lemma_top_branch_pos_props(self@);
                    assert(self@[i as int] == self.repos@[i as int]@);
                }
                let repo = &mut self.repos[i];
                let b = repo.branches.pop();
                proof {
                    let j = old(self)@[i as int].branches.len() - 1;
                    assert(self.repos@[i as int].branches@ =~= old(
                        self,
                    ).repos@[i as int].branches@.drop_last());
                    assert(b matches Some(br) && br@ == old(self)@[i as int].branches[j]) by {
                        assert(old(self)@[i as int].branches[j]
                            == old(self).repos@[i as int].branches@[j]@);
                    }
                    let target = v_pop_branch(old(self)@)->Some_0.1;
                    assert forall|m: int| 0 <= m < self@.len() implies self@[m] =~~= target[m] by {
                        assert(self@[m] == self.repos@[m]@);
                        if m == i as int {
                            assert forall|n: int|
                                0 <= n < self@[m].branches.len() implies self@[m].branches[n]
                                =~~= target[m].branches[n] by {
                                assert(self@[m].branches[n] == self.repos@[m].branches@[n]@);
                                assert(target[m].branches[n] == old(self)@[m].branches[n]);
                            }
                            assert(self@[m].branches =~~= target[m].branches);
                        }
                    }
                    assert(final(self)@ =~~= target);
                }
                b
            },
            None => None,
        }
    }

    /// Removes and returns the two most recent files, as a file diff demands;
    /// leaves the state untouched when fewer than two files are tracked.
    pub fn pop_two_files(&mut self) -> (r: Option<(File, File)>)
        ensures
            match s_pop_two_files(old(self)@) {
                Some(s3) => {
                    &&& r matches Some((f1, f2))
                    &&& f1@ == v_pop_file(old(self)@)->Some_0.0
                    &&& f2@ == v_pop_file(v_pop_file(old(self)@)->Some_0.1)->Some_0.0
                    &&& final(self)@ == s3
                },
                None => r is None && final(self)@ == old(self)@,
            },
    {
        let (i, j, _k) = match self.find_top_file() {
            Some(v) => v,
            None => {
                return None;
            },
        };
        proof {
            lemma_top_file_pos_props(self@);
        }
        let f = match self.pop_file() {
            Some(f) => f,
            None => {
                return None;
            },
        };
        match self.pop_file() {
            Some(f2) => {
                return Some((f, f2));
            },
            None => {},
        }
        let ghost mid = self@;
        proof {
            let orig = old(self)@;
            assert(top_file_pos(orig) == Some((i as int, j as int, orig[i as int].branches[
                j as int
            ].files.len() - 1)));
            assert(v_pop_file(orig) is Some);
            assert(mid == v_pop_file(orig)->Some_0.1);
            assert(mid[i as int].branches.len() == orig[i as int].branches.len());
            assert((j as int) < mid[i as int].branches.len());
            assert(self@[i as int] == self.repos@[i as int]@);
            assert(self@[i as int].branches[j as int]
                == self.repos@[i as int].branches@[j as int]@);
        }
        let repo = &mut self.repos[i];
        let branch = &mut repo.branches[j];
        branch.files.push(f);
        proof {
            let orig = old(self)@;
            let k = orig[i as int].branches[j as int].files.len() - 1;
            assert(orig[i as int].branches[j as int].files[k] == f@);
            assert(mid[i as int].branches[j as int].files == orig[i as int].branches[
                j as int
            ].files.drop_last());
            assert forall|m: int| 0 <= m < self@.len() implies self@[m] =~~= orig[m] by {
                assert(self@[m] == self.repos@[m]@);
                if m == i as int {
                    assert forall|n: int|
                        0 <= n < self@[m].branches.len() implies self@[m].branches[n]
                        =~~= orig[m].branches[n] by {
                        assert(self@[m].branches[n] == self.repos@[m].branches@[n]@);
                        if n == j as int {
                            assert(self@[m].branches[n].files =~= mid[m].branches[n].files.push(
                                f@,
                            ));
                            assert(orig[m].branches[n].files.drop_last().push(
                                orig[m].branches[n].files[k],
                            ) =~= orig[m].branches[n].files);
                        } else {
                            assert(mid[m].branches[n] == orig[m].branches[n]);
                            assert(self@[m].branches[n] =~~= mid[m].branches[n]);
                        }
                    }
                    assert(self@[m].branches =~~= orig[m].branches);
                } else {
                    assert(mid[m] == orig[m]);
                    assert(self@[m] =~~= mid[m]);
                }
            }
            assert(final(self)@ =~~= orig);
        }
        None
    }

    /// Removes and returns the top file.
    pub fn pop_file(&mut self) -> (r: Option<File>)
        ensures
            match v_pop_file(old(self)@) {
                Some((f, s2)) => r matches Some(fl) && fl@ == f && final(self)@ == s2,
                None => r is None && final(self)@ == old(self)@,
            },
    {
        match self.find_top_file() {
            Some((i, j, _k)) => {
                proof {
                    lemma_top_file_pos_props(self@);
                    assert(self@[i as int] == self.repos@[i as int]@);
                    assert(self@[i as int].branches[j as int]
                        == self.repos@[i as int].branches@[j as int]@);
                }
                let repo = &mut self.repos[i];
                let branch = &mut repo.branches[j];
                let f = branch.files.pop();
                proof {
                    let k = old(self)@[i as int].branches[j as int].files.len() - 1;
                    assert(f matches Some(fl) && fl@
                        == old(self)@[i as int].branches[j as int].files[k]) by {
                        assert(old(self)@[i as int].branches[j as int].files[k]
                            == old(self).repos@[i as int].branches@[j as int].files@[k]@);
                    }
                    let target = v_pop_file(old(self)@)->Some_0.1;
                    assert forall|m: int| 0 <= m < self@.len() implies self@[m] =~~= target[m] by {
                        assert(self@[m] == self.repos@[m]@);
                        if m == i as int {
                            assert forall|n: int|
                                0 <= n < self@[m].branches.len() implies self@[m].branches[n]
                                =~~= target[m].branches[n] by {
                                assert(self@[m].branches[n] == self.repos@[m].branches@[n]@);
                                if n == j as int {
                                    assert(self@[m].branches[n].files =~= old(
                                        self,
                                    )@[m].branches[n].files.drop_last());
                                }
                            }
                            assert(self@[m].branches =~~= target[m].branches);
                        }
                    }
                    assert(final(self)@ =~~= target);
                }
                f
            },
            None => None,
        }
    }
}

} // verus!
