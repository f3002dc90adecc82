use vstd::prelude::*;
use vstd::slice::slice_to_vec;

verus! {

/// One step of a commit, acting on the store's file and on its staging
/// sibling in the same directory.
pub enum CommitStep {
    /// Create or truncate the staging file and write these bytes to it.
    WriteStaged(Vec<u8>),
    /// Rename the staging file over the store's file.
    RenameStaged,
    /// Force the store's file to stable storage.
    SyncTarget,
}

/// What the store's file and its staging sibling hold; `None` where a file
/// does not exist.
pub struct DiskState {
    pub target: Option<Vec<u8>>,
    pub staged: Option<Vec<u8>>,
}

pub open spec fn opt_view(o: Option<Vec<u8>>) -> Option<Seq<u8>> {
    match o {
        Some(v) => Some(v@),
        None => None,
    }
}

impl DiskState {
    pub open spec fn view(&self) -> (Option<Seq<u8>>, Option<Seq<u8>>) {
        (opt_view(self.target), opt_view(self.staged))
    }
}

/// The files after one step. A rename without a staging file fails and
/// changes nothing; a sync changes no contents.
pub open spec fn apply_step(d: (Option<Seq<u8>>, Option<Seq<u8>>), s: CommitStep) -> (
    Option<Seq<u8>>,
    Option<Seq<u8>>,
) {
    match s {
        CommitStep::WriteStaged(b) => (d.0, Some(b@)),
        CommitStep::RenameStaged => match d.1 {
            Some(b) => (Some(b), None),
            None => d,
        },
        CommitStep::SyncTarget => d,
    }
}

/// The files after each step in turn.
pub open spec fn apply_steps(d: (Option<Seq<u8>>, Option<Seq<u8>>), steps: Seq<CommitStep>) -> (
    Option<Seq<u8>>,
    Option<Seq<u8>>,
)
    decreases steps.len(),
{
    if steps.len() == 0 {
        d
    } else {
        apply_step(apply_steps(d, steps.drop_last()), steps.last())
    }
}

/// The steps that commit `bytes`: write them to the staging file, rename it
/// over the store's file, and, for a full sync, force that file to stable
/// storage.
pub open spec fn is_commit_plan(steps: Seq<CommitStep>, bytes: Seq<u8>, full_sync: bool) -> bool {
    &&& steps.len() == if full_sync { 3int } else { 2int }
    &&& steps[0] matches CommitStep::WriteStaged(b) && b@ == bytes
    &&& steps[1] is RenameStaged
    &&& full_sync ==> steps[2] is SyncTarget
}

/// The steps that commit `bytes` to the store's file.
pub fn commit_plan(bytes: &[u8], full_sync: bool) -> (r: Vec<CommitStep>)
    ensures
        is_commit_plan(r@, bytes@, full_sync),
{
    let mut r: Vec<CommitStep> = Vec::new();
    r.push(CommitStep::WriteStaged(slice_to_vec(bytes)));
    r.push(CommitStep::RenameStaged);
    if full_sync {
        r.push(CommitStep::SyncTarget);
    }
    r
}

impl DiskState {
    /// Carries out one step on the files.
    pub fn apply(&mut self, step: &CommitStep)
        ensures
            final(self)@ == apply_step(old(self)@, *step),
    {
        match step {
            CommitStep::WriteStaged(b) => {
                self.staged = Some(slice_to_vec(b.as_slice()));
            },
            CommitStep::RenameStaged => {
                if self.staged.is_some() {
                    let staged = self.staged.take();
                    self.target = staged;
                }
            },
            CommitStep::SyncTarget => {},
        }
    }

    /// Carries out every step in turn.
    pub fn apply_all(&mut self, steps: &Vec<CommitStep>)
        ensures
            final(self)@ == apply_steps(old(self)@, steps@),
    {
        let mut i: usize = 0;
        while i < steps.len()
            invariant
                i <= steps@.len(),
                self@ == apply_steps(old(self)@, steps@.take(i as int)),
            decreases steps@.len() - i,
        {
            self.apply(&steps[i]);
            assert(steps@.take(i + 1).drop_last() =~= steps@.take(i as int));
            i = i + 1;
        }
        assert(steps@.take(i as int) =~= steps@);
    }
}

/// A commit interrupted after any number of its steps leaves the store's
/// file holding either what it held before or the committed bytes, never
/// anything else; run to its end, it leaves the committed bytes and no
/// staging file.
pub proof fn lemma_commit_crash_consistent(
    d: (Option<Seq<u8>>, Option<Seq<u8>>),
    steps: Seq<CommitStep>,
    bytes: Seq<u8>,
    full_sync: bool,
    k: int,
)
    requires
        is_commit_plan(steps, bytes, full_sync),
        0 <= k <= steps.len(),
    ensures
        apply_steps(d, steps.take(k)).0 == d.0 || apply_steps(d, steps.take(k)).0 == Some(bytes),
        apply_steps(d, steps) == (Some(bytes), None::<Seq<u8>>),
{
    let s1 = apply_steps(d, steps.take(1));
    let s2 = apply_steps(d, steps.take(2));
    assert(steps.take(0) =~= Seq::empty());
    assert(steps.take(1).drop_last() =~= steps.take(0));
    assert(steps.take(2).drop_last() =~= steps.take(1));
    assert(apply_steps(d, steps.take(0)) == d);
    assert(steps.take(1).last() == steps[0]);
    assert(steps.take(2).last() == steps[1]);
    assert(s1 == (d.0, Some(bytes)));
    assert(s2 == (Some(bytes), None::<Seq<u8>>));
    if full_sync {
        assert(steps.take(3).drop_last() =~= steps.take(2));
        assert(steps.take(3).last() == steps[2]);
        assert(steps.take(3) =~= steps);
    } else {
        assert(steps.take(2) =~= steps);
    }
}

/// Committing the same bytes a second time leaves the files as the first
/// commit left them.
pub proof fn lemma_commit_idempotent(
    d: (Option<Seq<u8>>, Option<Seq<u8>>),
    first: Seq<CommitStep>,
    second: Seq<CommitStep>,
    bytes: Seq<u8>,
    full_first: bool,
    full_second: bool,
)
    requires
        is_commit_plan(first, bytes, full_first),
        is_commit_plan(second, bytes, full_second),
    ensures
        apply_steps(apply_steps(d, first), second) == apply_steps(d, first),
{
    lemma_commit_crash_consistent(d, first, bytes, full_first, 0);
    lemma_commit_crash_consistent(apply_steps(d, first), second, bytes, full_second, 0);
}

} // verus!
