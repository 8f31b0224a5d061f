use vstd::prelude::*;

verus! {

/// The steps of a run, in order, and the two ways it stops early.
#[derive(Debug, Clone, Copy, PartialEq, Eq, Structural)]
pub enum Stage {
    /// Look whether the clone target directory exists.
    CheckTarget,
    /// Clone the repository.
    Clone,
    /// Write the secrets file and the audit notes, findings and diagram files.
    Scaffold,
    /// Read or collect the scope and write the scope file back.
    Scope,
    /// Append the scope line and the reported signatures to the notes.
    Extract,
    /// Open the workspace and the scope files in the editor.
    Launch,
    /// The run is complete.
    Done,
    /// The target directory already existed; nothing was written.
    Conflict,
    /// The clone did not succeed; nothing is written after it.
    CloneFailed,
}

/// The stage after `stage` once its work reported `ok`. For `CheckTarget`,
/// `ok` means the target is free; for `Clone`, that the clone succeeded.
/// The work of the other stages reports nothing that decides.
pub open spec fn next_stage(stage: Stage, ok: bool) -> Stage {
    match stage {
        Stage::CheckTarget => if ok {
            Stage::Clone
        } else {
            Stage::Conflict
        },
        Stage::Clone => if ok {
            Stage::Scaffold
        } else {
            Stage::CloneFailed
        },
        Stage::Scaffold => Stage::Scope,
        Stage::Scope => Stage::Extract,
        Stage::Extract => Stage::Launch,
        Stage::Launch => Stage::Done,
        Stage::Done => Stage::Done,
        Stage::Conflict => Stage::Conflict,
        Stage::CloneFailed => Stage::CloneFailed,
    }
}

/// The run stops in this stage.
pub open spec fn is_final(stage: Stage) -> bool {
    stage == Stage::Done || stage == Stage::Conflict || stage == Stage::CloneFailed
}

/// The work of this stage writes files.
pub open spec fn writes_files(stage: Stage) -> bool {
    stage == Stage::Scaffold || stage == Stage::Scope || stage == Stage::Extract
}

/// The stages passed through from `stage` as the work reports `oks`.
pub open spec fn stages_after(stage: Stage, oks: Seq<bool>) -> Seq<Stage>
    decreases oks.len(),
{
    if oks.len() == 0 {
        seq![]
    } else {
        let next = next_stage(stage, oks[0]);
        seq![next] + stages_after(next, oks.drop_first())
    }
}

/// The stage that follows `stage` once its work reported `ok`.
pub fn advance(stage: Stage, ok: bool) -> (r: Stage)
    ensures
        r == next_stage(stage, ok),
{
    match stage {
        Stage::CheckTarget => if ok {
            Stage::Clone
        } else {
            Stage::Conflict
        },
        Stage::Clone => if ok {
            Stage::Scaffold
        } else {
            Stage::CloneFailed
        },
        Stage::Scaffold => Stage::Scope,
        Stage::Scope => Stage::Extract,
        Stage::Extract => Stage::Launch,
        Stage::Launch => Stage::Done,
        Stage::Done => Stage::Done,
        Stage::Conflict => Stage::Conflict,
        Stage::CloneFailed => Stage::CloneFailed,
    }
}

/// Whether the run stops in `stage`.
pub fn is_final_stage(stage: Stage) -> (r: bool)
    ensures
        r == is_final(stage),
{
    match stage {
        Stage::Done | Stage::Conflict | Stage::CloneFailed => true,
        _ => false,
    }
}

proof fn lemma_final_stays(stage: Stage, oks: Seq<bool>)
    requires
        is_final(stage),
    ensures
        forall|i: int| 0 <= i < stages_after(stage, oks).len() ==> #[trigger] stages_after(stage, oks)[i] == stage,
    decreases oks.len(),
{
    if oks.len() > 0 {
        lemma_final_stays(stage, oks.drop_first());
        let rest = stages_after(stage, oks.drop_first());
        assert forall|i: int| 0 <= i < stages_after(stage, oks).len() implies #[trigger] stages_after(stage, oks)[i] == stage by {
            if i > 0 {
                assert(stages_after(stage, oks)[i] == rest[i - 1]);
            }
        }
    }
}

/// When the clone target already exists the run stops in `Conflict`, and
/// whatever is reported afterwards no stage that writes files is reached.
pub proof fn lemma_existing_target_writes_nothing(oks: Seq<bool>)
    requires
        oks.len() > 0,
        !oks[0],
    ensures
        forall|i: int| 0 <= i < stages_after(Stage::CheckTarget, oks).len() ==> #[trigger] stages_after(Stage::CheckTarget, oks)[i] == Stage::Conflict,
        forall|i: int| 0 <= i < stages_after(Stage::CheckTarget, oks).len() ==> !writes_files(#[trigger] stages_after(Stage::CheckTarget, oks)[i]),
{
    lemma_final_stays(Stage::Conflict, oks.drop_first());
    let rest = stages_after(Stage::Conflict, oks.drop_first());
    assert forall|i: int| 0 <= i < stages_after(Stage::CheckTarget, oks).len() implies #[trigger] stages_after(Stage::CheckTarget, oks)[i] == Stage::Conflict by {
        if i > 0 {
            assert(stages_after(Stage::CheckTarget, oks)[i] == rest[i - 1]);
        }
    }
}

/// A clone that did not succeed stops the run in `CloneFailed`, before any
/// stage that writes files.
pub proof fn lemma_failed_clone_writes_nothing(oks: Seq<bool>)
    requires
        oks.len() > 0,
        !oks[0],
    ensures
        forall|i: int| 0 <= i < stages_after(Stage::Clone, oks).len() ==> !writes_files(#[trigger] stages_after(Stage::Clone, oks)[i]),
{
    lemma_final_stays(Stage::CloneFailed, oks.drop_first());
    let rest = stages_after(Stage::CloneFailed, oks.drop_first());
    assert forall|i: int| 0 <= i < stages_after(Stage::Clone, oks).len() implies !writes_files(#[trigger] stages_after(Stage::Clone, oks)[i]) by {
        if i > 0 {
            assert(stages_after(Stage::Clone, oks)[i] == rest[i - 1]);
        }
    }
}

} // verus!
