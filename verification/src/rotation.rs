//! The rotation of session log files.
//!
//! For a live file `app.log` and at most `N` backups, a new session first
//! deletes `app.log.N`, then renames `app.log.{N-1}` to `app.log.N`, and so
//! on down to `app.log` → `app.log.1`; then it opens a fresh `app.log`.
//! File `i` of the cascade is `app.log.i`, file 0 the live file itself.
//! Backups above `N` are never touched.

use crate::text::{dec, push_char, push_decimal};
use vstd::prelude::*;

verus! {

/// One file operation of a rotation; files are named by their index.
#[derive(Debug, Clone, Copy, PartialEq, Eq, Structural)]
pub enum RotationStep {
    /// Delete file `i`, if present.
    Remove(usize),
    /// Rename file `from` to file `to`, if `from` is present.
    Rename(usize, usize),
}

/// The renames of a rotation from file `i - 1` down to file 0, each file
/// moving one index up.
pub open spec fn renames_from(i: nat) -> Seq<RotationStep>
    decreases i,
{
    if i == 0 {
        Seq::empty()
    } else {
        seq![RotationStep::Rename((i - 1) as usize, i as usize)] + renames_from((i - 1) as nat)
    }
}

/// The steps of a rotation keeping at most `max_backups` backups: delete
/// the oldest backup, then shift every file one index up, the oldest first.
pub open spec fn spec_rotation_plan(max_backups: nat) -> Seq<RotationStep> {
    seq![RotationStep::Remove(max_backups as usize)] + renames_from(max_backups)
}

/// Returns the steps of a rotation keeping at most `max_backups` backups.
pub fn rotation_plan(max_backups: usize) -> (r: Vec<RotationStep>)
    ensures
        r@ == spec_rotation_plan(max_backups as nat),
{
    let mut plan: Vec<RotationStep> = Vec::new();
    plan.push(RotationStep::Remove(max_backups));
    let mut i = max_backups;
    assert(plan@ + renames_from(i as nat) =~= spec_rotation_plan(max_backups as nat));
    while i > 0
        invariant
            i <= max_backups,
            plan@ + renames_from(i as nat) == spec_rotation_plan(max_backups as nat),
        decreases i,
    {
        let ghost before = plan@;
        plan.push(RotationStep::Rename(i - 1, i));
        assert(before + renames_from(i as nat) =~= plan@ + renames_from((i - 1) as nat));
        i = i - 1;
    }
    assert(plan@ + renames_from(0) =~= plan@);
    plan
}

/// The suffix that names file `index` after the live file's name: nothing
/// for the live file, `.index` for a backup.
pub open spec fn spec_backup_suffix(index: nat) -> Seq<char> {
    if index == 0 {
        Seq::empty()
    } else {
        seq!['.'] + dec(index)
    }
}

/// Returns the suffix naming file `index`.
pub fn backup_suffix(index: usize) -> (r: String)
    ensures
        r@ == spec_backup_suffix(index as nat),
{
    let mut s = String::new();
    if index > 0 {
        push_char(&mut s, '.');
        push_decimal(&mut s, index as u128);
    }
    assert(s@ =~= spec_backup_suffix(index as nat));
    s
}

/// A rotation touches exactly the files `0..=max_backups`: its first step
/// deletes file `max_backups`, and its `k`-th rename moves file
/// `max_backups - 1 - k` one index up. Every file is thus moved only after
/// its destination has been deleted or moved on, so no backup is
/// overwritten, and files above `max_backups` are left alone.
pub proof fn lemma_rotation_plan_shape(max_backups: nat)
    requires
        max_backups <= usize::MAX,
    ensures
        spec_rotation_plan(max_backups).len() == max_backups + 1,
        spec_rotation_plan(max_backups)[0] == RotationStep::Remove(max_backups as usize),
        forall|k: int|
            0 <= k < max_backups ==> #[trigger] spec_rotation_plan(max_backups)[k + 1]
                == RotationStep::Rename((max_backups - 1 - k) as usize, (max_backups - k) as usize),
{
    lemma_renames_from(max_backups);
}

/// The `k`-th rename from `i` moves file `i - 1 - k` up one index.
proof fn lemma_renames_from(i: nat)
    requires
        i <= usize::MAX,
    ensures
        renames_from(i).len() == i,
        forall|k: int|
            0 <= k < i ==> #[trigger] renames_from(i)[k] == RotationStep::Rename(
                (i - 1 - k) as usize,
                (i - k) as usize,
            ),
    decreases i,
{
    if i > 0 {
        lemma_renames_from((i - 1) as nat);
        assert forall|k: int| 0 <= k < i implies #[trigger] renames_from(i)[k] == RotationStep::Rename(
            (i - 1 - k) as usize,
            (i - k) as usize,
        ) by {
            if k > 0 {
                assert(renames_from(i)[k] == renames_from((i - 1) as nat)[k - 1]);
            }
        }
    }
}

} // verus!
