//! The pairing step: the mode of a run, the target path of a pairing, and
//! the plan for the one filesystem write a pairing performs.

use vstd::prelude::*;

use crate::text::stem_of;
use crate::{FsEntry, SyncError};

verus! {

/// The shape of a run: many pairings matched by stem, or exactly one.
#[derive(Clone, Copy, Debug, PartialEq, Eq, Structural)]
pub enum Mode {
    Season,
    Single,
}

/// Every child is a directory.
pub open spec fn all_dirs(children: Seq<FsEntry>) -> bool {
    forall|i: int| 0 <= i < children.len() ==> (#[trigger] children[i]).is_dir
}

/// Chooses the mode of a run: season when the output path is a directory or
/// every direct child of the input path is itself a directory, single
/// otherwise.  An output directory alone is sufficient, whatever the shape
/// of the input.
#[verifier::loop_isolation(false)]
pub fn choose_mode(output_is_dir: bool, input_children: &Vec<FsEntry>) -> (m: Mode)
    ensures
        (m == Mode::Season) <==> (output_is_dir || all_dirs(input_children@)),
{
    if output_is_dir {
        return Mode::Season;
    }
    let mut i: usize = 0;
    while i < input_children.len()
        invariant
            i <= input_children@.len(),
            forall|k: int| 0 <= k < i ==> (#[trigger] input_children@[k]).is_dir,
        decreases input_children@.len() - i,
    {
        if !input_children[i].is_dir {
            proof {
                assert(!(#[trigger] input_children@[i as int]).is_dir);
            }
            return Mode::Single;
        }
        i = i + 1;
    }
    Mode::Season
}

/// The name of the subtitle file a pairing writes: the media file's stem
/// with the subtitle extension appended.
pub fn target_subtitle_name(dest_name: &str) -> (r: String)
    ensures
        r@ == stem_of(dest_name@) + ".srt"@,
{
    let mut s = crate::text::stem_of_name(dest_name);
    s.append(".srt");
    s
}

/// A path directly under a directory.
pub fn join_path(dir: &str, name: &str) -> (r: String)
    ensures
        r@ == dir@ + "/"@ + name@,
{
    let mut s = String::from_str(dir);
    s.append("/");
    s.append(name);
    s
}

/// How the chosen subtitle reaches the target: a symbolic link to the
/// source, or a byte-for-byte copy of it.
#[derive(Clone, Copy, Debug, PartialEq, Eq, Structural)]
pub enum TransferOp {
    Symlink,
    CopyBytes,
}

/// The one write of a pairing: whether a pre-existing target must first be
/// removed, and how the source then reaches the target.
#[derive(Clone, Copy, Debug, PartialEq, Eq, Structural)]
pub struct TransferPlan {
    pub remove_existing: bool,
    pub op: TransferOp,
}

/// What stands at the target path after a pairing: nothing, or a source
/// transferred by an operation.
pub open spec fn pairing_effect(
    prior: Option<(Seq<char>, TransferOp)>,
    overwrite: bool,
    source: Seq<char>,
    op: TransferOp,
) -> Option<(Seq<char>, TransferOp)> {
    if prior is None || overwrite {
        Some((source, op))
    } else {
        prior
    }
}

/// Plans the write of one pairing.  With a pre-existing target and no
/// overwrite the pairing fails with `TargetExists`; that failure concerns
/// this pairing alone, and the run goes on.
pub fn plan_pairing(target_exists: bool, overwrite: bool, copy: bool) -> (r: Result<
    TransferPlan,
    SyncError,
>)
    ensures
        (r is Err) <==> (target_exists && !overwrite),
        r matches Err(e) ==> e == SyncError::TargetExists,
        r matches Ok(p) ==> {
            &&& p.remove_existing == target_exists
            &&& p.op == (if copy {
                TransferOp::CopyBytes
            } else {
                TransferOp::Symlink
            })
        },
        forall|prior: Option<(Seq<char>, TransferOp)>, source: Seq<char>|
            (prior is Some) == target_exists ==> apply_plan(r, prior, source) == pairing_effect(
                prior,
                overwrite,
                source,
                if copy {
                    TransferOp::CopyBytes
                } else {
                    TransferOp::Symlink
                },
            ),
{
    if target_exists && !overwrite {
        Err(SyncError::TargetExists)
    } else {
        Ok(
            TransferPlan {
                remove_existing: target_exists,
                op: if copy {
                    TransferOp::CopyBytes
                } else {
                    TransferOp::Symlink
                },
            },
        )
    }
}

/// What stands at the target after a planned pairing is carried out: a
/// failed plan leaves the prior state, a transfer puts the source there.
pub open spec fn apply_plan(
    r: Result<TransferPlan, SyncError>,
    prior: Option<(Seq<char>, TransferOp)>,
    source: Seq<char>,
) -> Option<(Seq<char>, TransferOp)> {
    match r {
        Ok(p) => Some((source, p.op)),
        Err(_) => prior,
    }
}

/// With overwrite enabled a pairing always ends with the chosen source at
/// the target, so performing the same pairing twice leaves the same final
/// target state as performing it once.
pub proof fn lemma_overwrite_idempotent(
    prior: Option<(Seq<char>, TransferOp)>,
    source: Seq<char>,
    op: TransferOp,
)
    ensures
        pairing_effect(pairing_effect(prior, true, source, op), true, source, op)
            == pairing_effect(prior, true, source, op),
{
}

/// Without overwrite a pre-existing target is left exactly as it was, and
/// the plan for it is the `TargetExists` failure, so the pairing is reported
/// rather than silently counted as done.
pub proof fn lemma_no_overwrite_preserves(
    prior: Option<(Seq<char>, TransferOp)>,
    source: Seq<char>,
    op: TransferOp,
)
    requires
        prior is Some,
    ensures
        pairing_effect(prior, false, source, op) == prior,
{
}

} // verus!
