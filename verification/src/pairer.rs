use vstd::prelude::*;

use crate::config::Args;
use crate::config::FileEntry;

verus! {

/// What happened to one source/target position pair.
#[derive(PartialEq, Eq, Structural, Clone, Copy, Debug)]
pub enum PairDecision {
    /// The names already match: kept in the output, nothing renamed.
    Identical,
    /// Similar names, rename accepted without a prompt (auto-rename or a
    /// dry run).
    RenameAuto,
    /// Similar names, the operator confirmed the rename.
    RenameConfirmed,
    /// Similar names, the operator declined: excluded.
    RenameRejected,
    /// A file with the proposed name already exists beside the source:
    /// excluded, nothing asked.
    Collision,
    /// Names too different, the operator forced the rename anyway.
    MismatchForced,
    /// Names too different, the operator declined: excluded.
    MismatchRejected,
    /// Names too different on a dry run: reported and excluded, nobody
    /// asked.
    MismatchDry,
    /// No target entry at this position: excluded with a warning.
    NoTarget,
}

/// What the world contributes to one pair's decision: whether the names
/// count as similar, whether the proposed name already exists beside the
/// source, and what the operator answers if asked.
#[derive(Clone, Copy)]
pub struct PairEnv {
    /// The names' normalized edit similarity exceeds the threshold.
    pub similar: bool,
    /// A file with the target's name already exists in the source folder.
    pub collision: bool,
    /// The operator's answer to a prompt at this position (default no).
    pub answer: bool,
}

/// The decision for one pair that has a target entry.
pub open spec fn spec_decide(dry: bool, auto_rename: bool, identical: bool, env: PairEnv) -> PairDecision {
    if identical {
        PairDecision::Identical
    } else if env.similar {
        if env.collision {
            PairDecision::Collision
        } else if auto_rename || dry {
            PairDecision::RenameAuto
        } else if env.answer {
            PairDecision::RenameConfirmed
        } else {
            PairDecision::RenameRejected
        }
    } else if dry {
        PairDecision::MismatchDry
    } else if env.answer {
        PairDecision::MismatchForced
    } else {
        PairDecision::MismatchRejected
    }
}

/// The pair's source entry stays in the output list.
pub open spec fn spec_included(d: PairDecision) -> bool {
    ||| d == PairDecision::Identical
    ||| d == PairDecision::RenameAuto
    ||| d == PairDecision::RenameConfirmed
    ||| d == PairDecision::MismatchForced
}

/// The decision stands for a rename, reported on a dry run and performed
/// otherwise.
pub open spec fn intends_rename(d: PairDecision) -> bool {
    ||| d == PairDecision::RenameAuto
    ||| d == PairDecision::RenameConfirmed
    ||| d == PairDecision::MismatchForced
}

/// Deciding this pair asks the operator a yes/no question (default no).
pub open spec fn spec_needs_prompt(
    dry: bool,
    auto_rename: bool,
    identical: bool,
    similar: bool,
    collision: bool,
) -> bool {
    !identical && ((similar && !collision && !auto_rename && !dry) || (!similar && !dry))
}

/// Decides one pair.  `identical` says whether the two names already
/// match; `env` carries similarity, collision, and the prompt answer.
pub fn decide_pair(args: &Args, identical: bool, env: PairEnv) -> (d: PairDecision)
    ensures
        d == spec_decide(args.dry, args.rename, identical, env),
{
    if identical {
        PairDecision::Identical
    } else if env.similar {
        if env.collision {
            PairDecision::Collision
        } else if args.rename || args.dry {
            PairDecision::RenameAuto
        } else if env.answer {
            PairDecision::RenameConfirmed
        } else {
            PairDecision::RenameRejected
        }
    } else if args.dry {
        PairDecision::MismatchDry
    } else if env.answer {
        PairDecision::MismatchForced
    } else {
        PairDecision::MismatchRejected
    }
}

/// Says whether deciding this pair will ask the operator, so the caller
/// knows when to put the question.
pub fn pair_needs_prompt(args: &Args, identical: bool, similar: bool, collision: bool) -> (b:
    bool)
    ensures
        b == spec_needs_prompt(args.dry, args.rename, identical, similar, collision),
{
    !identical && ((similar && !collision && !args.rename && !args.dry) || (!similar && !args.dry))
}

/// True for the decisions that keep the pair's entry in the output.
pub fn decision_included(d: PairDecision) -> (b: bool)
    ensures
        b == spec_included(d),
{
    match d {
        PairDecision::Identical | PairDecision::RenameAuto | PairDecision::RenameConfirmed
        | PairDecision::MismatchForced => true,
        _ => false,
    }
}

/// True when the decision makes a rename reach the disk.
pub fn decision_renames(d: PairDecision, dry: bool) -> (b: bool)
    ensures
        b == (intends_rename(d) && !dry),
{
    match d {
        PairDecision::RenameAuto | PairDecision::RenameConfirmed
        | PairDecision::MismatchForced => !dry,
        _ => false,
    }
}

/// When nobody is asked, the answer does not matter.
pub proof fn lemma_answer_irrelevant(
    dry: bool,
    auto_rename: bool,
    identical: bool,
    e1: PairEnv,
    e2: PairEnv,
)
    requires
        e1.similar == e2.similar,
        e1.collision == e2.collision,
        !spec_needs_prompt(dry, auto_rename, identical, e1.similar, e1.collision),
    ensures
        spec_decide(dry, auto_rename, identical, e1) == spec_decide(dry, auto_rename, identical, e2),
{
}

/// The decision at position `i` of the run: pairs beyond the target list
/// are skipped with a warning.
pub open spec fn decision_at(
    args: Args,
    source: Seq<FileEntry>,
    target: Seq<FileEntry>,
    env: Seq<PairEnv>,
    i: int,
) -> PairDecision {
    if i >= target.len() {
        PairDecision::NoTarget
    } else {
        spec_decide(args.dry, args.rename, source[i].name@ == target[i].name@, env[i])
    }
}

/// The views (parent, name) of a sequence of entries.
pub open spec fn entry_views(s: Seq<FileEntry>) -> Seq<(Seq<char>, Seq<char>)> {
    s.map_values(|e: FileEntry| (e.parent@, e.name@))
}

/// The output entries of the first `i` pairs, as (parent, name) views:
/// each included source entry under its own folder, carrying the name of
/// the target entry at its position.
pub open spec fn included_views(
    args: Args,
    source: Seq<FileEntry>,
    target: Seq<FileEntry>,
    env: Seq<PairEnv>,
    i: int,
) -> Seq<(Seq<char>, Seq<char>)>
    decreases i,
{
    if i <= 0 {
        Seq::empty()
    } else {
        let prev = included_views(args, source, target, env, i - 1);
        if spec_included(decision_at(args, source, target, env, i - 1)) {
            prev.push((source[i - 1].parent@, target[i - 1].name@))
        } else {
            prev
        }
    }
}

/// The renames the first `i` pairs call for, as (folder, from, to) views,
/// whether or not a dry run holds them back.
pub open spec fn intended_renames(
    args: Args,
    source: Seq<FileEntry>,
    target: Seq<FileEntry>,
    env: Seq<PairEnv>,
    i: int,
) -> Seq<(Seq<char>, Seq<char>, Seq<char>)>
    decreases i,
{
    if i <= 0 {
        Seq::empty()
    } else {
        let prev = intended_renames(args, source, target, env, i - 1);
        if intends_rename(decision_at(args, source, target, env, i - 1)) {
            prev.push((source[i - 1].parent@, source[i - 1].name@, target[i - 1].name@))
        } else {
            prev
        }
    }
}

/// The renames that reach the filesystem: none on a dry run.
pub open spec fn performed_renames(
    args: Args,
    source: Seq<FileEntry>,
    target: Seq<FileEntry>,
    env: Seq<PairEnv>,
    i: int,
) -> Seq<(Seq<char>, Seq<char>, Seq<char>)> {
    if args.dry {
        Seq::empty()
    } else {
        intended_renames(args, source, target, env, i)
    }
}

/// One rename to perform on disk: the file `from` inside `folder` gets
/// the name `to`.
pub struct RenameOp {
    pub folder: String,
    pub from: String,
    pub to: String,
}

/// The views (folder, from, to) of a sequence of rename operations.
pub open spec fn rename_op_views(s: Seq<RenameOp>) -> Seq<(Seq<char>, Seq<char>, Seq<char>)> {
    s.map_values(|o: RenameOp| (o.folder@, o.from@, o.to@))
}

/// The output list never outgrows the pairs decided so far, and every
/// output entry stands under its source entry's folder and carries the
/// name of the target entry at the position it came from.
pub proof fn lemma_output_matches_targets(
    args: Args,
    source: Seq<FileEntry>,
    target: Seq<FileEntry>,
    env: Seq<PairEnv>,
    i: int,
)
    requires
        0 <= i <= source.len(),
    ensures
        included_views(args, source, target, env, i).len() <= i,
        forall|j: int|
            0 <= j < included_views(args, source, target, env, i).len() ==> exists|k: int|
                0 <= k < i && k < target.len() && #[trigger] included_views(
                    args,
                    source,
                    target,
                    env,
                    i,
                )[j] == (source[k].parent@, target[k].name@),
    decreases i,
{
    if i > 0 {
        lemma_output_matches_targets(args, source, target, env, i - 1);
        let prev = included_views(args, source, target, env, i - 1);
        let cur = included_views(args, source, target, env, i);
        assert forall|j: int| 0 <= j < cur.len() implies exists|k: int|
            0 <= k < i && k < target.len() && #[trigger] cur[j] == (
                source[k].parent@,
                target[k].name@,
            ) by {
            if j < prev.len() {
                assert(cur[j] == prev[j]);
                let k = choose|k: int|
                    0 <= k < i - 1 && k < target.len() && prev[j] == (
                        source[k].parent@,
                        target[k].name@,
                    );
                assert(cur[j] == (source[k].parent@, target[k].name@));
            } else {
                assert(spec_included(decision_at(args, source, target, env, i - 1)));
                assert(i - 1 < target.len());
                assert(cur[j] == (source[i - 1].parent@, target[i - 1].name@));
            }
        }
    }
}

/// Pairing a source list whose names already match the target names
/// decides `Identical` at every position, calls for no rename at all,
/// and returns the source list unchanged — so pairing the output once
/// more does the same again.
pub proof fn lemma_pairer_idempotent(
    args: Args,
    source: Seq<FileEntry>,
    target: Seq<FileEntry>,
    env: Seq<PairEnv>,
    i: int,
)
    requires
        0 <= i <= source.len(),
        source.len() <= target.len(),
        forall|k: int| 0 <= k < source.len() ==> (#[trigger] source[k]).name@ == target[k].name@,
    ensures
        forall|k: int|
            0 <= k < i ==> decision_at(args, source, target, env, k) == PairDecision::Identical,
        intended_renames(args, source, target, env, i).len() == 0,
        included_views(args, source, target, env, i) == entry_views(source).take(i),
    decreases i,
{
    if i > 0 {
        lemma_pairer_idempotent(args, source, target, env, i - 1);
        assert(included_views(args, source, target, env, i) =~= entry_views(source).take(i));
    } else {
        assert(included_views(args, source, target, env, i) =~= entry_views(source).take(i));
    }
}

/// Past the end of the target list every pair is skipped: the decision
/// is `NoTarget`, whose warning the caller reports, and neither the
/// output list nor the rename list grows any further.
pub proof fn lemma_pairer_boundary(
    args: Args,
    source: Seq<FileEntry>,
    target: Seq<FileEntry>,
    env: Seq<PairEnv>,
    i: int,
)
    requires
        target.len() <= i <= source.len(),
    ensures
        forall|k: int|
            target.len() <= k < source.len() ==> decision_at(args, source, target, env, k)
                == PairDecision::NoTarget,
        included_views(args, source, target, env, i) == included_views(
            args,
            source,
            target,
            env,
            target.len() as int,
        ),
        intended_renames(args, source, target, env, i) == intended_renames(
            args,
            source,
            target,
            env,
            target.len() as int,
        ),
    decreases i,
{
    if i > target.len() {
        lemma_pairer_boundary(args, source, target, env, i - 1);
    }
}

/// On a dry run no rename reaches the filesystem, and the run includes
/// and intends exactly what a run with auto-rename enabled and every
/// prompt answered with its default (no) would include and perform.
pub proof fn lemma_pairer_dry_run(
    args: Args,
    wet: Args,
    source: Seq<FileEntry>,
    target: Seq<FileEntry>,
    env: Seq<PairEnv>,
    i: int,
)
    requires
        args.dry,
        !wet.dry,
        wet.rename,
        forall|k: int| 0 <= k < env.len() ==> !(#[trigger] env[k]).answer,
        0 <= i <= source.len(),
        env.len() == source.len(),
    ensures
        performed_renames(args, source, target, env, i).len() == 0,
        included_views(wet, source, target, env, i) == included_views(args, source, target, env, i),
        performed_renames(wet, source, target, env, i) == intended_renames(
            args,
            source,
            target,
            env,
            i,
        ),
    decreases i,
{
    if i > 0 {
        lemma_pairer_dry_run(args, wet, source, target, env, i - 1);
    }
}

/// Everything one pairing run decides: the output list, the decision at
/// each position, and the renames to perform on disk.
pub struct PairReport {
    pub included: Vec<FileEntry>,
    pub decisions: Vec<PairDecision>,
    pub renames: Vec<RenameOp>,
}

/// Pairs the i-th source entry with the i-th target entry and decides
/// each pair: kept as is when the names match, renamed to the target's
/// name when they are similar (or when the operator agrees), excluded
/// otherwise.  The caller performs `renames` on disk, in order, unless
/// the run is dry.
pub fn rename_files(args: &Args, source: &Vec<FileEntry>, target: &Vec<FileEntry>, env: &Vec<
    PairEnv,
>) -> (r: PairReport)
    requires
        env@.len() == source@.len(),
    ensures
        r.decisions@.len() == source@.len(),
        forall|i: int|
            0 <= i < source@.len() ==> r.decisions@[i] == decision_at(
                *args,
                source@,
                target@,
                env@,
                i,
            ),
        entry_views(r.included@) == included_views(
            *args,
            source@,
            target@,
            env@,
            source@.len() as int,
        ),
        rename_op_views(r.renames@) == performed_renames(
            *args,
            source@,
            target@,
            env@,
            source@.len() as int,
        ),
{
    let mut included: Vec<FileEntry> = Vec::new();
    let mut decisions: Vec<PairDecision> = Vec::new();
    let mut renames: Vec<RenameOp> = Vec::new();
    let mut i: usize = 0;
    while i < source.len()
        invariant
            i <= source@.len(),
            env@.len() == source@.len(),
            decisions@.len() == i,
            forall|j: int|
                0 <= j < i ==> decisions@[j] == decision_at(*args, source@, target@, env@, j),
            entry_views(included@) == included_views(*args, source@, target@, env@, i as int),
            rename_op_views(renames@) == performed_renames(
                *args,
                source@,
                target@,
                env@,
                i as int,
            ),
        decreases source@.len() - i,
    {
        let ghost old_included = included@;
        let ghost old_renames = renames@;
        if i < target.len() {
            let identical = source[i].name == target[i].name;
            let d = decide_pair(args, identical, env[i]);
            decisions.push(d);
            match d {
                PairDecision::Identical | PairDecision::RenameAuto
                | PairDecision::RenameConfirmed | PairDecision::MismatchForced => {
                    included.push(
                        FileEntry::new(source[i].parent.clone(), target[i].name.clone()),
                    );
                },
                _ => {},
            }
            let performs = match d {
                PairDecision::RenameAuto | PairDecision::RenameConfirmed
                | PairDecision::MismatchForced => !args.dry,
                _ => false,
            };
            if performs {
                renames.push(
                    RenameOp {
                        folder: source[i].parent.clone(),
                        from: source[i].name.clone(),
                        to: target[i].name.clone(),
                    },
                );
            }
        } else {
            decisions.push(PairDecision::NoTarget);
        }
        proof {
            if spec_included(decision_at(*args, source@, target@, env@, i as int)) {
                assert(entry_views(included@) =~= entry_views(old_included).push(
                    (source@[i as int].parent@, target@[i as int].name@),
                ));
            }
            if !args.dry && intends_rename(decision_at(*args, source@, target@, env@, i as int)) {
                assert(rename_op_views(renames@) =~= rename_op_views(old_renames).push(
                    (source@[i as int].parent@, source@[i as int].name@, target@[i as int].name@),
                ));
            }
        }
        i += 1;
    }
    PairReport { included, decisions, renames }
}

} // verus!
