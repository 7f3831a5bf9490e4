use vstd::prelude::*;

use crate::config::Args;
use crate::config::FileEntry;
use crate::natural::is_digit_char;

verus! {

/// Two reported durations count as close when they differ by less than
/// this many milliseconds.
pub const DURATION_CLOSE_MILLIS: u64 = 900;

/// `a` and `b` differ by less than `to`.
pub open spec fn spec_is_close(a: u64, b: u64, to: u64) -> bool {
    (if a >= b {
        a - b
    } else {
        b - a
    }) < to
}

/// True when `a` and `b` differ by less than `to`.  Durations are carried
/// as whole milliseconds.
pub fn is_close(a: u64, b: u64, to: u64) -> (r: bool)
    ensures
        r == spec_is_close(a, b, to),
{
    if a >= b {
        a - b < to
    } else {
        b - a < to
    }
}

pub open spec fn all_digits(s: Seq<char>) -> bool {
    forall|i: int| 0 <= i < s.len() ==> is_digit_char(#[trigger] s[i])
}

/// The value of a string of decimal digits.
pub open spec fn digits_val(s: Seq<char>) -> int
    decreases s.len(),
{
    if s.len() == 0 {
        0
    } else {
        digits_val(s.drop_last()) * 10 + (s.last() as int) - 48
    }
}

/// Index of the first dot of `s`, or its length when there is none.
pub open spec fn first_dot(s: Seq<char>) -> int
    decreases s.len(),
{
    if s.len() == 0 {
        0
    } else if s[0] == '.' {
        0
    } else {
        1 + first_dot(s.drop_first())
    }
}

/// A well-formed duration string: one to fifteen digits, optionally
/// followed by a dot and further digits.  Fifteen integer digits keep
/// the millisecond value inside a 64-bit integer.
pub open spec fn wf_duration(s: Seq<char>) -> bool {
    let d = first_dot(s);
    &&& 1 <= d <= 15
    &&& all_digits(s.take(d))
    &&& (d < s.len() ==> all_digits(s.subrange(d + 1, s.len() as int)))
}

/// The milliseconds a fraction part stands for, read to the third digit.
pub open spec fn frac_millis(f: Seq<char>) -> int {
    if f.len() >= 3 {
        digits_val(f.take(3))
    } else if f.len() == 2 {
        digits_val(f) * 10
    } else if f.len() == 1 {
        digits_val(f) * 100
    } else {
        0
    }
}

/// The value of a well-formed duration string, in milliseconds.
pub open spec fn spec_duration_millis(s: Seq<char>) -> int {
    let d = first_dot(s);
    if d < s.len() {
        digits_val(s.take(d)) * 1000 + frac_millis(s.subrange(d + 1, s.len() as int))
    } else {
        digits_val(s) * 1000
    }
}

spec fn pow10(n: int) -> int
    decreases n,
{
    if n <= 0 {
        1
    } else {
        10 * pow10(n - 1)
    }
}

proof fn lemma_pow10_pos(a: int)
    requires
        0 <= a,
    ensures
        pow10(a) >= 1,
    decreases a,
{
    if a > 0 {
        lemma_pow10_pos(a - 1);
    }
}

proof fn lemma_pow10_monotone(a: int, b: int)
    requires
        0 <= a <= b,
    ensures
        1 <= pow10(a) <= pow10(b),
    decreases b - a,
{
    if a < b {
        lemma_pow10_monotone(a, b - 1);
    } else {
        lemma_pow10_pos(a);
    }
}

proof fn lemma_pow10_vals()
    ensures
        pow10(0) == 1,
        pow10(1) == 10,
        pow10(2) == 100,
        pow10(3) == 1000,
{
    reveal_with_fuel(pow10, 5);
}

proof fn lemma_pow10_fifteen()
    ensures
        pow10(15) == 1000000000000000,
        pow10(14) == 100000000000000,
{
    reveal_with_fuel(pow10, 17);
}

proof fn lemma_first_dot_at(s: Seq<char>, d: int)
    requires
        0 <= d <= s.len(),
        d < s.len() ==> s[d] == '.',
        forall|k: int| 0 <= k < d ==> s[k] != '.',
    ensures
        first_dot(s) == d,
    decreases d,
{
    if d > 0 {
        lemma_first_dot_at(s.drop_first(), d - 1);
    }
}

proof fn lemma_first_dot_none(s: Seq<char>)
    requires
        forall|k: int| 0 <= k < s.len() ==> s[k] != '.',
    ensures
        first_dot(s) == s.len(),
    decreases s.len(),
{
    if s.len() > 0 {
        lemma_first_dot_none(s.drop_first());
    }
}

/// Reads a duration string — digits, optionally a dot and more digits —
/// as whole milliseconds, the fraction read to the third digit.  Returns
/// nothing on any other shape, or when the integer part has more than
/// fifteen digits.
pub fn duration_millis(s: &String) -> (r: Option<u64>)
    ensures
        r is Some <==> wf_duration(s@),
        r is Some ==> r->0 == spec_duration_millis(s@),
{
    let st = s.as_str();
    let n = st.unicode_len();
    // find the first dot
    let mut d: usize = 0;
    while d < n && st.get_char(d) != '.'
        invariant
            d <= n,
            n == s@.len(),
            st@ == s@,
            forall|k: int| 0 <= k < d ==> s@[k] != '.',
        decreases n - d,
    {
        d += 1;
    }
    proof {
        if d < n {
            lemma_first_dot_at(s@, d as int);
        } else {
            lemma_first_dot_none(s@);
        }
    }
    if d < 1 || d > 15 {
        return None;
    }
    // integer part
    let mut val: u64 = 0;
    let mut i: usize = 0;
    while i < d
        invariant
            i <= d,
            1 <= d <= 15,
            d <= n,
            n == s@.len(),
            st@ == s@,
            first_dot(s@) == d,
            all_digits(s@.take(i as int)),
            val == digits_val(s@.take(i as int)),
            val < pow10(i as int),
        decreases d - i,
    {
        let c = st.get_char(i);
        let u = c as u32;
        if u < 48 || u > 57 {
            proof {
                assert(s@.take(d as int)[i as int] == s@[i as int]);
                assert(!all_digits(s@.take(d as int)));
            }
            return None;
        }
        proof {
            assert(s@.take(i as int + 1).drop_last() =~= s@.take(i as int));
            assert(s@.take(i as int + 1).last() == s@[i as int]);
            lemma_pow10_monotone(i as int, 14);
            lemma_pow10_fifteen();
            assert(pow10(i as int + 1) == 10 * pow10(i as int));
        }
        val = val * 10 + ((u - 48) as u64);
        i += 1;
    }
    proof {
        lemma_pow10_monotone(d as int, 15);
        lemma_pow10_fifteen();
        assert(s@.take(d as int) =~= s@.take(i as int));
        if d == n {
            assert(s@.take(d as int) =~= s@);
        }
    }
    // fraction part
    let mut fr: u64 = 0;
    if d < n {
        let ghost f = s@.subrange(d as int + 1, n as int);
        let mut cnt: usize = 0;
        let mut j: usize = d + 1;
        while j < n
            invariant
                d + 1 <= j <= n,
                d < n,
                n == s@.len(),
                st@ == s@,
                first_dot(s@) == d,
                all_digits(s@.subrange(d as int + 1, j as int)),
                f == s@.subrange(d as int + 1, n as int),
                cnt == if j - d - 1 <= 3 {
                    j - d - 1
                } else {
                    3
                },
                fr == digits_val(f.take(cnt as int)),
                fr < pow10(cnt as int),
            decreases n - j,
        {
            let c = st.get_char(j);
            let u = c as u32;
            if u < 48 || u > 57 {
                proof {
                    assert(f[j - d - 1] == s@[j as int]);
                    assert(!all_digits(f));
                }
                return None;
            }
            proof {
                assert(s@.subrange(d as int + 1, j as int + 1).drop_last() =~= s@.subrange(
                    d as int + 1,
                    j as int,
                ));
                assert(s@.subrange(d as int + 1, j as int + 1).last() == s@[j as int]);
                if cnt < 3 {
                    assert(f.take(cnt as int + 1).drop_last() =~= f.take(cnt as int));
                    assert(f.take(cnt as int + 1).last() == f[cnt as int]);
                    assert(f[cnt as int] == s@[j as int]);
                    lemma_pow10_vals();
                    assert(pow10(cnt as int + 1) == 10 * pow10(cnt as int));
                }
            }
            if cnt < 3 {
                fr = fr * 10 + ((u - 48) as u64);
                cnt += 1;
            }
            j += 1;
        }
        proof {
            assert(s@.subrange(d as int + 1, n as int) =~= f);
            assert(f.len() >= cnt);
            lemma_pow10_vals();
            if f.len() <= 3 {
                assert(f.take(f.len() as int) =~= f);
            }
        }
        // pad a short fraction with zeros up to the third place
        if cnt == 1 {
            fr = fr * 100;
        } else if cnt == 2 {
            fr = fr * 10;
        }
        proof {
            assert(fr == frac_millis(f));
            assert(fr < 1000);
        }
    }
    Some(val * 1000 + fr)
}

/// What the world contributes to one copy decision: the two media
/// durations (zero when unknown or when the check is off) and the
/// operator's answers if asked.
#[derive(Clone, Copy)]
pub struct CopyEnv {
    /// Source media duration in milliseconds; zero when unknown.
    pub dur_src: u64,
    /// Existing destination media duration in milliseconds; zero when
    /// unknown.
    pub dur_tgt: u64,
    /// Answer to the duration-mismatch prompt (default yes).
    pub duration_answer: bool,
    /// Answer to the overwrite prompt (default no).
    pub overwrite_answer: bool,
}

/// The fate of one file in the copy stage.
#[derive(PartialEq, Eq, Structural, Clone, Copy, Debug)]
pub enum CopyOutcome {
    /// Dry run: the intended copy is only reported.
    Reported,
    /// The destination is removed and the file copied over it.
    Copied,
    /// The durations disagree and the operator declined the override.
    SkippedDuration,
    /// The operator declined the overwrite.
    SkippedOverwrite,
}

/// With the duration check on, both durations are known and they differ
/// by the threshold or more.
pub open spec fn spec_duration_mismatch(check: bool, e: CopyEnv) -> bool {
    check && e.dur_src > 0 && e.dur_tgt > 0 && !spec_is_close(
        e.dur_src,
        e.dur_tgt,
        DURATION_CLOSE_MILLIS,
    )
}

/// The fate of one file, given the flags and the world's contribution.
pub open spec fn spec_copy_outcome(dry: bool, check: bool, overwrite: bool, e: CopyEnv) -> CopyOutcome {
    if dry {
        CopyOutcome::Reported
    } else if spec_duration_mismatch(check, e) && !e.duration_answer {
        CopyOutcome::SkippedDuration
    } else if overwrite || e.overwrite_answer {
        CopyOutcome::Copied
    } else {
        CopyOutcome::SkippedOverwrite
    }
}

/// Decides the fate of one file in the copy stage.
pub fn decide_copy(args: &Args, e: CopyEnv) -> (o: CopyOutcome)
    ensures
        o == spec_copy_outcome(args.dry, args.check, args.overwrite, e),
{
    if args.dry {
        CopyOutcome::Reported
    } else {
        let mismatch = args.check && e.dur_src > 0 && e.dur_tgt > 0 && !is_close(
            e.dur_src,
            e.dur_tgt,
            DURATION_CLOSE_MILLIS,
        );
        if mismatch && !e.duration_answer {
            CopyOutcome::SkippedDuration
        } else if args.overwrite || e.overwrite_answer {
            CopyOutcome::Copied
        } else {
            CopyOutcome::SkippedOverwrite
        }
    }
}

/// Copying this file will ask the operator whether to override a
/// duration mismatch (default yes).
pub fn copy_needs_duration_prompt(args: &Args, e: CopyEnv) -> (b: bool)
    ensures
        b == (!args.dry && spec_duration_mismatch(args.check, e)),
{
    !args.dry && args.check && e.dur_src > 0 && e.dur_tgt > 0 && !is_close(
        e.dur_src,
        e.dur_tgt,
        DURATION_CLOSE_MILLIS,
    )
}

/// Copying this file will ask the operator whether to overwrite the
/// destination (default no).
pub fn copy_needs_overwrite_prompt(args: &Args, e: CopyEnv) -> (b: bool)
    ensures
        b == (!args.dry && !args.overwrite && !(spec_duration_mismatch(args.check, e)
            && !e.duration_answer)),
{
    if args.dry || args.overwrite {
        false
    } else {
        let mismatch = args.check && e.dur_src > 0 && e.dur_tgt > 0 && !is_close(
            e.dur_src,
            e.dur_tgt,
            DURATION_CLOSE_MILLIS,
        );
        !(mismatch && !e.duration_answer)
    }
}

/// One copy to perform on disk: remove the file named `name` inside
/// `dest_folder`, then copy `from_folder`/`name` to its place.
pub struct CopyOp {
    pub from_folder: String,
    pub name: String,
    pub dest_folder: String,
}

/// The views (from folder, name, destination folder) of copy operations.
pub open spec fn copy_op_views(s: Seq<CopyOp>) -> Seq<(Seq<char>, Seq<char>, Seq<char>)> {
    s.map_values(|o: CopyOp| (o.from_folder@, o.name@, o.dest_folder@))
}

/// The fate of the file at position `i`.
pub open spec fn outcome_at(args: Args, env: Seq<CopyEnv>, i: int) -> CopyOutcome {
    spec_copy_outcome(args.dry, args.check, args.overwrite, env[i])
}

/// The copies the first `i` files get, as (from folder, name,
/// destination folder) views: none on a dry run.
pub open spec fn performed_copies(
    args: Args,
    files: Seq<FileEntry>,
    dest: Seq<char>,
    env: Seq<CopyEnv>,
    i: int,
) -> Seq<(Seq<char>, Seq<char>, Seq<char>)>
    decreases i,
{
    if i <= 0 {
        Seq::empty()
    } else {
        let prev = performed_copies(args, files, dest, env, i - 1);
        if outcome_at(args, env, i - 1) == CopyOutcome::Copied {
            prev.push((files[i - 1].parent@, files[i - 1].name@, dest))
        } else {
            prev
        }
    }
}

/// What a dry run reports for the first `i` files: one intended copy for
/// each file in the list.
pub open spec fn reported_copies(files: Seq<FileEntry>, dest: Seq<char>, i: int) -> Seq<
    (Seq<char>, Seq<char>, Seq<char>),
>
    decreases i,
{
    if i <= 0 {
        Seq::empty()
    } else {
        reported_copies(files, dest, i - 1).push((files[i - 1].parent@, files[i - 1].name@, dest))
    }
}

/// Everything one copy run decides: the fate of each file and the
/// operations to perform on disk, in order.
pub struct CopyReport {
    pub outcomes: Vec<CopyOutcome>,
    pub ops: Vec<CopyOp>,
}

/// Decides the copy stage for a list of files bound for `dest_folder`:
/// each file's destination is `dest_folder` slash the file's name.  The
/// caller performs `ops` on disk, in order: remove the destination, then
/// copy.  On a dry run `ops` is empty and every outcome is `Reported`.
pub fn copy_files(args: &Args, files: &Vec<FileEntry>, dest_folder: &String, env: &Vec<
    CopyEnv,
>) -> (r: CopyReport)
    requires
        env@.len() == files@.len(),
    ensures
        r.outcomes@.len() == files@.len(),
        forall|i: int| 0 <= i < files@.len() ==> r.outcomes@[i] == outcome_at(*args, env@, i),
        copy_op_views(r.ops@) == performed_copies(
            *args,
            files@,
            dest_folder@,
            env@,
            files@.len() as int,
        ),
{
    let mut outcomes: Vec<CopyOutcome> = Vec::new();
    let mut ops: Vec<CopyOp> = Vec::new();
    let mut i: usize = 0;
    while i < files.len()
        invariant
            i <= files@.len(),
            env@.len() == files@.len(),
            outcomes@.len() == i,
            forall|j: int| 0 <= j < i ==> outcomes@[j] == outcome_at(*args, env@, j),
            copy_op_views(ops@) == performed_copies(*args, files@, dest_folder@, env@, i as int),
        decreases files@.len() - i,
    {
        let ghost old_ops = ops@;
        let o = decide_copy(args, env[i]);
        outcomes.push(o);
        match o {
            CopyOutcome::Copied => {
                ops.push(
                    CopyOp {
                        from_folder: files[i].parent.clone(),
                        name: files[i].name.clone(),
                        dest_folder: dest_folder.clone(),
                    },
                );
            },
            _ => {},
        }
        proof {
            if outcome_at(*args, env@, i as int) == CopyOutcome::Copied {
                assert(copy_op_views(ops@) =~= copy_op_views(old_ops).push(
                    (files@[i as int].parent@, files@[i as int].name@, dest_folder@),
                ));
            }
        }
        i += 1;
    }
    CopyReport { outcomes, ops }
}

/// On a dry run nothing reaches the filesystem — every file is only
/// reported — and what is reported is exactly what a run with
/// auto-overwrite enabled and every duration prompt answered with its
/// default (yes) would perform.
pub proof fn lemma_copier_dry_run(
    args: Args,
    wet: Args,
    files: Seq<FileEntry>,
    dest: Seq<char>,
    env: Seq<CopyEnv>,
    i: int,
)
    requires
        args.dry,
        !wet.dry,
        wet.overwrite,
        forall|k: int| 0 <= k < env.len() ==> (#[trigger] env[k]).duration_answer,
        0 <= i <= files.len(),
        env.len() == files.len(),
    ensures
        performed_copies(args, files, dest, env, i).len() == 0,
        forall|k: int| 0 <= k < i ==> outcome_at(args, env, k) == CopyOutcome::Reported,
        performed_copies(wet, files, dest, env, i) == reported_copies(files, dest, i),
    decreases i,
{
    if i > 0 {
        lemma_copier_dry_run(args, wet, files, dest, env, i - 1);
    }
}

proof fn lemma_digits_val_bound(s: Seq<char>)
    requires
        all_digits(s),
    ensures
        0 <= digits_val(s) < pow10(s.len() as int),
    decreases s.len(),
{
    if s.len() > 0 {
        assert(all_digits(s.drop_last()));
        lemma_digits_val_bound(s.drop_last());
        assert(pow10(s.len() as int) == 10 * pow10(s.len() - 1));
    }
}

} // verus!
