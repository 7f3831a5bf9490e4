use vstd::prelude::*;

use crate::config::names_of;
use crate::config::FileEntry;

verus! {

/// What `lexical_sort::natural_lexical_cmp` returns on two strings, as a
/// reflexive comparison: true unless the first string orders strictly
/// after the second.  The comparison depends on the two strings alone.
pub uninterp spec fn nat_leq(a: Seq<char>, b: Seq<char>) -> bool;

pub open spec fn is_ascii_char(c: char) -> bool {
    (c as int) < 128
}

pub open spec fn is_digit_char(c: char) -> bool {
    48 <= (c as int) && (c as int) <= 57
}

/// Twenty decimal digits in a row, starting at position `i`.
pub open spec fn digit_run_at(s: Seq<char>, i: int) -> bool {
    forall|j: int| i <= j < i + 20 ==> is_digit_char(#[trigger] s[j])
}

/// Safe input for the natural comparison: ASCII characters only, and no
/// run of twenty consecutive decimal digits.  The comparison accumulates
/// each digit run in a 64-bit integer, which holds any nineteen-digit
/// value but not every twenty-digit one.
pub open spec fn cmp_safe(s: Seq<char>) -> bool {
    &&& forall|i: int| 0 <= i < s.len() ==> is_ascii_char(#[trigger] s[i])
    &&& forall|i: int| 0 <= i && i + 20 <= s.len() ==> !#[trigger] digit_run_at(s, i)
}

/// The natural order relates any two strings, one way or the other.
pub open spec fn nat_order_total() -> bool {
    forall|a: Seq<char>, b: Seq<char>| #[trigger] nat_leq(a, b) || #[trigger] nat_leq(b, a)
}

/// The natural order is transitive.
pub open spec fn nat_order_transitive() -> bool {
    forall|a: Seq<char>, b: Seq<char>, c: Seq<char>|
        #[trigger] nat_leq(a, b) && #[trigger] nat_leq(b, c) ==> nat_leq(a, c)
}

/// The entries' full paths stand in natural order, pairwise.
pub open spec fn sorted_by_nat(s: Seq<FileEntry>) -> bool {
    forall|i: int, j: int|
        0 <= i < j < s.len() ==> nat_leq(
            #[trigger] s[i].path_view(),
            #[trigger] s[j].path_view(),
        )
}

/// Relies on `lexical_sort::natural_lexical_cmp`: a pure comparison of
/// two strings in which embedded digit runs compare by numeric value.
/// Its result is a function of the two strings alone and is named by
/// `nat_leq`.  The comparison accumulates each digit run in a `u64`,
/// hence the bound in `cmp_safe`.
#[verifier::external_body]
fn entry_leq(a: &FileEntry, b: &FileEntry) -> (r: bool)
    requires
        cmp_safe(a.path_view()),
        cmp_safe(b.path_view()),
    ensures
        r == nat_leq(a.path_view(), b.path_view()),
{
    let pa = format!("{}/{}", a.parent, a.name);
    let pb = format!("{}/{}", b.parent, b.name);
    match lexical_sort::natural_lexical_cmp(&pa, &pb) {
        std::cmp::Ordering::Greater => false,
        _ => true,
    }
}

/// Sorts the entries by the natural order of their full paths.  The
/// result holds exactly the given entries; it stands in natural order
/// wherever the named comparison is a total preorder, which the order
/// the outside comparison implements is meant to be.
pub fn sort_entries(v: Vec<FileEntry>) -> (r: Vec<FileEntry>)
    requires
        forall|i: int| 0 <= i < v@.len() ==> cmp_safe(#[trigger] v@[i].path_view()),
    ensures
        r@.to_multiset() == v@.to_multiset(),
        names_of(r@).to_multiset() == names_of(v@).to_multiset(),
        r@.len() == v@.len(),
        forall|i: int| 0 <= i < r@.len() ==> cmp_safe(#[trigger] r@[i].path_view()),
        nat_order_total() && nat_order_transitive() ==> sorted_by_nat(r@),
{
    broadcast use vstd::seq_lib::group_to_multiset_ensures;

    let mut out: Vec<FileEntry> = Vec::new();
    let mut idx: usize = 0;
    while idx < v.len()
        invariant
            idx <= v.len(),
            forall|i: int| 0 <= i < v@.len() ==> cmp_safe(#[trigger] v@[i].path_view()),
            out@.to_multiset() == v@.take(idx as int).to_multiset(),
            names_of(out@).to_multiset() == names_of(v@.take(idx as int)).to_multiset(),
            out@.len() == idx,
            forall|i: int| 0 <= i < out@.len() ==> cmp_safe(#[trigger] out@[i].path_view()),
            nat_order_total() && nat_order_transitive() ==> sorted_by_nat(out@),
        decreases v.len() - idx,
    {
        let e = v[idx].clone();
        let mut k: usize = 0;
        while k < out.len() && entry_leq(&out[k], &e)
            invariant
                k <= out.len(),
                e == v@[idx as int],
                idx < v@.len(),
                forall|i: int| 0 <= i < v@.len() ==> cmp_safe(#[trigger] v@[i].path_view()),
                forall|i: int| 0 <= i < out@.len() ==> cmp_safe(#[trigger] out@[i].path_view()),
                forall|m: int|
                    0 <= m < k ==> nat_leq(#[trigger] out@[m].path_view(), e.path_view()),
            decreases out.len() - k,
        {
            k += 1;
        }
        proof {
            assert(v@.take(idx as int + 1) =~= v@.take(idx as int).push(v@[idx as int]));
        }
        let ghost old_out = out@;
        out.insert(k, e);
        proof {
            assert(out@ == old_out.insert(k as int, e));
            vstd::seq_lib::to_multiset_insert(old_out, k as int, e);
            vstd::seq_lib::to_multiset_build(v@.take(idx as int), v@[idx as int]);
            assert(names_of(out@) =~= names_of(old_out).insert(k as int, e.name@));
            vstd::seq_lib::to_multiset_insert(names_of(old_out), k as int, e.name@);
            assert(names_of(v@.take(idx as int + 1)) =~= names_of(v@.take(idx as int)).push(
                v@[idx as int].name@,
            ));
            vstd::seq_lib::to_multiset_build(names_of(v@.take(idx as int)), v@[idx as int].name@);
            if nat_order_total() && nat_order_transitive() {
                assert forall|i: int, j: int| 0 <= i < j < out@.len() implies nat_leq(
                    out@[i].path_view(),
                    out@[j].path_view(),
                ) by {
                    if j == k as int {
                        // out[j] is e and every earlier element is below e
                    } else if i == k as int {
                        // out[i] is e; e is below old_out[k], which is below out[j]
                        if k < old_out.len() {
                            assert(!nat_leq(old_out[k as int].path_view(), e.path_view()));
                            assert(nat_leq(e.path_view(), old_out[k as int].path_view()));
                        }
                    }
                }
            }
        }
        idx += 1;
    }
    proof {
        assert(v@.take(v@.len() as int) =~= v@);
    }
    out
}

} // verus!
