use vstd::prelude::*;

use crate::config::names_of;
use crate::config::strings_view;
use crate::config::Args;
use crate::config::FileEntry;
use crate::natural::cmp_safe;
use crate::natural::nat_order_total;
use crate::natural::nat_order_transitive;
use crate::natural::sort_entries;
use crate::natural::sorted_by_nat;

verus! {

/// Position of the last dot of `name` that does not stand first, or -1
/// when there is none.
pub open spec fn last_dot(name: Seq<char>) -> int
    decreases name.len(),
{
    if name.len() == 0 {
        -1
    } else if name[name.len() - 1] == '.' && name.len() >= 2 {
        name.len() - 1
    } else {
        last_dot(name.drop_last())
    }
}

/// The extension of a file name: what follows the last dot, where a dot
/// that starts the name does not count; empty when there is no such dot.
pub open spec fn spec_ext(name: Seq<char>) -> Seq<char> {
    if last_dot(name) >= 0 {
        name.subrange(last_dot(name) + 1, name.len() as int)
    } else {
        Seq::empty()
    }
}

proof fn lemma_last_dot_found(name: Seq<char>, d: int)
    requires
        1 <= d < name.len(),
        name[d] == '.',
        forall|k: int| d < k < name.len() ==> name[k] != '.',
    ensures
        last_dot(name) == d,
    decreases name.len(),
{
    if d < name.len() - 1 {
        lemma_last_dot_found(name.drop_last(), d);
    }
}

proof fn lemma_last_dot_none(name: Seq<char>)
    requires
        forall|k: int| 1 <= k < name.len() ==> name[k] != '.',
    ensures
        last_dot(name) == -1,
    decreases name.len(),
{
    if name.len() > 0 {
        lemma_last_dot_none(name.drop_last());
    }
}

/// Returns the extension of `name`, without the dot; the empty string
/// when the name has no extension.
pub fn ext_of(name: &String) -> (e: String)
    ensures
        e@ == spec_ext(name@),
{
    let s = name.as_str();
    let n = s.unicode_len();
    let mut i: usize = n;
    while i > 1 && s.get_char(i - 1) != '.'
        invariant
            i <= n,
            n == name@.len(),
            s@ == name@,
            forall|k: int| i <= k < n ==> name@[k] != '.',
        decreases i,
    {
        i -= 1;
    }
    if i >= 2 {
        proof {
            lemma_last_dot_found(name@, i - 1);
        }
        let e = s.substring_char(i, n);
        String::from_str(e)
    } else {
        proof {
            lemma_last_dot_none(name@);
        }
        String::new()
    }
}

/// What `str::to_lowercase` returns: the lower-case form of a string, a
/// function of its characters alone.
pub uninterp spec fn lower_of(s: Seq<char>) -> Seq<char>;

/// Relies on `str::to_lowercase`: the result depends on the characters
/// alone, and an empty string stays empty.
#[verifier::external_body]
fn to_lower(s: &String) -> (r: String)
    ensures
        r@ == lower_of(s@),
        s@.len() == 0 ==> r@.len() == 0,
{
    s.to_lowercase()
}

/// True when the lowered extension of `name` is one of `exts`.
pub open spec fn keeps(exts: Seq<Seq<char>>, name: Seq<char>) -> bool {
    exts.contains(lower_of(spec_ext(name)))
}

/// The names among `names` whose lowered extension is one of `exts`, in
/// the order given.
pub open spec fn kept_names(exts: Seq<Seq<char>>, names: Seq<Seq<char>>) -> Seq<Seq<char>> {
    names.filter(|n: Seq<char>| keeps(exts, n))
}

fn contains_string(list: &Vec<String>, x: &String) -> (r: bool)
    ensures
        r == strings_view(list@).contains(x@),
{
    let mut i: usize = 0;
    while i < list.len()
        invariant
            i <= list@.len(),
            forall|k: int| 0 <= k < i ==> strings_view(list@)[k] != x@,
        decreases list@.len() - i,
    {
        if list[i] == *x {
            proof {
                assert(strings_view(list@)[i as int] == x@);
            }
            return true;
        }
        i += 1;
    }
    false
}

/// Gathers one directory's listing: keeps each name whose extension,
/// lowered, is one of the configured extensions, attaches the parent
/// folder, and sorts the entries by the natural order of their paths.
/// The result holds exactly the kept names, each under `parent`.
pub fn gather(args: &Args, parent: &String, names: Vec<String>) -> (r: Vec<FileEntry>)
    requires
        forall|i: int|
            0 <= i < names@.len() ==> cmp_safe(
                parent@ + seq!['/'] + #[trigger] strings_view(names@)[i],
            ),
    ensures
        forall|i: int| 0 <= i < r@.len() ==> (#[trigger] r@[i]).parent@ == parent@,
        forall|i: int|
            0 <= i < r@.len() ==> keeps(
                strings_view(args.extensions@),
                (#[trigger] r@[i]).name@,
            ),
        names_of(r@).to_multiset() == kept_names(
            strings_view(args.extensions@),
            strings_view(names@),
        ).to_multiset(),
        nat_order_total() && nat_order_transitive() ==> sorted_by_nat(r@),
{
    let ghost exts = strings_view(args.extensions@);
    let mut kept: Vec<FileEntry> = Vec::new();
    let mut i: usize = 0;
    while i < names.len()
        invariant
            i <= names@.len(),
            forall|j: int|
                0 <= j < names@.len() ==> cmp_safe(
                    parent@ + seq!['/'] + #[trigger] strings_view(names@)[j],
                ),
            exts == strings_view(args.extensions@),
            names_of(kept@) == kept_names(exts, strings_view(names@).take(i as int)),
            forall|j: int| 0 <= j < kept@.len() ==> (#[trigger] kept@[j]).parent@ == parent@,
            forall|j: int| 0 <= j < kept@.len() ==> keeps(exts, (#[trigger] kept@[j]).name@),
            forall|j: int| 0 <= j < kept@.len() ==> cmp_safe(#[trigger] kept@[j].path_view()),
        decreases names@.len() - i,
    {
        let name = names[i].clone();
        let ext = ext_of(&name);
        let low = to_lower(&ext);
        let ghost old_kept = kept@;
        if contains_string(&args.extensions, &low) {
            kept.push(FileEntry::new(parent.clone(), name));
        }
        proof {
            let nv = strings_view(names@);
            assert(nv.take(i as int + 1) =~= nv.take(i as int).push(nv[i as int]));
            nv.take(i as int).lemma_filter_push(nv[i as int], |n: Seq<char>| keeps(exts, n));
            if keeps(exts, nv[i as int]) {
                assert(names_of(kept@) =~= names_of(old_kept).push(nv[i as int]));
            }
        }
        i += 1;
    }
    proof {
        assert(strings_view(names@).take(names@.len() as int) =~= strings_view(names@));
    }
    let r = sort_entries(kept);
    proof {
        broadcast use vstd::seq_lib::group_to_multiset_ensures;

        assert forall|i: int| 0 <= i < r@.len() implies (#[trigger] r@[i]).parent@ == parent@
            && keeps(exts, r@[i].name@) by {
            assert(r@.contains(r@[i]));
            assert(kept@.to_multiset().contains(r@[i]));
            assert(kept@.contains(r@[i]));
            let j = choose|j: int| 0 <= j < kept@.len() && kept@[j] == r@[i];
            assert(kept@[j].parent@ == parent@);
        }
    }
    r
}

} // verus!
