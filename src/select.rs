use vstd::prelude::*;

use crate::config::{Tags, opt_strings};
use crate::node::strings_view;
use crate::path::{path_segments, split_path};

verus! {

/// Whether a target at `target` passes the name filter `names` and the tag sets
/// `all_of` and `any_of`, given the active tags `runtime`.
pub open spec fn selected(
    target: Seq<char>,
    all_of: Seq<Seq<char>>,
    any_of: Seq<Seq<char>>,
    runtime: Seq<Seq<char>>,
    names: Seq<Seq<char>>,
) -> bool {
    &&& (names.len() == 0 || exists|i: int|
        0 <= i < names.len() && path_segments(#[trigger] names[i]) == path_segments(target))
    &&& forall|i: int| 0 <= i < all_of.len() ==> runtime.contains(#[trigger] all_of[i])
    &&& (any_of.len() == 0 || exists|i: int|
        0 <= i < any_of.len() && runtime.contains(#[trigger] any_of[i]))
}

/// A target that asks for no tag is selected whatever tags are active, unless a name
/// filter leaves it out.
pub proof fn lemma_untagged_always_selected(target: Seq<char>, runtime: Seq<Seq<char>>)
    ensures
        selected(target, Seq::empty(), Seq::empty(), runtime, Seq::empty()),
{
}

/// Whether `s` is one of the strings of `v`.
pub fn contains_string(v: &Vec<String>, s: &String) -> (r: bool)
    ensures
        r == strings_view(v@).contains(s@),
{
    let mut i: usize = 0;
    while i < v.len()
        invariant
            i <= v.len(),
            forall|j: int| 0 <= j < i ==> v@[j]@ != s@,
        decreases v.len() - i,
    {
        if v[i] == *s {
            assert(strings_view(v@)[i as int] == s@);
            return true;
        }
        i += 1;
    }
    assert(!strings_view(v@).contains(s@)) by {
        assert forall|j: int| 0 <= j < strings_view(v@).len() implies strings_view(v@)[j] != s@ by {
            assert(strings_view(v@)[j] == v@[j]@);
        }
    }
    false
}

/// Whether two lists of strings hold the same strings in the same order.
fn same_strings(a: &Vec<String>, b: &Vec<String>) -> (r: bool)
    ensures
        r == (strings_view(a@) == strings_view(b@)),
{
    if a.len() != b.len() {
        return false;
    }
    let mut i: usize = 0;
    while i < a.len()
        invariant
            i <= a.len(),
            a.len() == b.len(),
            forall|j: int| 0 <= j < i ==> a@[j]@ == b@[j]@,
        decreases a.len() - i,
    {
        if a[i] != b[i] {
            assert(strings_view(a@)[i as int] != strings_view(b@)[i as int]);
            return false;
        }
        i += 1;
    }
    assert(strings_view(a@) =~= strings_view(b@));
    true
}

/// Whether two paths have the same components.
pub fn same_path(a: &String, b: &String) -> (r: bool)
    ensures
        r == (path_segments(a@) == path_segments(b@)),
{
    let sa = split_path(a.as_str());
    let sb = split_path(b.as_str());
    same_strings(&sa, &sb)
}

/// Whether `name_filter` is empty or names the path `target_path`.
fn passes_name_filter(target_path: &String, name_filter: &Vec<String>) -> (r: bool)
    ensures
        r == (name_filter@.len() == 0 || exists|i: int|
            0 <= i < name_filter@.len() && path_segments(#[trigger] strings_view(name_filter@)[i])
                == path_segments(target_path@)),
{
    if name_filter.len() == 0 {
        return true;
    }
    let ghost names = strings_view(name_filter@);
    let mut i: usize = 0;
    while i < name_filter.len()
        invariant
            i <= name_filter.len(),
            names == strings_view(name_filter@),
            forall|j: int| 0 <= j < i ==> path_segments(#[trigger] names[j]) != path_segments(target_path@),
        decreases name_filter.len() - i,
    {
        assert(names[i as int] == name_filter@[i as int]@);
        if same_path(&name_filter[i], target_path) {
            return true;
        }
        i += 1;
    }
    false
}

/// Whether every tag of `wanted` is one of `active`.
fn all_active(wanted: &Vec<String>, active: &Vec<String>) -> (r: bool)
    ensures
        r == forall|i: int|
            0 <= i < wanted@.len() ==> strings_view(active@).contains(#[trigger] strings_view(wanted@)[i]),
{
    let mut i: usize = 0;
    while i < wanted.len()
        invariant
            i <= wanted.len(),
            forall|j: int| 0 <= j < i ==> strings_view(active@).contains(#[trigger] strings_view(wanted@)[j]),
        decreases wanted.len() - i,
    {
        assert(strings_view(wanted@)[i as int] == wanted@[i as int]@);
        if !contains_string(active, &wanted[i]) {
            return false;
        }
        i += 1;
    }
    true
}

/// Whether some tag of `wanted` is one of `active`.
fn any_active(wanted: &Vec<String>, active: &Vec<String>) -> (r: bool)
    ensures
        r == exists|i: int|
            0 <= i < wanted@.len() && strings_view(active@).contains(#[trigger] strings_view(wanted@)[i]),
{
    let mut i: usize = 0;
    while i < wanted.len()
        invariant
            i <= wanted.len(),
            forall|j: int| 0 <= j < i ==> !strings_view(active@).contains(#[trigger] strings_view(wanted@)[j]),
        decreases wanted.len() - i,
    {
        assert(strings_view(wanted@)[i as int] == wanted@[i as int]@);
        if contains_string(active, &wanted[i]) {
            return true;
        }
        i += 1;
    }
    false
}

/// Decides whether the target at `target_path` is managed: it must be named by
/// `name_filter` when that is not empty, every tag of `all_of` must be active, and
/// one tag of `any_of` must be active when that is not empty.
pub fn is_selected(target_path: &String, tags: &Tags, runtime_tags: &Vec<String>, name_filter: &Vec<String>) -> (r: bool)
    ensures
        r == selected(
            target_path@,
            opt_strings(tags.all_of),
            opt_strings(tags.any_of),
            strings_view(runtime_tags@),
            strings_view(name_filter@),
        ),
{
    if !passes_name_filter(target_path, name_filter) {
        return false;
    }
    let all_ok = match &tags.all_of {
        Some(all_of) => all_active(all_of, runtime_tags),
        None => true,
    };
    if !all_ok {
        return false;
    }
    match &tags.any_of {
        Some(any_of) => any_of.len() == 0 || any_active(any_of, runtime_tags),
        None => true,
    }
}

} // verus!
