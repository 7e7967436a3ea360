use vstd::prelude::*;

use crate::node::strings_view;
use crate::status::LinkOpts;

verus! {

/// Command-line arguments: what to do and how to filter the targets.
#[derive(Debug, Default, PartialEq, Eq)]
pub struct Park {
    /// Execute the linking step.
    pub link: bool,
    /// Replace mismatched symlinks.
    pub replace: bool,
    /// Create parent directories when needed.
    pub create_dirs: bool,
    /// Tags (each starting with a plus sign) or target names.
    pub filters: Vec<String>,
}

/// Relies on `str::strip_prefix`: the rest of the string after a leading `+`, if
/// there is one.
#[verifier::external_body]
fn strip_plus(s: &str) -> (r: Option<String>)
    ensures
        match r {
            Some(rest) => s@.len() > 0 && s@[0] == '+' && rest@ == s@.drop_first(),
            None => !(s@.len() > 0 && s@[0] == '+'),
        },
{
    s.strip_prefix('+').map(|rest| rest.to_string())
}

/// Whether a filter names a tag.
pub open spec fn is_tag(filter: Seq<char>) -> bool {
    filter.len() > 0 && filter[0] == '+'
}

/// The tags among `filters`, in order, without their plus sign.
pub open spec fn tags_of(filters: Seq<Seq<char>>) -> Seq<Seq<char>>
    decreases filters.len(),
{
    if filters.len() == 0 {
        Seq::empty()
    } else if is_tag(filters.last()) {
        tags_of(filters.drop_last()).push(filters.last().drop_first())
    } else {
        tags_of(filters.drop_last())
    }
}

/// The target names among `filters`, in order.
pub open spec fn names_of(filters: Seq<Seq<char>>) -> Seq<Seq<char>>
    decreases filters.len(),
{
    if filters.len() == 0 {
        Seq::empty()
    } else if is_tag(filters.last()) {
        names_of(filters.drop_last())
    } else {
        names_of(filters.drop_last()).push(filters.last())
    }
}

impl Park {
    /// The options for the linking step.
    pub fn link_opts(&self) -> (r: LinkOpts)
        ensures
            r.replace == self.replace,
            r.create_dirs == self.create_dirs,
    {
        LinkOpts { replace: self.replace, create_dirs: self.create_dirs }
    }

    /// Splits the filters into runtime tags (those starting with a plus sign, which
    /// is dropped) and target names, each in order.
    pub fn split_filters(&self) -> (r: (Vec<String>, Vec<String>))
        ensures
            strings_view(r.0@) == tags_of(strings_view(self.filters@)),
            strings_view(r.1@) == names_of(strings_view(self.filters@)),
    {
        let ghost all = strings_view(self.filters@);
        let mut tags: Vec<String> = Vec::new();
        let mut names: Vec<String> = Vec::new();
        let mut i: usize = 0;
        proof {
            assert(all.subrange(0, 0) =~= Seq::empty());
            assert(strings_view(tags@) =~= Seq::empty());
            assert(strings_view(names@) =~= Seq::empty());
        }
        while i < self.filters.len()
            invariant
                i <= self.filters.len(),
                all == strings_view(self.filters@),
                strings_view(tags@) == tags_of(all.subrange(0, i as int)),
                strings_view(names@) == names_of(all.subrange(0, i as int)),
            decreases self.filters.len() - i,
        {
            let filter = &self.filters[i];
            let ghost prefix = all.subrange(0, i + 1);
            proof {
                assert(prefix.drop_last() =~= all.subrange(0, i as int));
                assert(prefix.last() == filter@);
            }
            let ghost tags_before = tags@;
            let ghost names_before = names@;
            match strip_plus(filter.as_str()) {
                Some(rest) => {
                    tags.push(rest);
                    proof {
                        assert(strings_view(tags@) =~= strings_view(tags_before).push(filter@.drop_first()));
                    }
                },
                None => {
                    names.push(filter.clone());
                    proof {
                        assert(strings_view(names@) =~= strings_view(names_before).push(filter@));
                    }
                },
            }
            i += 1;
        }
        proof {
            assert(all.subrange(0, i as int) =~= all);
        }
        (tags, names)
    }
}

} // verus!
