//! Tag filters applied to findings after a file is scanned.
use vstd::prelude::*;
use crate::text::views;
use crate::scan::holds;

verus! {

/// Some tag of `tags` is a member of `set`.
pub open spec fn shares_tag(tags: Seq<Seq<char>>, set: Seq<Seq<char>>) -> bool {
    exists|k: int| 0 <= k < tags.len() && set.contains(#[trigger] tags[k])
}

pub open spec fn opt_views(o: Option<Vec<String>>) -> Option<Seq<Seq<char>>> {
    match o {
        Some(v) => Some(views(v@)),
        None => None,
    }
}

/// A finding with `tags` survives the tag filters: none of its tags is
/// excluded, and where a required set is given, one of its tags is in it.
pub open spec fn tags_admitted(
    tags: Seq<Seq<char>>,
    exclude: Option<Seq<Seq<char>>>,
    required: Option<Seq<Seq<char>>>,
) -> bool {
    &&& (exclude.is_none() || !shares_tag(tags, exclude.unwrap()))
    &&& (required.is_none() || shares_tag(tags, required.unwrap()))
}

/// Whether some tag of `tags` is in `set`.
pub fn any_tag_in(tags: &Vec<String>, set: &Vec<String>) -> (r: bool)
    ensures
        r == shares_tag(views(tags@), views(set@)),
{
    let ghost ts = views(tags@);
    let mut k: usize = 0;
    while k < tags.len()
        invariant
            k <= tags@.len(),
            ts == views(tags@),
            forall|m: int| 0 <= m < k ==> !views(set@).contains(#[trigger] ts[m]),
        decreases tags@.len() - k,
    {
        proof {
            assert(ts[k as int] == tags@[k as int]@);
        }
        if holds(set, &tags[k]) {
            return true;
        }
        k = k + 1;
    }
    false
}

/// Whether a finding with `tags` survives the excluded and required tag sets.
pub fn passes_tag_filters(tags: &Vec<String>, exclude: &Option<Vec<String>>, required: &Option<Vec<String>>) -> (r: bool)
    ensures
        r == tags_admitted(views(tags@), opt_views(*exclude), opt_views(*required)),
{
    match exclude {
        Some(ex) => {
            if any_tag_in(tags, ex) {
                return false;
            }
        },
        None => {},
    }
    match required {
        Some(inc) => any_tag_in(tags, inc),
        None => true,
    }
}

} // verus!
