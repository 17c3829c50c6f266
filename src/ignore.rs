//! Ignore resolution: a path is ignored when it contains any ignore entry
//! as a substring.
use vstd::prelude::*;
use crate::text::{lines_of, trimmed, occurs_in, views, split_lines, trim, contains};

verus! {

/// Some entry of `ignores` occurs in `path`.
pub open spec fn ignored_by(path: Seq<char>, ignores: Seq<Seq<char>>) -> bool {
    exists|k: int| 0 <= k < ignores.len() && occurs_in(#[trigger] ignores[k], path)
}

/// True exactly when some entry of `ignores` occurs in `path` as a substring.
pub fn should_ignore(path: &str, ignores: &Vec<String>) -> (r: bool)
    ensures
        r == ignored_by(path@, views(ignores@)),
{
    let ghost ig = views(ignores@);
    let mut k: usize = 0;
    while k < ignores.len()
        invariant
            k <= ignores@.len(),
            ig == views(ignores@),
            forall|m: int| 0 <= m < k ==> !occurs_in(#[trigger] ig[m], path@),
        decreases ignores@.len() - k,
    {
        proof {
            assert(ig[k as int] == ignores@[k as int]@);
        }
        if contains(path, ignores[k].as_str()) {
            return true;
        }
        k = k + 1;
    }
    false
}

/// An ignore file line, trimmed, or nothing when it is blank.
pub open spec fn entry_of(line: Seq<char>) -> Option<Seq<char>> {
    if trimmed(line).len() > 0 {
        Some(trimmed(line))
    } else {
        None
    }
}

/// The entries of an ignore file: its non-blank lines, trimmed.
pub open spec fn entries_of(text: Seq<char>) -> Seq<Seq<char>> {
    lines_of(text).filter_map(|l: Seq<char>| entry_of(l))
}

/// The entries of an ignore file's text, in order.
pub fn ignore_entries(text: &str) -> (r: Vec<String>)
    ensures
        views(r@) == entries_of(text@),
{
    let lines = split_lines(text);
    let ghost ls = views(lines@);
    let mut out: Vec<String> = Vec::new();
    let mut i: usize = 0;
    while i < lines.len()
        invariant
            i <= lines@.len(),
            ls == views(lines@),
            ls == lines_of(text@),
            views(out@) == ls.take(i as int).filter_map(|l: Seq<char>| entry_of(l)),
        decreases lines@.len() - i,
    {
        let t = trim(lines[i].as_str());
        proof {
            assert(ls.take(i as int + 1).drop_last() == ls.take(i as int));
            assert(ls.take(i as int + 1).last() == ls[i as int]);
            assert(ls[i as int] == lines@[i as int]@);
        }
        let ghost prev = views(out@);
        if t.as_str().is_empty() {
            proof {
                assert(entry_of(ls[i as int]).is_none());
            }
        } else {
            out.push(t);
            proof {
                assert(entry_of(ls[i as int]) == Some(t@));
                assert(views(out@) =~= prev + seq![t@]);
            }
        }
        i = i + 1;
    }
    proof {
        assert(ls.take(lines@.len() as int) == ls);
    }
    out
}

/// Adds to `set` the entries that it does not hold yet.
pub fn merge_entries(set: &mut Vec<String>, entries: &Vec<String>)
    ensures
        forall|s: Seq<char>| #[trigger] views(final(set)@).contains(s) <==> (views(old(set)@).contains(s) || views(entries@).contains(s)),
{
    crate::scan::add_tags(set, entries);
    proof {
        crate::scan::lemma_add_all_contains(views(old(set)@), views(entries@));
    }
}

} // verus!

verus! {

/// The effective ignore set of a file: the entries of the user
/// configuration, of the ignore file at the scan root, and of the ignore file
/// of each directory from the file's own up to the root.
pub fn resolve_ignores(config: &Vec<String>, root: &Vec<String>, ancestors: &Vec<Vec<String>>) -> (r: Vec<String>)
    ensures
        forall|s: Seq<char>| #[trigger] views(r@).contains(s) <==> (
            views(config@).contains(s)
            || views(root@).contains(s)
            || exists|d: int| 0 <= d < ancestors@.len() && views(#[trigger] ancestors@[d]@).contains(s)
        ),
{
    let mut set: Vec<String> = Vec::new();
    merge_entries(&mut set, config);
    merge_entries(&mut set, root);
    let mut d: usize = 0;
    while d < ancestors.len()
        invariant
            d <= ancestors@.len(),
            forall|s: Seq<char>| #[trigger] views(set@).contains(s) <==> (
                views(config@).contains(s)
                || views(root@).contains(s)
                || exists|e: int| 0 <= e < d && views(#[trigger] ancestors@[e]@).contains(s)
            ),
        decreases ancestors@.len() - d,
    {
        merge_entries(&mut set, &ancestors[d]);
        proof {
            assert forall|s: Seq<char>| #[trigger] views(set@).contains(s) <==> (
                views(config@).contains(s)
                || views(root@).contains(s)
                || exists|e: int| 0 <= e < d + 1 && views(#[trigger] ancestors@[e]@).contains(s)
            ) by {
                if views(ancestors@[d as int]@).contains(s) {
                    assert(0 <= d < d + 1);
                }
                if exists|e: int| 0 <= e < d + 1 && views(#[trigger] ancestors@[e]@).contains(s) {
                    let e = choose|e: int| 0 <= e < d + 1 && views(#[trigger] ancestors@[e]@).contains(s);
                    if e < d {
                        assert(exists|e2: int| 0 <= e2 < d && views(#[trigger] ancestors@[e2]@).contains(s));
                    }
                }
            }
        }
        d = d + 1;
    }
    set
}

/// A file whose path holds an entry of the root ignore file is ignored
/// under any effective set that `resolve_ignores` can return.
pub proof fn lemma_root_listed_file_ignored(
    path: Seq<char>,
    config: Seq<Seq<char>>,
    root: Seq<Seq<char>>,
    ancestors: Seq<Seq<Seq<char>>>,
    effective: Seq<Seq<char>>,
    k: int,
)
    requires
        forall|s: Seq<char>| #[trigger] effective.contains(s) <==> (
            config.contains(s)
            || root.contains(s)
            || exists|d: int| 0 <= d < ancestors.len() && (#[trigger] ancestors[d]).contains(s)
        ),
        0 <= k < root.len(),
        occurs_in(root[k], path),
    ensures
        ignored_by(path, effective),
{
    assert(root.contains(root[k]));
    assert(effective.contains(root[k]));
    let m = choose|m: int| 0 <= m < effective.len() && effective[m] == root[k];
    assert(occurs_in(effective[m], path));
}

} // verus!
