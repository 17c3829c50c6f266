//! Scanning one blob of a commit: its findings are addressed as
//! `git:<commit-id>:<entry-name>`, and each line is scanned only where its
//! own entropy reached the threshold.
use vstd::prelude::*;
use vstd::string::StringExecFns;
use crate::text::views;
use crate::rules::Rule;
use crate::scan::{Finding, finding_views, findings_of, rule_views, scan_lines};
use crate::ignore::{ignored_by, should_ignore};

verus! {

/// The address of a blob entry within a commit.
pub open spec fn blob_address(commit: Seq<char>, entry: Seq<char>) -> Seq<char> {
    "git:"@ + commit + ":"@ + entry
}

/// The address `git:<commit>:<entry>` of a blob entry within a commit.
pub fn blob_address_of(commit: &str, entry: &str) -> (r: String)
    ensures
        r@ == blob_address(commit@, entry@),
{
    let mut r = String::from_str("git:");
    r.append(commit);
    r.append(":");
    r.append(entry);
    proof {
        reveal_strlit("git:");
        reveal_strlit(":");
    }
    r
}

/// The findings of one blob named `entry` in commit `commit`, whose text has
/// the given lines. `keep[i]` says whether line `i` has the entropy that the
/// scan asks for; a line without it contributes to no finding. A blob whose
/// entry name is ignored gives none.
pub fn scan_blob(
    commit: &str,
    entry: &str,
    lines: &Vec<String>,
    keep: &Vec<bool>,
    rules: &Vec<Rule>,
    ignores: &Vec<String>,
) -> (r: Vec<Finding>)
    requires
        keep@.len() == lines@.len(),
    ensures
        ignored_by(entry@, views(ignores@)) ==> r@.len() == 0,
        !ignored_by(entry@, views(ignores@)) ==> finding_views(r@) == findings_of(
            blob_address(commit@, entry@),
            views(lines@),
            keep@,
            rule_views(rules@),
        ),
{
    if should_ignore(entry, ignores) {
        return Vec::new();
    }
    let address = blob_address_of(commit, entry);
    scan_lines(&address, lines, keep, rules)
}

} // verus!
