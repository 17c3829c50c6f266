//! Matching the lines of a scanned unit against a rule set, and gathering
//! the matches of each line into one finding.
use vstd::prelude::*;
use crate::text::{lines_of, trimmed, views, split_lines, trim};
use crate::rules::{Rule, RuleSpec, pattern_matches};

verus! {

/// One reported potential secret: a location, the rules that matched the
/// line, the union of their tags, and the positions of those rules in the
/// rule set (for their confidences).
pub struct Finding {
    pub path: String,
    pub line: usize,
    pub snippet: String,
    pub matched_rules: Vec<String>,
    pub tags: Vec<String>,
    pub sources: Vec<usize>,
}

pub struct FindingSpec {
    pub path: Seq<char>,
    pub line: int,
    pub snippet: Seq<char>,
    pub matched_rules: Seq<Seq<char>>,
    pub tags: Seq<Seq<char>>,
    pub sources: Seq<int>,
}

impl View for Finding {
    type V = FindingSpec;

    open spec fn view(&self) -> FindingSpec {
        FindingSpec {
            path: self.path@,
            line: self.line as int,
            snippet: self.snippet@,
            matched_rules: views(self.matched_rules@),
            tags: views(self.tags@),
            sources: self.sources@.map_values(|k: usize| k as int),
        }
    }
}

pub open spec fn rule_views(rules: Seq<Rule>) -> Seq<RuleSpec> {
    rules.map_values(|r: Rule| r@)
}

/// The positions of the rules whose pattern matches `line`, in rule order.
pub open spec fn matching_rules(rules: Seq<RuleSpec>, line: Seq<char>) -> Seq<int>
    decreases rules.len(),
{
    if rules.len() == 0 {
        Seq::empty()
    } else {
        let rest = matching_rules(rules.drop_last(), line);
        if pattern_matches(rules.last().pattern, line) {
            rest.push(rules.len() - 1)
        } else {
            rest
        }
    }
}

/// `acc` followed by those of `ts` that it does not hold yet, each once.
pub open spec fn add_all(acc: Seq<Seq<char>>, ts: Seq<Seq<char>>) -> Seq<Seq<char>>
    decreases ts.len(),
{
    if ts.len() == 0 {
        acc
    } else {
        let a = add_all(acc, ts.drop_last());
        if a.contains(ts.last()) {
            a
        } else {
            a.push(ts.last())
        }
    }
}

/// The union of the tags of the rules at positions `ks`, in order of first appearance.
pub open spec fn tag_union(rules: Seq<RuleSpec>, ks: Seq<int>) -> Seq<Seq<char>>
    decreases ks.len(),
{
    if ks.len() == 0 {
        Seq::empty()
    } else {
        add_all(tag_union(rules, ks.drop_last()), rules[ks.last()].tags)
    }
}

/// The names of the rules at positions `ks`.
pub open spec fn names_of(rules: Seq<RuleSpec>, ks: Seq<int>) -> Seq<Seq<char>> {
    ks.map_values(|k: int| rules[k].name)
}

/// The finding for line `i` (counted from 0) of a unit, if any rule matches
/// it and the line is let through by `keep`.
pub open spec fn finding_at(
    path: Seq<char>,
    lines: Seq<Seq<char>>,
    keep: Seq<bool>,
    rules: Seq<RuleSpec>,
    i: int,
) -> Option<FindingSpec> {
    let ks = matching_rules(rules, lines[i]);
    if !keep[i] || ks.len() == 0 {
        None
    } else {
        Some(FindingSpec {
            path,
            line: i + 1,
            snippet: trimmed(lines[i]),
            matched_rules: names_of(rules, ks),
            tags: tag_union(rules, ks),
            sources: ks,
        })
    }
}

/// The findings of the first `n` lines of a unit, in line order.
pub open spec fn findings_upto(
    path: Seq<char>,
    lines: Seq<Seq<char>>,
    keep: Seq<bool>,
    rules: Seq<RuleSpec>,
    n: int,
) -> Seq<FindingSpec>
    decreases n,
{
    if n <= 0 {
        Seq::empty()
    } else {
        let rest = findings_upto(path, lines, keep, rules, n - 1);
        match finding_at(path, lines, keep, rules, n - 1) {
            Some(f) => rest.push(f),
            None => rest,
        }
    }
}

pub open spec fn findings_of(
    path: Seq<char>,
    lines: Seq<Seq<char>>,
    keep: Seq<bool>,
    rules: Seq<RuleSpec>,
) -> Seq<FindingSpec> {
    findings_upto(path, lines, keep, rules, lines.len() as int)
}

pub open spec fn finding_views(fs: Seq<Finding>) -> Seq<FindingSpec> {
    fs.map_values(|f: Finding| f@)
}

/// A line filter that admits every one of `n` lines through.
pub open spec fn keep_all(n: nat) -> Seq<bool> {
    Seq::new(n, |i: int| true)
}

/// Whether `v` holds a string equal to `s`.
pub fn holds(v: &Vec<String>, s: &String) -> (r: bool)
    ensures
        r == views(v@).contains(s@),
{
    let mut j: usize = 0;
    while j < v.len()
        invariant
            j <= v@.len(),
            forall|k: int| 0 <= k < j ==> v@[k]@ != s@,
        decreases v@.len() - j,
    {
        if v[j] == *s {
            proof {
                assert(views(v@)[j as int] == s@);
            }
            return true;
        }
        j = j + 1;
    }
    proof {
        if views(v@).contains(s@) {
            let k = choose|k: int| 0 <= k < views(v@).len() && views(v@)[k] == s@;
            assert(v@[k]@ == s@);
        }
    }
    false
}

/// Appends to `acc` each of `tags` that it does not hold yet.
pub fn add_tags(acc: &mut Vec<String>, tags: &Vec<String>)
    ensures
        views(final(acc)@) == add_all(views(old(acc)@), views(tags@)),
{
    let ghost start = views(acc@);
    let ghost ts = views(tags@);
    let mut j: usize = 0;
    while j < tags.len()
        invariant
            j <= tags@.len(),
            ts == views(tags@),
            views(acc@) == add_all(start, ts.take(j as int)),
        decreases tags@.len() - j,
    {
        proof {
            assert(ts.take(j as int + 1).drop_last() == ts.take(j as int));
            assert(ts.take(j as int + 1).last() == tags@[j as int]@);
        }
        if !holds(acc, &tags[j]) {
            let t = tags[j].clone();
            let ghost prev = views(acc@);
            acc.push(t);
            proof {
                assert(views(acc@) =~= prev.push(tags@[j as int]@));
            }
        }
        j = j + 1;
    }
    proof {
        assert(ts.take(tags@.len() as int) == ts);
    }
}

/// The finding for one line, if `keep` admits the line and any rule matches it.
fn line_finding(path: &String, line: &String, number: usize, pass: bool, rules: &Vec<Rule>) -> (r: Option<Finding>)
    requires
        number >= 1,
    ensures
        match r {
            None => !pass || matching_rules(rule_views(rules@), line@).len() == 0,
            Some(f) => pass && {
                let ks = matching_rules(rule_views(rules@), line@);
                &&& ks.len() > 0
                &&& f@ == (FindingSpec {
                    path: path@,
                    line: number as int,
                    snippet: trimmed(line@),
                    matched_rules: names_of(rule_views(rules@), ks),
                    tags: tag_union(rule_views(rules@), ks),
                    sources: ks,
                })
            },
        },
{
    if !pass {
        return None;
    }
    let ghost rs = rule_views(rules@);
    let mut names: Vec<String> = Vec::new();
    let mut tags: Vec<String> = Vec::new();
    let mut sources: Vec<usize> = Vec::new();
    let mut j: usize = 0;
    while j < rules.len()
        invariant
            j <= rules@.len(),
            rs == rule_views(rules@),
            sources@.map_values(|k: usize| k as int) == matching_rules(rs.take(j as int), line@),
            forall|k: int| 0 <= k < sources@.len() ==> sources@[k] < j,
            views(names@) == names_of(rs, sources@.map_values(|k: usize| k as int)),
            views(tags@) == tag_union(rs, sources@.map_values(|k: usize| k as int)),
        decreases rules@.len() - j,
    {
        let ghost ks = sources@.map_values(|k: usize| k as int);
        proof {
            assert(rs.take(j as int + 1).drop_last() == rs.take(j as int));
            assert(rs.take(j as int + 1).last() == rules@[j as int]@);
        }
        if rules[j].is_match(line.as_str()) {
            let ghost prev_names = views(names@);
            names.push(rules[j].name().clone());
            add_tags(&mut tags, rules[j].tags());
            sources.push(j);
            proof {
                let ks2 = sources@.map_values(|k: usize| k as int);
                assert(ks2 =~= ks.push(j as int));
                assert(ks2.drop_last() == ks);
                assert(rs[j as int] == rules@[j as int]@);
                assert(views(names@) =~= prev_names.push(rs[j as int].name));
                assert(names_of(rs, ks2) =~= names_of(rs, ks).push(rs[j as int].name));
            }
        }
        j = j + 1;
    }
    proof {
        assert(rs.take(rules@.len() as int) == rs);
    }
    if sources.len() == 0 {
        return None;
    }
    let snippet = trim(line.as_str());
    Some(Finding { path: path.clone(), line: number, snippet, matched_rules: names, tags, sources })
}

/// The findings of a unit given as lines: one for each line that `keep`
/// admits and that at least one rule matches, in line order. `path`
/// is stamped on each.
pub fn scan_lines(path: &String, lines: &Vec<String>, keep: &Vec<bool>, rules: &Vec<Rule>) -> (r: Vec<Finding>)
    requires
        keep@.len() == lines@.len(),
    ensures
        finding_views(r@) == findings_of(path@, views(lines@), keep@, rule_views(rules@)),
{
    let ghost ls = views(lines@);
    let ghost rs = rule_views(rules@);
    let mut out: Vec<Finding> = Vec::new();
    let mut i: usize = 0;
    while i < lines.len()
        invariant
            i <= lines@.len(),
            keep@.len() == lines@.len(),
            ls == views(lines@),
            rs == rule_views(rules@),
            finding_views(out@) == findings_upto(path@, ls, keep@, rs, i as int),
        decreases lines@.len() - i,
    {
        proof {
            assert(ls[i as int] == lines@[i as int]@);
        }
        let found = line_finding(path, &lines[i], i + 1, keep[i], rules);
        let ghost prev = finding_views(out@);
        match found {
            Some(f) => {
                let ghost fv = f@;
                out.push(f);
                proof {
                    assert(finding_views(out@) =~= prev.push(fv));
                }
            },
            None => {},
        }
        i = i + 1;
    }
    out
}

/// All-true line filter for `n` lines.
fn all_pass(n: usize) -> (r: Vec<bool>)
    ensures
        r@ == keep_all(n as nat),
{
    let mut v: Vec<bool> = Vec::new();
    let mut i: usize = 0;
    while i < n
        invariant
            i <= n,
            v@ == keep_all(i as nat),
        decreases n - i,
    {
        v.push(true);
        i = i + 1;
        proof {
            assert(v@ =~= keep_all(i as nat));
        }
    }
    v
}

/// The findings of a text read from `path`: every line that some rule
/// matches gives one finding, in line order.
pub fn scan_text(path: &String, text: &str, rules: &Vec<Rule>) -> (r: Vec<Finding>)
    ensures
        finding_views(r@) == findings_of(path@, lines_of(text@), keep_all(lines_of(text@).len()), rule_views(rules@)),
{
    let lines = split_lines(text);
    let keep = all_pass(lines.len());
    scan_lines(path, &lines, &keep, rules)
}

} // verus!

verus! {

/// What `add_all` holds is what either argument holds.
pub proof fn lemma_add_all_contains(acc: Seq<Seq<char>>, ts: Seq<Seq<char>>)
    ensures
        forall|s: Seq<char>| #[trigger] add_all(acc, ts).contains(s) <==> (acc.contains(s) || ts.contains(s)),
    decreases ts.len(),
{
    if ts.len() > 0 {
        lemma_add_all_contains(acc, ts.drop_last());
        assert forall|s: Seq<char>| ts.contains(s) <==> (ts.drop_last().contains(s) || s == ts.last()) by {
            if ts.contains(s) {
                let k = choose|k: int| 0 <= k < ts.len() && ts[k] == s;
                if k < ts.len() - 1 {
                    assert(ts.drop_last()[k] == s);
                }
            }
            if ts.drop_last().contains(s) {
                let k = choose|k: int| 0 <= k < ts.drop_last().len() && ts.drop_last()[k] == s;
                assert(ts[k] == s);
            }
            if s == ts.last() {
                assert(ts[ts.len() - 1] == s);
            }
        }
        let a = add_all(acc, ts.drop_last());
        if !a.contains(ts.last()) {
            assert forall|s: Seq<char>| a.push(ts.last()).contains(s) <==> (a.contains(s) || s == ts.last()) by {
                if a.push(ts.last()).contains(s) {
                    let k = choose|k: int| 0 <= k < a.push(ts.last()).len() && a.push(ts.last())[k] == s;
                    if k < a.len() {
                        assert(a[k] == s);
                    }
                }
                if a.contains(s) {
                    let k = choose|k: int| 0 <= k < a.len() && a[k] == s;
                    assert(a.push(ts.last())[k] == s);
                }
                if s == ts.last() {
                    assert(a.push(ts.last())[a.len() as int] == s);
                }
            }
        }
        assert forall|s: Seq<char>| #[trigger] add_all(acc, ts).contains(s) <==> (acc.contains(s) || ts.contains(s)) by {
            assert(a.contains(s) <==> (acc.contains(s) || ts.drop_last().contains(s)));
            assert(ts.contains(s) <==> (ts.drop_last().contains(s) || s == ts.last()));
        }
    }
}

} // verus!

verus! {

/// A rule position is among the matching ones exactly when its pattern matches.
pub proof fn lemma_matching_rules(rules: Seq<RuleSpec>, line: Seq<char>)
    ensures
        forall|k: int| #[trigger] matching_rules(rules, line).contains(k)
            <==> (0 <= k < rules.len() && pattern_matches(rules[k].pattern, line)),
        forall|m: int| 0 <= m < matching_rules(rules, line).len()
            ==> 0 <= #[trigger] matching_rules(rules, line)[m] < rules.len(),
    decreases rules.len(),
{
    if rules.len() > 0 {
        let rest = rules.drop_last();
        lemma_matching_rules(rest, line);
        let ks = matching_rules(rest, line);
        assert forall|k: int| #[trigger] matching_rules(rules, line).contains(k)
            <==> (0 <= k < rules.len() && pattern_matches(rules[k].pattern, line)) by {
            if pattern_matches(rules.last().pattern, line) {
                let kp = ks.push(rules.len() - 1);
                if kp.contains(k) {
                    let m = choose|m: int| 0 <= m < kp.len() && kp[m] == k;
                    if m < ks.len() {
                        assert(ks[m] == k);
                        assert(ks.contains(k));
                    }
                }
                if 0 <= k < rules.len() && pattern_matches(rules[k].pattern, line) {
                    if k < rules.len() - 1 {
                        assert(rest[k] == rules[k]);
                        assert(matching_rules(rest, line).contains(k));
                        let m = choose|m: int| 0 <= m < ks.len() && ks[m] == k;
                        assert(ks.push(rules.len() - 1)[m] == k);
                    } else {
                        assert(ks.push(rules.len() - 1)[ks.len() as int] == k);
                    }
                }
            } else {
                if 0 <= k < rules.len() - 1 {
                    assert(rest[k] == rules[k]);
                }
            }
        }
    }
}

/// A tag is in the union exactly when some rule at one of the positions has it.
pub proof fn lemma_tag_union(rules: Seq<RuleSpec>, ks: Seq<int>)
    ensures
        forall|t: Seq<char>| #[trigger] tag_union(rules, ks).contains(t)
            <==> exists|m: int| 0 <= m < ks.len() && (#[trigger] rules[ks[m]]).tags.contains(t),
    decreases ks.len(),
{
    if ks.len() > 0 {
        let rest = ks.drop_last();
        lemma_tag_union(rules, rest);
        lemma_add_all_contains(tag_union(rules, rest), rules[ks.last()].tags);
        assert forall|t: Seq<char>| #[trigger] tag_union(rules, ks).contains(t)
            <==> exists|m: int| 0 <= m < ks.len() && (#[trigger] rules[ks[m]]).tags.contains(t) by {
            if tag_union(rules, rest).contains(t) {
                let m = choose|m: int| 0 <= m < rest.len() && (#[trigger] rules[rest[m]]).tags.contains(t);
                assert(rules[ks[m]] == rules[rest[m]]);
            }
            if rules[ks.last()].tags.contains(t) {
                assert(rules[ks[ks.len() - 1]].tags.contains(t));
            }
            if exists|m: int| 0 <= m < ks.len() && (#[trigger] rules[ks[m]]).tags.contains(t) {
                let m = choose|m: int| 0 <= m < ks.len() && (#[trigger] rules[ks[m]]).tags.contains(t);
                if m < ks.len() - 1 {
                    assert(rules[rest[m]] == rules[ks[m]]);
                }
            }
        }
    }
}

/// The findings of the first `n` lines come in strictly increasing line
/// order, each is the finding of its line, and every line below `n` that has
/// a finding has it among them.
pub proof fn lemma_findings_upto(
    path: Seq<char>,
    lines: Seq<Seq<char>>,
    keep: Seq<bool>,
    rules: Seq<RuleSpec>,
    n: int,
)
    ensures
        forall|k: int| 0 <= k < findings_upto(path, lines, keep, rules, n).len() ==> {
            let f = #[trigger] findings_upto(path, lines, keep, rules, n)[k];
            &&& 1 <= f.line <= n
            &&& finding_at(path, lines, keep, rules, f.line - 1) == Some(f)
        },
        forall|k1: int, k2: int|
            0 <= k1 < k2 < findings_upto(path, lines, keep, rules, n).len()
            ==> (#[trigger] findings_upto(path, lines, keep, rules, n)[k1]).line
                < (#[trigger] findings_upto(path, lines, keep, rules, n)[k2]).line,
        forall|j: int| 0 <= j < n && (#[trigger] finding_at(path, lines, keep, rules, j)).is_some()
            ==> exists|k: int| 0 <= k < findings_upto(path, lines, keep, rules, n).len()
                && (#[trigger] findings_upto(path, lines, keep, rules, n)[k]).line == j + 1,
    decreases n,
{
    if n > 0 {
        lemma_findings_upto(path, lines, keep, rules, n - 1);
        let rest = findings_upto(path, lines, keep, rules, n - 1);
        let all = findings_upto(path, lines, keep, rules, n);
        match finding_at(path, lines, keep, rules, n - 1) {
            Some(f) => {
                assert(all == rest.push(f));
                assert forall|k: int| 0 <= k < rest.len() implies #[trigger] all[k] == rest[k] by {}
                assert forall|j: int| 0 <= j < n && (#[trigger] finding_at(path, lines, keep, rules, j)).is_some()
                    implies exists|k: int| 0 <= k < all.len() && (#[trigger] all[k]).line == j + 1 by {
                    if j == n - 1 {
                        assert(all[rest.len() as int].line == j + 1);
                    } else {
                        let k = choose|k: int| 0 <= k < rest.len() && (#[trigger] rest[k]).line == j + 1;
                        assert(all[k].line == j + 1);
                    }
                }
            },
            None => {},
        }
    }
}

/// Two rules that both match a line that `keep` admits give that
/// line exactly one finding: it names both rules, holds every tag of both,
/// and holds no tag that no matching rule has.
pub proof fn lemma_rules_merge_on_one_line(
    path: Seq<char>,
    lines: Seq<Seq<char>>,
    keep: Seq<bool>,
    rules: Seq<RuleSpec>,
    i: int,
    a: int,
    b: int,
)
    requires
        keep.len() == lines.len(),
        0 <= i < lines.len(),
        keep[i],
        0 <= a < b < rules.len(),
        pattern_matches(rules[a].pattern, lines[i]),
        pattern_matches(rules[b].pattern, lines[i]),
    ensures
        exists|k: int| 0 <= k < findings_of(path, lines, keep, rules).len()
            && (#[trigger] findings_of(path, lines, keep, rules)[k]).line == i + 1,
        forall|k1: int, k2: int|
            0 <= k1 < findings_of(path, lines, keep, rules).len()
            && 0 <= k2 < findings_of(path, lines, keep, rules).len()
            && (#[trigger] findings_of(path, lines, keep, rules)[k1]).line == i + 1
            && (#[trigger] findings_of(path, lines, keep, rules)[k2]).line == i + 1 ==> k1 == k2,
        forall|k: int| 0 <= k < findings_of(path, lines, keep, rules).len()
            && (#[trigger] findings_of(path, lines, keep, rules)[k]).line == i + 1 ==> {
            let f = findings_of(path, lines, keep, rules)[k];
            &&& f.snippet == trimmed(lines[i])
            &&& f.matched_rules.contains(rules[a].name)
            &&& f.matched_rules.contains(rules[b].name)
            &&& forall|t: Seq<char>| rules[a].tags.contains(t) ==> #[trigger] f.tags.contains(t)
            &&& forall|t: Seq<char>| rules[b].tags.contains(t) ==> #[trigger] f.tags.contains(t)
            &&& forall|t: Seq<char>| #[trigger] f.tags.contains(t) ==>
                exists|c: int| 0 <= c < rules.len() && pattern_matches(rules[c].pattern, lines[i])
                    && (#[trigger] rules[c]).tags.contains(t)
        },
{
    let n = lines.len() as int;
    let fs = findings_of(path, lines, keep, rules);
    lemma_findings_upto(path, lines, keep, rules, n);
    lemma_matching_rules(rules, lines[i]);
    let ks = matching_rules(rules, lines[i]);
    lemma_tag_union(rules, ks);
    assert(ks.contains(a));
    assert(ks.contains(b));
    assert(finding_at(path, lines, keep, rules, i).is_some());
    assert forall|k1: int, k2: int|
        0 <= k1 < fs.len() && 0 <= k2 < fs.len() && (#[trigger] fs[k1]).line == i + 1
        && (#[trigger] fs[k2]).line == i + 1 implies k1 == k2 by {
        if k1 < k2 {
            assert(fs[k1].line < fs[k2].line);
        } else if k2 < k1 {
            assert(fs[k2].line < fs[k1].line);
        }
    }
    assert forall|k: int| 0 <= k < fs.len() && (#[trigger] fs[k]).line == i + 1 implies {
        let f = fs[k];
        &&& f.snippet == trimmed(lines[i])
        &&& f.matched_rules.contains(rules[a].name)
        &&& f.matched_rules.contains(rules[b].name)
        &&& forall|t: Seq<char>| rules[a].tags.contains(t) ==> #[trigger] f.tags.contains(t)
        &&& forall|t: Seq<char>| rules[b].tags.contains(t) ==> #[trigger] f.tags.contains(t)
        &&& forall|t: Seq<char>| #[trigger] f.tags.contains(t) ==>
            exists|c: int| 0 <= c < rules.len() && pattern_matches(rules[c].pattern, lines[i])
                && (#[trigger] rules[c]).tags.contains(t)
    } by {
        let f = fs[k];
        assert(finding_at(path, lines, keep, rules, i) == Some(f));
        let ma = choose|m: int| 0 <= m < ks.len() && ks[m] == a;
        let mb = choose|m: int| 0 <= m < ks.len() && ks[m] == b;
        assert(f.matched_rules[ma] == rules[a].name);
        assert(f.matched_rules[mb] == rules[b].name);
        assert forall|t: Seq<char>| rules[a].tags.contains(t) implies #[trigger] f.tags.contains(t) by {
            assert(rules[ks[ma]].tags.contains(t));
        }
        assert forall|t: Seq<char>| rules[b].tags.contains(t) implies #[trigger] f.tags.contains(t) by {
            assert(rules[ks[mb]].tags.contains(t));
        }
        assert forall|t: Seq<char>| #[trigger] f.tags.contains(t) implies
            exists|c: int| 0 <= c < rules.len() && pattern_matches(rules[c].pattern, lines[i])
                && (#[trigger] rules[c]).tags.contains(t) by {
            let m = choose|m: int| 0 <= m < ks.len() && (#[trigger] rules[ks[m]]).tags.contains(t);
            assert(ks.contains(ks[m]));
        }
    }
}

/// A line that `keep` leaves out has no finding, even where another line
/// of the same unit that a rule matches is let through and has one.
pub proof fn lemma_held_back_line_has_no_finding(
    path: Seq<char>,
    lines: Seq<Seq<char>>,
    keep: Seq<bool>,
    rules: Seq<RuleSpec>,
    i: int,
    j: int,
    c: int,
)
    requires
        keep.len() == lines.len(),
        0 <= i < lines.len(),
        !keep[i],
        0 <= j < lines.len(),
        keep[j],
        0 <= c < rules.len(),
        pattern_matches(rules[c].pattern, lines[j]),
    ensures
        forall|k: int| 0 <= k < findings_of(path, lines, keep, rules).len()
            ==> (#[trigger] findings_of(path, lines, keep, rules)[k]).line != i + 1,
        exists|k: int| 0 <= k < findings_of(path, lines, keep, rules).len()
            && (#[trigger] findings_of(path, lines, keep, rules)[k]).line == j + 1,
{
    lemma_findings_upto(path, lines, keep, rules, lines.len() as int);
    lemma_matching_rules(rules, lines[j]);
    assert(matching_rules(rules, lines[j]).contains(c));
    assert(finding_at(path, lines, keep, rules, j).is_some());
    let all = findings_upto(path, lines, keep, rules, lines.len() as int);
    let k = choose|k: int| 0 <= k < all.len() && (#[trigger] all[k]).line == j + 1;
    assert(findings_of(path, lines, keep, rules)[k].line == j + 1);
}

} // verus!
