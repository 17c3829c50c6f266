//! Rules: a name, a regular expression and its source text, tags and a
//! confidence field, read from lines of the form
//! `Name::Pattern[::tag1,tag2[::confidence]]`.
use vstd::prelude::*;
use vstd::string::StrSliceExecFns;
use crate::text::{lines_of, trimmed, pieces_of, views, split_lines, trim, split_on};

verus! {

#[verifier::external_type_specification]
#[verifier::external_body]
pub struct ExRegex(regex::Regex);

/// Whether `regex::Regex::new` accepts a pattern.
pub uninterp spec fn pattern_compiles(pattern: Seq<char>) -> bool;

/// Whether the regular expression compiled from `pattern` matches somewhere in `line`.
pub uninterp spec fn pattern_matches(pattern: Seq<char>, line: Seq<char>) -> bool;

/// What a rule is, as plain values.
pub struct RuleSpec {
    pub name: Seq<char>,
    pub pattern: Seq<char>,
    pub tags: Seq<Seq<char>>,
    /// The trimmed fourth field of the rule line, where there is one.
    pub confidence: Option<Seq<char>>,
}

/// A rule with its compiled pattern. Its fields are private: the compiled
/// expression always comes from `pattern` by `regex::Regex::new`.
pub struct Rule {
    name: String,
    pattern: String,
    regex: regex::Regex,
    tags: Vec<String>,
    confidence: Option<String>,
}

impl View for Rule {
    type V = RuleSpec;

    closed spec fn view(&self) -> RuleSpec {
        RuleSpec {
            name: self.name@,
            pattern: self.pattern@,
            tags: views(self.tags@),
            confidence: match self.confidence {
                Some(c) => Some(c@),
                None => None,
            },
        }
    }
}

/// A tag field piece, trimmed, or nothing when it is blank.
pub open spec fn tag_of(piece: Seq<char>) -> Option<Seq<char>> {
    if trimmed(piece).len() > 0 {
        Some(trimmed(piece))
    } else {
        None
    }
}

/// The tags of a comma separated tag field: trimmed, blanks left out.
pub open spec fn tags_of(field: Seq<char>) -> Seq<Seq<char>> {
    pieces_of(field, ","@).filter_map(|p: Seq<char>| tag_of(p))
}

/// The rule that one line describes, if any: blank lines, comment lines
/// (starting with `#` after trimming), lines with fewer than two fields and
/// lines whose pattern does not compile describe none.
pub open spec fn rule_of_line(line: Seq<char>) -> Option<RuleSpec> {
    let l = trimmed(line);
    let parts = pieces_of(l, "::"@);
    if l.len() == 0 || l[0] == '#' || parts.len() < 2 || !pattern_compiles(trimmed(parts[1])) {
        None
    } else {
        Some(RuleSpec {
            name: trimmed(parts[0]),
            pattern: trimmed(parts[1]),
            tags: if parts.len() >= 3 { tags_of(parts[2]) } else { Seq::empty() },
            confidence: if parts.len() >= 4 { Some(trimmed(parts[3])) } else { None },
        })
    }
}

/// The rules that a rule text describes, in the order of its lines.
pub open spec fn rules_of_text(s: Seq<char>) -> Seq<RuleSpec> {
    lines_of(s).filter_map(|l: Seq<char>| rule_of_line(l))
}

/// Relies on `regex::Regex::new`: it succeeds exactly on the patterns it accepts.
#[verifier::external_body]
fn compile(pattern: &str) -> (r: Option<regex::Regex>)
    ensures
        r.is_some() == pattern_compiles(pattern@),
{
    regex::Regex::new(pattern).ok()
}

/// Whether a text begins with the character `c`.
fn starts_with_char(s: &str, c: char) -> (r: bool)
    ensures
        r == (s@.len() > 0 && s@[0] == c),
{
    s.unicode_len() > 0 && s.get_char(0) == c
}

impl Rule {
    /// Relies on `regex::Regex::is_match`, on the expression that
    /// `parse_rule_line` compiled from this rule's pattern.
    #[verifier::external_body]
    pub(crate) fn is_match(&self, line: &str) -> (r: bool)
        ensures
            r == pattern_matches(self@.pattern, line@),
    {
        self.regex.is_match(line)
    }

    /// Whether this rule's pattern matches somewhere in `line`.
    pub fn matches(&self, line: &str) -> (r: bool)
        ensures
            r == pattern_matches(self@.pattern, line@),
    {
        self.is_match(line)
    }

    pub fn name(&self) -> (r: &String)
        ensures
            r@ == self@.name,
    {
        &self.name
    }

    pub fn pattern(&self) -> (r: &String)
        ensures
            r@ == self@.pattern,
    {
        &self.pattern
    }

    pub fn tags(&self) -> (r: &Vec<String>)
        ensures
            views(r@) == self@.tags,
    {
        &self.tags
    }

    /// The rule's confidence field as written, before it is read as a number.
    pub fn confidence_field(&self) -> (r: &Option<String>)
        ensures
            r.is_some() == self@.confidence.is_some(),
            r.is_some() ==> r.unwrap()@ == self@.confidence.unwrap(),
    {
        &self.confidence
    }
}

/// The tags of a comma separated tag field.
pub fn parse_tags(field: &str) -> (r: Vec<String>)
    ensures
        views(r@) == tags_of(field@),
{
    let pieces = split_on(field, ",");
    let mut out: Vec<String> = Vec::new();
    let ghost ps = views(pieces@);
    let mut i: usize = 0;
    while i < pieces.len()
        invariant
            i <= pieces@.len(),
            ps == views(pieces@),
            ps == pieces_of(field@, ","@),
            views(out@) == ps.take(i as int).filter_map(|p: Seq<char>| tag_of(p)),
        decreases pieces@.len() - i,
    {
        let t = trim(pieces[i].as_str());
        proof {
            assert(ps.take(i as int + 1).drop_last() == ps.take(i as int));
            assert(ps.take(i as int + 1).last() == ps[i as int]);
        }
        let ghost prev = views(out@);
        proof {
            assert(ps[i as int] == pieces@[i as int]@);
        }
        if t.as_str().is_empty() {
            proof {
                assert(tag_of(ps[i as int]).is_none());
            }
        } else {
            out.push(t);
            proof {
                assert(tag_of(ps[i as int]) == Some(t@));
                assert(views(out@) =~= prev + seq![t@]);
            }
        }
        i = i + 1;
    }
    proof {
        assert(ps.take(pieces@.len() as int) == ps);
    }
    out
}

/// The rule that one line describes, if any (see `rule_of_line`).
pub fn parse_rule_line(line: &str) -> (r: Option<Rule>)
    ensures
        r.is_none() == rule_of_line(line@).is_none(),
        r.is_some() ==> rule_of_line(line@) == Some(r.unwrap()@),
{
    let l = trim(line);
    if l.as_str().is_empty() || starts_with_char(l.as_str(), '#') {
        return None;
    }
    let parts = split_on(l.as_str(), "::");
    proof {
        assert(views(parts@).len() == parts@.len());
    }
    if parts.len() < 2 {
        return None;
    }
    let name = trim(parts[0].as_str());
    let pattern = trim(parts[1].as_str());
    let tags = if parts.len() >= 3 {
        parse_tags(parts[2].as_str())
    } else {
        Vec::new()
    };
    let confidence = if parts.len() >= 4 {
        Some(trim(parts[3].as_str()))
    } else {
        None
    };
    proof {
        assert(views(parts@)[0] == parts@[0]@);
        assert(views(parts@)[1] == parts@[1]@);
        if parts.len() >= 3 {
            assert(views(parts@)[2] == parts@[2]@);
        } else {
            assert(views(tags@) == Seq::<Seq<char>>::empty());
        }
        if parts.len() >= 4 {
            assert(views(parts@)[3] == parts@[3]@);
        }
    }
    match compile(pattern.as_str()) {
        Some(regex) => {
            let rule = Rule { name, pattern, regex, tags, confidence };
            proof {
                assert(rule_of_line(line@) == Some(rule@));
            }
            Some(rule)
        },
        None => None,
    }
}

/// The rules of a rule text, one for each line that describes one, in order.
/// Lines whose pattern does not compile are left out; the others load.
pub fn parse_rules(s: &str) -> (r: Vec<Rule>)
    ensures
        r@.map_values(|x: Rule| x@) == rules_of_text(s@),
{
    let lines = split_lines(s);
    let ghost ls = views(lines@);
    let mut out: Vec<Rule> = Vec::new();
    let mut i: usize = 0;
    while i < lines.len()
        invariant
            i <= lines@.len(),
            ls == views(lines@),
            ls == lines_of(s@),
            out@.map_values(|x: Rule| x@) == ls.take(i as int).filter_map(|l: Seq<char>| rule_of_line(l)),
        decreases lines@.len() - i,
    {
        let parsed = parse_rule_line(lines[i].as_str());
        proof {
            assert(ls.take(i as int + 1).drop_last() == ls.take(i as int));
            assert(ls.take(i as int + 1).last() == ls[i as int]);
        }
        let ghost prev = out@.map_values(|x: Rule| x@);
        proof {
            assert(ls[i as int] == lines@[i as int]@);
        }
        match parsed {
            Some(rule) => {
                let ghost rv = rule@;
                out.push(rule);
                proof {
                    assert(rule_of_line(ls[i as int]) == Some(rv));
                    assert(out@.map_values(|x: Rule| x@) =~= prev + seq![rv]);
                }
            },
            None => {
                proof {
                    assert(rule_of_line(ls[i as int]).is_none());
                }
            },
        }
        i = i + 1;
    }
    proof {
        assert(ls.take(lines@.len() as int) == ls);
    }
    out
}

/// The built-in rule corpus.
pub const DEFAULT_RULES: &'static str = "# Name::Pattern::tags::confidence
AWS Access Key ID::AKIA[0-9A-Z]{16}::aws,key::0.9
GitHub Token::gh[pousr]_[A-Za-z0-9]{36}::github,token::0.9
Slack Token::xox[baprs]-[A-Za-z0-9-]{10,}::slack,token::0.8
Google API Key::AIza[0-9A-Za-z_-]{35}::google,key::0.85
Stripe Live Key::sk_live_[0-9a-zA-Z]{24,}::stripe,key::0.9
Private Key Block::-----BEGIN [A-Z ]*PRIVATE KEY-----::key,pem::0.95
Generic Secret Assignment::(?i)(api_?key|secret|token|passwd|password)[ \\t]*[:=][ \\t]*[\\x22']?[A-Za-z0-9_/+=-]{16,}::generic::0.5
";

/// The rules of the built-in corpus.
pub fn load_default_rules() -> (r: Vec<Rule>)
    ensures
        r@.map_values(|x: Rule| x@) == rules_of_text(DEFAULT_RULES@),
{
    parse_rules(DEFAULT_RULES)
}

/// Reading rules from two runs of lines one after the other gives the rules
/// of the first run followed by those of the second.
pub proof fn lemma_rules_of_lines_append(xs: Seq<Seq<char>>, ys: Seq<Seq<char>>)
    ensures
        (xs + ys).filter_map(|l: Seq<char>| rule_of_line(l)) == xs.filter_map(|l: Seq<char>| rule_of_line(l)) + ys.filter_map(|l: Seq<char>| rule_of_line(l)),
    decreases ys.len(),
{
    if ys.len() == 0 {
        assert(xs + ys == xs);
        assert(xs.filter_map(|l: Seq<char>| rule_of_line(l)) + Seq::<RuleSpec>::empty() == xs.filter_map(|l: Seq<char>| rule_of_line(l)));
    } else {
        lemma_rules_of_lines_append(xs, ys.drop_last());
        assert((xs + ys).drop_last() == xs + ys.drop_last());
        assert((xs + ys).last() == ys.last());
        let a = xs.filter_map(|l: Seq<char>| rule_of_line(l));
        let b = ys.drop_last().filter_map(|l: Seq<char>| rule_of_line(l));
        match rule_of_line(ys.last()) {
            Some(r) => {
                assert(a + b + seq![r] == a + (b + seq![r]));
            },
            None => {},
        }
    }
}

/// A rule line whose pattern does not compile is left out of the loaded
/// rules, and the lines before and after it load as they would without it.
pub proof fn lemma_bad_pattern_line_skipped(s: Seq<char>, b: int)
    requires
        0 <= b < lines_of(s).len(),
        !pattern_compiles(trimmed(pieces_of(trimmed(lines_of(s)[b]), "::"@)[1])),
    ensures
        rule_of_line(lines_of(s)[b]).is_none(),
        rules_of_text(s) == lines_of(s).take(b).filter_map(|l: Seq<char>| rule_of_line(l))
            + lines_of(s).skip(b + 1).filter_map(|l: Seq<char>| rule_of_line(l)),
{
    let ls = lines_of(s);
    assert(ls == ls.take(b) + seq![ls[b]] + ls.skip(b + 1));
    lemma_rules_of_lines_append(ls.take(b) + seq![ls[b]], ls.skip(b + 1));
    lemma_rules_of_lines_append(ls.take(b), seq![ls[b]]);
    Seq::lemma_filter_map_singleton(ls[b], |l: Seq<char>| rule_of_line(l));
    assert(ls.take(b).filter_map(|l: Seq<char>| rule_of_line(l)) + Seq::<RuleSpec>::empty() == ls.take(b).filter_map(|l: Seq<char>| rule_of_line(l)));
}

} // verus!
