use lss::entropy::byte_histogram;
use lss::filter::passes_tag_filters;
use lss::git::{blob_address_of, scan_blob};
use lss::ignore::{ignore_entries, merge_entries, resolve_ignores, should_ignore};
use lss::rules::{load_default_rules, parse_rule_line, parse_rules, parse_tags};
use lss::scan::{scan_lines, scan_text};

fn strings(v: &[&str]) -> Vec<String> {
    v.iter().map(|s| s.to_string()).collect()
}

#[test]
fn rule_line_with_all_fields() {
    let r = parse_rule_line("  Token::tok_[a-z]+:: auth , ,web ::0.8 ").unwrap();
    assert_eq!(r.name(), "Token");
    assert_eq!(r.pattern(), "tok_[a-z]+");
    assert_eq!(r.tags(), &strings(&["auth", "web"]));
    assert_eq!(r.confidence_field().as_deref(), Some("0.8"));
}

#[test]
fn rule_line_defaults() {
    let r = parse_rule_line("Plain::abc").unwrap();
    assert!(r.tags().is_empty());
    assert!(r.confidence_field().is_none());
}

#[test]
fn rule_line_rejections() {
    assert!(parse_rule_line("").is_none());
    assert!(parse_rule_line("   ").is_none());
    assert!(parse_rule_line("# A::abc").is_none());
    assert!(parse_rule_line("OnlyName").is_none());
    assert!(parse_rule_line("Bad::([unclosed").is_none());
}

#[test]
fn invalid_regex_line_is_skipped() {
    let rules = parse_rules("First::aaa::x\nBroken::(unclosed\n\n# comment\nSecond::bbb::y,z::0.3\n");
    let names: Vec<&str> = rules.iter().map(|r| r.name().as_str()).collect();
    assert_eq!(names, vec!["First", "Second"]);
    assert_eq!(rules[1].tags(), &strings(&["y", "z"]));
}

#[test]
fn tags_are_trimmed_and_blanks_dropped() {
    assert_eq!(parse_tags(" a, ,b ,"), strings(&["a", "b"]));
    assert!(parse_tags("").is_empty());
}

#[test]
fn default_rules_load() {
    let rules = load_default_rules();
    assert_eq!(rules.len(), 7);
    assert!(rules.iter().any(|r| r.name() == "AWS Access Key ID"));
}

#[test]
fn two_rules_on_one_line_merge() {
    let rules = parse_rules("A::secret::t1,shared::0.5\nB::=\\s*\\S+::t2,shared::0.6\nC::nomatch::t3\n");
    let path = "cfg.txt".to_string();
    let found = scan_text(&path, "x\n  secret = abc  \nsecret\n", &rules);
    assert_eq!(found.len(), 2);
    let f = &found[0];
    assert_eq!(f.path, "cfg.txt");
    assert_eq!(f.line, 2);
    assert_eq!(f.snippet, "secret = abc");
    assert_eq!(f.matched_rules, strings(&["A", "B"]));
    assert_eq!(f.tags, strings(&["t1", "shared", "t2"]));
    assert_eq!(f.sources, vec![0, 1]);
    assert_eq!(found[1].line, 3);
    assert_eq!(found[1].matched_rules, strings(&["A"]));
}

#[test]
fn empty_text_has_no_findings() {
    let rules = parse_rules("A::a\n");
    assert!(scan_text(&"p".to_string(), "", &rules).is_empty());
}

#[test]
fn held_back_line_gives_no_finding() {
    let rules = parse_rules("Key::key=\n");
    let lines = strings(&["key=aaaa", "key=Zx9!qP2#"]);
    let found = scan_lines(&"blob".to_string(), &lines, &vec![false, true], &rules);
    assert_eq!(found.len(), 1);
    assert_eq!(found[0].line, 2);
}

#[test]
fn should_ignore_by_substring() {
    assert!(should_ignore("/a/b/secret.txt", &strings(&["secret"])));
    assert!(!should_ignore("/a/b/file.txt", &strings(&["secret"])));
    assert!(!should_ignore("/a/b/file.txt", &Vec::new()));
}

#[test]
fn root_ignore_file_excludes_listed_file() {
    let mut set = strings(&["vendor"]);
    let entries = ignore_entries("\n  X.env \n\n");
    assert_eq!(entries, strings(&["X.env"]));
    merge_entries(&mut set, &entries);
    assert_eq!(set, strings(&["vendor", "X.env"]));
    assert!(should_ignore("/root/scan/X.env", &set));
    assert!(!should_ignore("/root/scan/Y.env", &set));
}

#[test]
fn tag_filters() {
    let tags = strings(&["aws", "key"]);
    assert!(passes_tag_filters(&tags, &None, &None));
    assert!(!passes_tag_filters(&tags, &Some(strings(&["key"])), &None));
    assert!(passes_tag_filters(&tags, &Some(strings(&["pem"])), &Some(strings(&["aws"]))));
    assert!(!passes_tag_filters(&tags, &None, &Some(strings(&["slack"]))));
    assert!(!passes_tag_filters(&Vec::new(), &None, &Some(strings(&["aws"]))));
}

#[test]
fn blob_findings_are_addressed_by_commit() {
    let rules = parse_rules("Key::key=\n");
    let lines = strings(&["key=Zx9!qP2#"]);
    let mut total = Vec::new();
    for commit in ["c1", "c2", "c3"] {
        total.extend(scan_blob(commit, "app.cfg", &lines, &vec![true], &rules, &Vec::new()));
    }
    assert_eq!(total.len(), 3);
    assert_eq!(total[0].path, "git:c1:app.cfg");
    assert_eq!(total[2].path, "git:c3:app.cfg");
}

#[test]
fn ignored_blob_gives_nothing() {
    let rules = parse_rules("Key::key=\n");
    let lines = strings(&["key=Zx9!qP2#"]);
    let found = scan_blob("c1", "secret.cfg", &lines, &vec![true], &rules, &strings(&["secret"]));
    assert!(found.is_empty());
}

#[test]
fn histogram_counts_bytes() {
    let h = byte_histogram(b"abca");
    assert_eq!(h.len(), 256);
    assert_eq!(h[b'a' as usize], 2);
    assert_eq!(h[b'b' as usize], 1);
    assert_eq!(h[b'z' as usize], 0);
    assert!(byte_histogram(b"").iter().all(|&c| c == 0));
}

#[test]
fn effective_ignores_are_the_union() {
    let config = strings(&["node_modules", "dist"]);
    let root = strings(&["X.env", "dist"]);
    let ancestors = vec![strings(&["fixtures"]), Vec::new(), strings(&["X.env", "tmp"])];
    let set = resolve_ignores(&config, &root, &ancestors);
    assert_eq!(set, strings(&["node_modules", "dist", "X.env", "fixtures", "tmp"]));
    assert!(should_ignore("/r/sub/X.env", &set));
    assert!(!should_ignore("/r/sub/main.rs", &set));
}

#[test]
fn blob_address_format() {
    assert_eq!(blob_address_of("abc123", "config.yml"), "git:abc123:config.yml");
    assert_eq!(blob_address_of("", ""), "git::");
}

#[test]
fn single_rule_matching() {
    let rules = parse_rules("Key::key=[0-9]+\n# Other::x\nHash::^#\n");
    assert_eq!(rules.len(), 2);
    assert!(rules[0].matches("my key=42 here"));
    assert!(!rules[0].matches("key=abc"));
    assert!(rules[1].matches("#!/bin/sh"));
    assert!(!rules[1].matches(" #"));
}
