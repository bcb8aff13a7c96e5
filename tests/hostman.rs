use hostman::commands::{add, add_local, check, disable, enable, remove, show, CommandError, Listing};
use hostman::hostsfile::ManagedHostsFile;
use hostman::line::{HostLine, LineKind, ParseError};

fn load(text: &str) -> ManagedHostsFile {
    ManagedHostsFile::from_text(String::from("/etc/hosts"), text)
}

fn hosts_of(l: &HostLine) -> Vec<&str> {
    l.hosts.iter().map(|h| h.as_str()).collect()
}

#[test]
fn parse_blank_line() {
    let l = HostLine::parse("   \t ").unwrap();
    assert_eq!(l.kind, LineKind::Blank);
    assert_eq!(l.ip, None);
    assert!(l.hosts.is_empty());
    assert_eq!(l.comment, None);
}

#[test]
fn parse_comment_line() {
    let l = HostLine::parse("# local-names ").unwrap();
    assert_eq!(l.kind, LineKind::Comment);
    assert_eq!(l.ip, None);
    assert_eq!(l.comment.as_deref(), Some("local-names"));
    let two = HostLine::parse("  # hello # world").unwrap();
    assert_eq!(two.kind, LineKind::Comment);
    assert_eq!(two.comment.as_deref(), Some("hello # world"));
}

#[test]
fn parse_entry_with_comment() {
    let l = HostLine::parse("127.0.0.1   localhost\tloopback  # the machine").unwrap();
    assert_eq!(l.kind, LineKind::Entry);
    assert_eq!(l.ip.as_deref(), Some("127.0.0.1"));
    assert_eq!(hosts_of(&l), vec!["localhost", "loopback"]);
    assert_eq!(l.comment.as_deref(), Some("the machine"));
    assert!(!l.edited);
}

#[test]
fn parse_comment_without_space() {
    let l = HostLine::parse("10.0.0.1 a#note").unwrap();
    assert_eq!(l.kind, LineKind::Entry);
    assert_eq!(hosts_of(&l), vec!["a"]);
    assert_eq!(l.comment.as_deref(), Some("note"));
}

#[test]
fn parse_disabled_entry() {
    let l = HostLine::parse("#127.0.0.1 x y # old").unwrap();
    assert_eq!(l.kind, LineKind::Disabled);
    assert_eq!(l.ip.as_deref(), Some("127.0.0.1"));
    assert_eq!(hosts_of(&l), vec!["x", "y"]);
    assert_eq!(l.comment.as_deref(), Some("old"));
}

#[test]
fn parse_double_marker_is_comment() {
    let l = HostLine::parse("##127.0.0.1 x").unwrap();
    assert_eq!(l.kind, LineKind::Comment);
    assert_eq!(l.ip, None);
}

#[test]
fn parse_marker_with_bare_word_is_comment() {
    let l = HostLine::parse("#127.0.0.1").unwrap();
    assert_eq!(l.kind, LineKind::Comment);
    assert_eq!(l.comment.as_deref(), Some("127.0.0.1"));
}

#[test]
fn parse_address_alone_fails() {
    assert_eq!(HostLine::parse("127.0.0.1").unwrap_err(), ParseError);
    assert_eq!(HostLine::parse("127.0.0.1 # no names").unwrap_err(), ParseError);
}

#[test]
fn load_keeps_unparsable_line() {
    let f = load("127.0.0.1\n10.0.0.1 a\n");
    assert_eq!(f.lines.len(), 2);
    assert!(f.closed);
    assert_eq!(f.lines[0].kind, LineKind::Opaque);
    assert_eq!(f.lines[0].raw, "127.0.0.1");
    assert_eq!(f.lines[1].kind, LineKind::Entry);
    assert_eq!(f.serialize(), "127.0.0.1\n10.0.0.1 a\n");
}

#[test]
fn round_trip_untouched_file() {
    let text = "# hosts\n\n127.0.0.1\tlocalhost   # me\n#10.0.0.9 old\n  odd line here  \n::1 ip6-localhost\n";
    assert_eq!(load(text).serialize(), text);
    let no_newline = "10.0.0.1 a b";
    assert_eq!(load(no_newline).serialize(), no_newline);
    assert_eq!(load("").serialize(), "");
    assert_eq!(load("\n").serialize(), "\n");
    assert_eq!(load("a\n\n").serialize(), "a\n\n");
}

#[test]
fn disable_then_enable_restores_entry() {
    let mut f = load("127.0.0.1 localhost\n10.0.0.1 web # app\n");
    disable(&mut f, "web").unwrap();
    assert_eq!(f.lines[1].kind, LineKind::Disabled);
    assert_eq!(f.serialize(), "127.0.0.1 localhost\n#10.0.0.1 web # app\n");
    assert!(!f.has_host("web"));
    assert!(f.has_disabled_host("web"));
    enable(&mut f, "web").unwrap();
    assert_eq!(f.lines[1].kind, LineKind::Entry);
    assert_eq!(f.lines[1].ip.as_deref(), Some("10.0.0.1"));
    assert_eq!(hosts_of(&f.lines[1]), vec!["web"]);
    assert_eq!(f.serialize(), "127.0.0.1 localhost\n10.0.0.1 web # app\n");
}

#[test]
fn enable_then_disable_restores_entry() {
    let mut f = load("#10.0.0.1 web\n");
    enable(&mut f, "web").unwrap();
    assert_eq!(f.serialize(), "10.0.0.1 web\n");
    disable(&mut f, "web").unwrap();
    assert_eq!(f.lines[0].kind, LineKind::Disabled);
    assert_eq!(f.serialize(), "#10.0.0.1 web\n");
}

#[test]
fn partial_removal_keeps_other_names() {
    let mut f = load("10.0.0.1 a b c");
    remove(&mut f, "b").unwrap();
    assert_eq!(f.lines.len(), 1);
    assert_eq!(hosts_of(&f.lines[0]), vec!["a", "c"]);
    assert_eq!(f.serialize(), "10.0.0.1 a c");
}

#[test]
fn removing_only_name_deletes_line() {
    let mut f = load("# top\n10.0.0.1 onlyhost\n127.0.0.1 localhost");
    remove(&mut f, "onlyhost").unwrap();
    assert_eq!(f.lines.len(), 2);
    assert_eq!(f.serialize(), "# top\n127.0.0.1 localhost");
}

#[test]
fn remove_reaches_disabled_entries() {
    let mut f = load("10.0.0.1 a b\n#10.0.0.2 b c\n#10.0.0.3 b");
    remove(&mut f, "b").unwrap();
    assert_eq!(f.serialize(), "10.0.0.1 a\n#10.0.0.2 c");
}

#[test]
fn remove_missing_host_is_not_found() {
    let mut f = load("10.0.0.1 a\n#10.0.0.2 b\n");
    assert_eq!(remove(&mut f, "b"), Err(CommandError::NotFound));
    assert_eq!(remove(&mut f, "zzz"), Err(CommandError::NotFound));
    assert_eq!(f.serialize(), "10.0.0.1 a\n#10.0.0.2 b\n");
}

#[test]
fn exact_and_fuzzy_matching() {
    let f = load("10.0.0.1 foo\n10.0.0.2 foobar\n10.0.0.3 other\n");
    let exact = check(&f, "foo", true);
    assert_eq!(exact.len(), 1);
    assert_eq!(exact[0].raw, "10.0.0.1 foo");
    let fuzzy = check(&f, "foo", false);
    assert_eq!(fuzzy.len(), 2);
    assert_eq!(fuzzy[0].raw, "10.0.0.1 foo");
    assert_eq!(fuzzy[1].raw, "10.0.0.2 foobar");
    assert_eq!(check(&f, "FOO", false).len(), 0);
    assert_eq!(check(&f, "", false).len(), 3);
}

#[test]
fn add_conflict_then_update() {
    let mut f = load("127.0.0.1 myapp.local\n");
    let r = add(&mut f, "127.0.0.2", "myapp.local", "", false);
    assert_eq!(r, Err(CommandError::Conflict(vec![String::from("127.0.0.1 myapp.local")])));
    assert_eq!(f.serialize(), "127.0.0.1 myapp.local\n");
    let r = add(&mut f, "127.0.0.2", "myapp.local", "", true);
    assert_eq!(r, Ok(vec![String::from("127.0.0.1 myapp.local")]));
    assert_eq!(f.serialize(), "127.0.0.2 myapp.local # Added by hostman\n");
    assert!(f.has_host("myapp.local"));
}

#[test]
fn add_several_names_with_comment() {
    let mut f = load("# hosts");
    let r = add(&mut f, "10.1.1.1", "a.test,b.test", "dev boxes", false);
    assert_eq!(r, Ok(vec![]));
    assert_eq!(f.serialize(), "# hosts\n10.1.1.1 a.test b.test # dev boxes");
    let last = f.lines.last().unwrap();
    assert_eq!(hosts_of(last), vec!["a.test", "b.test"]);
}

#[test]
fn add_update_removes_each_name() {
    let mut f = load("10.0.0.1 a x\n10.0.0.2 b\n");
    let r = add(&mut f, "10.0.0.9", "a,b", "", true);
    assert_eq!(r, Ok(vec![String::from("10.0.0.1 a x"), String::from("10.0.0.2 b")]));
    assert_eq!(f.serialize(), "10.0.0.1 x\n10.0.0.9 a b # Added by hostman\n");
}

#[test]
fn add_malformed_line_is_parse_failure() {
    let mut f = load("10.0.0.1 a\n");
    let r = add(&mut f, "", "x", "", false);
    assert_eq!(r, Err(CommandError::ParseFailure(String::from(" x # Added by hostman"))));
    let r = add(&mut f, "#", "y", "", false);
    assert!(matches!(r, Err(CommandError::ParseFailure(_))));
    assert_eq!(f.serialize(), "10.0.0.1 a\n");
}

#[test]
fn add_local_uses_loopback() {
    let mut f = load("# hosts\n");
    assert_eq!(add_local(&mut f, "app.local", "mine", false), Ok(vec![]));
    assert_eq!(f.serialize(), "# hosts\n127.0.0.1 app.local # mine\n");
}

#[test]
fn disabled_entry_matching() {
    let f = load("#127.0.0.1 x\n");
    assert!(!f.has_host("x"));
    assert!(f.has_disabled_host("x"));
}

#[test]
fn disable_and_enable_errors() {
    let mut f = load("#127.0.0.1 x\n127.0.0.1 y\n");
    assert_eq!(disable(&mut f, "x"), Err(CommandError::AlreadyDisabled));
    assert_eq!(disable(&mut f, "z"), Err(CommandError::NotFound));
    assert_eq!(enable(&mut f, "y"), Err(CommandError::AlreadyEnabled));
    assert_eq!(enable(&mut f, "z"), Err(CommandError::NotFound));
    assert_eq!(f.serialize(), "#127.0.0.1 x\n127.0.0.1 y\n");
}

#[test]
fn disable_leaves_other_lines() {
    let mut f = load("10.0.0.1 a\n10.0.0.2 ab\n10.0.0.3 a c\n");
    disable(&mut f, "a").unwrap();
    assert_eq!(f.serialize(), "#10.0.0.1 a\n10.0.0.2 ab\n#10.0.0.3 a c\n");
}

#[test]
fn summary_counts() {
    let f = load("# c\n10.0.0.1 a\n#10.0.0.2 b\n10.0.0.3 c d\n");
    let s = f.summary();
    assert_eq!(s.lines, 4);
    assert_eq!(s.enabled, 2);
    assert_eq!(s.disabled, 1);
    match show(&f, true) {
        Listing::Summary(t) => assert_eq!(t, s),
        Listing::Lines(_) => panic!("expected a summary"),
    }
}

#[test]
fn detail_listing_skips_comments_and_blanks() {
    let f = load("# c\n\n10.0.0.1 a\n#10.0.0.2 b\nlonely\n");
    match show(&f, false) {
        Listing::Lines(v) => {
            let raws: Vec<&str> = v.iter().map(|l| l.raw.as_str()).collect();
            assert_eq!(raws, vec!["10.0.0.1 a", "#10.0.0.2 b", "lonely"]);
        }
        Listing::Summary(_) => panic!("expected lines"),
    }
}

#[test]
fn multi_match_keeps_duplicates() {
    let f = load("10.0.0.1 a b\n10.0.0.2 b\n");
    let names = vec![String::from("a"), String::from("b")];
    let m = f.get_multi_match(&names);
    let raws: Vec<&str> = m.iter().map(|l| l.raw.as_str()).collect();
    assert_eq!(raws, vec!["10.0.0.1 a b", "10.0.0.1 a b", "10.0.0.2 b"]);
}

#[test]
fn unicode_whitespace_splits_names() {
    let l = HostLine::parse("10.0.0.1\u{3000}a\u{A0}b").unwrap();
    assert_eq!(hosts_of(&l), vec!["a", "b"]);
}

#[test]
fn add_line_appends_parsed_line() {
    let mut f = load("10.0.0.1 a");
    assert_eq!(f.add_line("10.0.0.2 b"), Ok(()));
    assert_eq!(f.add_line("10.0.0.3"), Err(ParseError));
    assert_eq!(f.lines.len(), 2);
    assert_eq!(f.serialize(), "10.0.0.1 a\n10.0.0.2 b");
}

#[test]
fn line_queries() {
    let e = HostLine::parse("10.0.0.1 a # note").unwrap();
    assert!(e.has_host());
    assert!(e.has_comment());
    let c = HostLine::parse("# note").unwrap();
    assert!(!c.has_host());
    assert!(!c.has_comment());
    let d = HostLine::parse("#10.0.0.1 a").unwrap();
    assert!(d.has_host());
    assert!(!d.has_comment());
}
