use olma::metadata::index::levenshtein;
use olma::output::{reporter_line, spinner_frame, Spinner};
use olma::relocator::macho::swap_prefix;
use olma::relocator::text::replace_prefix_in_bytes;
use olma::services::plist::xml_escape;
use olma::text::lex_less;

#[test]
fn swapping_back_restores() {
    let s = "/old/lib/libx.dylib";
    let t = swap_prefix(s, "/old", "/new").unwrap();
    assert_eq!(swap_prefix(&t, "/new", "/old").as_deref(), Some(s));
}

#[test]
fn escaped_text_has_no_markup() {
    let e = xml_escape("<a href=\"x\">&amp;</a>");
    assert!(!e.contains('<') && !e.contains('>'));
    assert_eq!(e, "&lt;a href=\"x\"&gt;&amp;amp;&lt;/a&gt;");
}

#[test]
fn edit_distance_is_symmetric_and_zero_on_itself() {
    assert_eq!(levenshtein("flaw", "lawn"), levenshtein("lawn", "flaw"));
    assert_eq!(levenshtein("Sunday", "saturday"), 3);
    assert_eq!(levenshtein("tree", "tree"), 0);
}

#[test]
fn replacing_a_string_by_itself_changes_nothing() {
    let input = b"/opt/x and /opt/y".to_vec();
    assert_eq!(replace_prefix_in_bytes(&input, "/opt", "/opt"), input);
    assert_eq!(replace_prefix_in_bytes(&input, "", ""), input);
}

#[test]
fn lexicographic_order() {
    assert!(lex_less("python@3.11", "python@3.12"));
    assert!(!lex_less("python@3.12", "python@3.11"));
    assert!(lex_less("py", "python"));
    assert!(!lex_less("same", "same"));
    assert!(lex_less("", "a"));
}

#[test]
fn reporter_lines() {
    assert_eq!(spinner_frame(0), "⠋");
    assert_eq!(spinner_frame(13), "⠸");
    let mut sp = Spinner::new();
    assert_eq!(sp.status_line("Resolving", false), "⠋  Resolving\n");
    assert_eq!(sp.status_line("Resolving", true), "\r\x1b[2K⠙  Resolving");
    assert_eq!(sp.frame, 2);
    assert_eq!(reporter_line("✓", "done", true, true), "\r\x1b[2K✓  done\n");
    assert_eq!(reporter_line("✗", "failed", false, true), "✗  failed\n");
    let mut wrap = Spinner { frame: usize::MAX };
    let _ = wrap.status_line("x", false);
    assert_eq!(wrap.frame, 0);
}
