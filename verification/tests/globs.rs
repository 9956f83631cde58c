use dpcp::glob::glob_match;

fn reference(p: &[char], s: &[char]) -> bool {
    match p.first() {
        None => s.is_empty(),
        Some('*') => (0..=s.len()).any(|k| reference(&p[1..], &s[k..])),
        Some(c) => s.first() == Some(c) && reference(&p[1..], &s[1..]),
    }
}

#[test]
fn star_is_the_only_wildcard() {
    assert!(glob_match("*dpcp*", "/home/me/dpcp/x"));
    assert!(glob_match("/home/*", "/home/me/dpcp"));
    assert!(!glob_match("/home/*", "/root/home/"));
    assert!(glob_match("*/x", "/a/x"));
    assert!(!glob_match("*/x", "/a/xy"));
    assert!(glob_match("a?c", "a?c"));
    assert!(!glob_match("a?c", "abc"));
    assert!(!glob_match("[ab]", "a"));
}

#[test]
fn pattern_without_star_matches_itself_alone() {
    assert!(glob_match("/a/b", "/a/b"));
    assert!(!glob_match("/a/b", "/a/bc"));
    assert!(!glob_match("/a/b", "/a"));
    assert!(glob_match("", ""));
    assert!(!glob_match("", "x"));
}

#[test]
fn star_matches_everything() {
    for s in ["", "a", "*", "é/ü"] {
        assert!(glob_match("*", s));
        assert!(glob_match("**", s));
    }
}

#[test]
fn pieces_do_not_overlap() {
    assert!(!glob_match("ab*ba", "aba"));
    assert!(glob_match("ab*ba", "abba"));
    assert!(!glob_match("a*a", "a"));
    assert!(glob_match("é*é", "ééé"));
}

#[test]
fn every_short_pattern_matches_by_definition() {
    let alphabet = ['a', 'b', '*'];
    let mut words: Vec<Vec<char>> = vec![vec![]];
    let mut from = 0;
    for _ in 0..4 {
        let to = words.len();
        for i in from..to {
            for c in alphabet {
                let mut w = words[i].clone();
                w.push(c);
                words.push(w);
            }
        }
        from = to;
    }
    for p in &words {
        let pattern: String = p.iter().collect();
        for s in &words {
            let text: String = s.iter().collect();
            assert_eq!(glob_match(&pattern, &text), reference(p, s), "{pattern} {text}");
        }
    }
}
