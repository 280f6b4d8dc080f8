use cluster_stats::keys::{
    escape_segment, parse_segment, unescape_segment, ClusterKey, Dim, NodeDepth, CLUSTER_KEY_VERSION, KEY_SEPARATOR, SEGMENT_SEPARATOR,
    UNKNOWN_SEGMENT, WILDCARD_SEGMENT,
};
use cluster_stats::storage::key_prefix_pattern;

fn v(s: &str) -> Dim {
    Dim::Val(s.to_string())
}

#[test]
fn leaf_roundtrips() {
    let key = ClusterKey::leaf(v("card_declined"), v("visa"), v("HDFC"));
    let raw = key.as_db();
    assert_eq!(raw, "v1|card_declined/visa/HDFC");
    assert_eq!(ClusterKey::from_db(&raw), Some(key));
}

#[test]
fn chain_is_root_mid_leaf() {
    let chain = ClusterKey::leaf(v("card_declined"), v("visa"), v("HDFC")).chain();
    assert_eq!(chain.len(), 3);
    assert_eq!(chain[0].depth(), NodeDepth::Root);
    assert_eq!(chain[1].depth(), NodeDepth::Mid);
    assert_eq!(chain[2].depth(), NodeDepth::Leaf);
    assert_eq!(chain[0].as_db(), "v1|card_declined/*/*");
    assert_eq!(chain[1].as_db(), "v1|card_declined/visa/*");
    assert_eq!(chain[2].as_db(), "v1|card_declined/visa/HDFC");
}

#[test]
fn delimiters_and_stars_are_percent_escaped() {
    let key = ClusterKey::leaf(v("05|bad/code"), v("pre*paid"), v("H|D*F/C"));
    let raw = key.as_db();
    assert!(raw.contains("%7C"));
    assert!(raw.contains("%2A"));
    assert!(raw.contains("%2F"));
    assert_eq!(ClusterKey::from_db(&raw), Some(key));
}

#[test]
fn from_db_rejects_foreign_versions_and_wildcards() {
    assert!(ClusterKey::from_db("v2|a/b/c").is_none());
    assert_eq!(
        ClusterKey::from_db("v1|card_declined/*/*").map(|k| k.depth()),
        Some(NodeDepth::Root)
    );
}

#[test]
fn from_event_value_normalizes_reserved_spellings() {
    assert_eq!(Dim::from_event_value(Some("  ")), Dim::Unknown);
    assert_eq!(Dim::from_event_value(None), Dim::Unknown);
    assert_eq!(Dim::from_event_value(Some("*")), Dim::Unknown);
    assert_eq!(Dim::from_event_value(Some("unk")), Dim::Unknown);
    assert_eq!(Dim::from_event_value(Some("HDFC")), Dim::Val("HDFC".into()));
}

#[test]
fn event_values_are_trimmed() {
    assert_eq!(Dim::from_event_value(Some("\t HDFC Bank\n")), v("HDFC Bank"));
    assert_eq!(Dim::from_event_value(Some("\u{3000}visa\u{a0}")), v("visa"));
    assert_eq!(Dim::from_event_value(Some("\u{200b}visa")), v("\u{200b}visa"));
    assert_eq!(Dim::from_event_value(Some("")), Dim::Unknown);
    assert_eq!(Dim::from_event_value(Some(" UnK ")), Dim::Unknown);
    assert_eq!(Dim::from_event_value(Some(" * ")), Dim::Unknown);
    assert_eq!(Dim::from_event_value(Some("**")), v("**"));
    assert_eq!(Dim::from_event_value(Some("UNKNOWN")), v("UNKNOWN"));
    assert_eq!(Dim::from_event_value(Some("a b")), v("a b"));
}

#[test]
fn white_space_is_that_of_unicode() {
    for code in 0..=0x10ffffu32 {
        if let Some(ch) = char::from_u32(code) {
            if ch.is_whitespace() || code < 0x3100 {
                let text = ch.to_string();
                let expected = if ch.is_whitespace() || ch == '*' {
                    Dim::Unknown
                } else {
                    Dim::Val(text.clone())
                };
                assert_eq!(Dim::from_event_value(Some(&text)), expected);
            }
        }
    }
}

#[test]
fn reserved_characters_have_fixed_escapes() {
    let key = ClusterKey::leaf(v("%|/*"), v(""), v("\u{e9}\u{1f4b3}%41"));
    let raw = key.as_db();
    assert_eq!(raw, "v1|%25%7C%2F%2A//\u{e9}\u{1f4b3}%2541");
    assert_eq!(ClusterKey::from_db(&raw), Some(key));
}

#[test]
fn escapes_are_read_in_any_case() {
    let read = |raw: &str| ClusterKey::from_db(raw).map(|k| k.error_code);
    assert_eq!(read("v1|%7c%2f/b/c"), Some(v("|/")));
    assert_eq!(read("v1|%41%e9/b/c"), Some(v("A\u{e9}")));
    assert_eq!(read("v1|%+f/b/c"), Some(v("\u{f}")));
    assert_eq!(read("v1|%2A/b/c"), Some(v("*")));
    assert_eq!(read("v1|%55NK/b/c"), Some(v("UNK")));
}

#[test]
fn rewritten_keys_read_the_same() {
    let read = ClusterKey::from_db("v1|%7c%62/visa/%41/more").unwrap();
    assert_eq!(read.as_db(), "v1|%7Cb/visa/A");
    assert_eq!(ClusterKey::from_db(&read.as_db()), Some(read));
}

#[test]
fn broken_escapes_are_rejected() {
    assert!(ClusterKey::from_db("v1|a%/b/c").is_none());
    assert!(ClusterKey::from_db("v1|a/b%2/c").is_none());
    assert!(ClusterKey::from_db("v1|a/b/%2G").is_none());
    assert!(ClusterKey::from_db("v1|a/b/%G2").is_none());
    assert!(ClusterKey::from_db("v1|a/b/%-1").is_none());
    assert!(ClusterKey::from_db("v1|a/b/%++").is_none());
    assert!(ClusterKey::from_db("v1|a/b/%2\u{e9}").is_none());
}

#[test]
fn from_db_needs_three_segments() {
    assert!(ClusterKey::from_db("").is_none());
    assert!(ClusterKey::from_db("v1").is_none());
    assert!(ClusterKey::from_db("v1/a/b/c").is_none());
    assert!(ClusterKey::from_db("v1|a").is_none());
    assert!(ClusterKey::from_db("v1|a/b").is_none());
    assert!(ClusterKey::from_db(" v1|a/b/c").is_none());
    assert!(ClusterKey::from_db("v11|a/b/c").is_none());
    assert_eq!(ClusterKey::from_db("v1|//"), Some(ClusterKey::leaf(v(""), v(""), v(""))));
    assert_eq!(ClusterKey::from_db("v1|a|b/c/d"), Some(ClusterKey::leaf(v("a|b"), v("c"), v("d"))));
}

#[test]
fn later_segments_are_ignored() {
    let key = ClusterKey::leaf(v("a"), v("b"), v("c"));
    assert_eq!(ClusterKey::from_db("v1|a/b/c/d"), Some(key.clone()));
    assert_eq!(ClusterKey::from_db("v1|a/b/c/%"), Some(key.clone()));
    assert_eq!(ClusterKey::from_db("v1|a/b/c/"), Some(key));
}

#[test]
fn sentinels_are_distinct_segments() {
    let key = ClusterKey::leaf(v("IF"), v("D"), Dim::Unknown);
    assert_eq!(key.as_db(), "v1|IF/D/UNK");
    assert_eq!(ClusterKey::from_db("v1|IF/D/UNK"), Some(key.clone()));
    assert_eq!(key.depth(), NodeDepth::Leaf);
    assert_eq!(key.mid().as_db(), "v1|IF/D/*");
    assert_eq!(ClusterKey::from_db("v1|IF/D/*"), Some(key.mid()));
    assert_eq!(ClusterKey::from_db("v1|IF/unk/c").map(|k| k.card_type), Some(v("unk")));
    assert_eq!(ClusterKey::from_db("v1|*/*/*").map(|k| k.error_code), Some(Dim::Any));
}

#[test]
fn nodes_off_the_chain_are_rejected() {
    assert!(ClusterKey::from_db("v1|IF/*/HDFC").is_none());
    assert!(ClusterKey::from_db("v1|IF/*/UNK").is_none());
    assert!(ClusterKey::from_db("v1|IF/%2A/HDFC").is_some());
}

#[test]
fn chains_of_ancestors_are_prefixes() {
    let leaf = ClusterKey::leaf(v("IF"), Dim::Unknown, v("HDFC"));
    let chain = leaf.chain();
    assert_eq!(chain[2], leaf);
    assert_eq!(chain[1], leaf.mid());
    assert_eq!(chain[0], leaf.root());
    assert_eq!(chain[1].chain(), vec![chain[0].clone(), chain[1].clone()]);
    assert_eq!(chain[0].chain(), vec![chain[0].clone()]);
    assert_eq!(leaf.mid().root(), leaf.root());
    for node in &chain {
        let stem = node.as_db();
        assert!(leaf.as_db().starts_with(stem.trim_end_matches(|c| c == '*' || c == '/')));
    }
}

#[test]
fn prefix_scan_reads_one_error_code() {
    let stem = "v1|card_declined/";
    assert_eq!(key_prefix_pattern(stem), "v1|card\\_declined/%");
    assert_eq!(key_prefix_pattern(""), "%");
    let inside = ClusterKey::leaf(v("card_declined"), v("visa"), v("x/y"));
    let outside = ClusterKey::leaf(v("card_declined/visa"), v("visa"), v("x"));
    assert!(inside.as_db().starts_with(stem));
    assert!(!outside.as_db().starts_with(stem));
}

/// SQL's `LIKE`, with a backslash as escape character.
fn like(pattern: &[char], text: &[char]) -> bool {
    match pattern {
        [] => text.is_empty(),
        ['%', rest @ ..] => {
            like(rest, text) || (!text.is_empty() && like(pattern, &text[1..]))
        }
        ['\\', ch, rest @ ..] => text.first() == Some(ch) && like(rest, &text[1..]),
        ['\\'] => false,
        ['_', rest @ ..] => !text.is_empty() && like(rest, &text[1..]),
        [ch, rest @ ..] => text.first() == Some(ch) && like(rest, &text[1..]),
    }
}

#[test]
fn scan_patterns_match_exactly_the_prefix() {
    assert_eq!(key_prefix_pattern("a%_\\b"), "a\\%\\_\\\\b%");
    let texts = ["", "a", "a_b/", "axb/", "a_b/c", "axb/c", "a%2Fb/", "a2Fb/", "a%2F", "\\a", "\\"];
    for prefix in texts {
        let pattern: Vec<char> = key_prefix_pattern(prefix).chars().collect();
        for text in texts {
            let chars: Vec<char> = text.chars().collect();
            assert_eq!(like(&pattern, &chars), text.starts_with(prefix));
        }
    }
}

#[test]
fn segments_read_back() {
    for raw in ["", "visa", "*", "unk", "%", "a|b/c*d%e", "\u{e9}\u{1f4b3}", "UNKN"] {
        assert_eq!(unescape_segment(&escape_segment(raw)), Some(raw.to_string()));
        assert_eq!(parse_segment(&v(raw).as_segment()), Some(v(raw)));
    }
    assert_eq!(unescape_segment(&escape_segment("UNK")), Some("UNK".to_string()));
    assert_eq!(parse_segment(&v("UNK").as_segment()), Some(Dim::Unknown));
    assert_eq!(parse_segment(&Dim::Unknown.as_segment()), Some(Dim::Unknown));
    assert_eq!(parse_segment(&Dim::Any.as_segment()), Some(Dim::Any));
    assert_eq!(parse_segment("%2"), None);
}

#[test]
fn encoding_constants() {
    assert_eq!(CLUSTER_KEY_VERSION, "v1");
    assert_eq!(KEY_SEPARATOR, '|');
    assert_eq!(SEGMENT_SEPARATOR, '/');
    assert_eq!(WILDCARD_SEGMENT, "*");
    assert_eq!(UNKNOWN_SEGMENT, "UNK");
}
