//! How stored rows are looked up.

use crate::text::chars_of;
use vstd::prelude::*;

verus! {

/// What SQL's `LIKE` matches: `%` stands for any text, `_` for any one character, and a backslash
/// takes the character after it literally.
pub open spec fn like(pattern: Seq<char>, text: Seq<char>) -> bool
    decreases pattern.len(), text.len(),
{
    if pattern.len() == 0 {
        text.len() == 0
    } else if pattern[0] == '%' {
        like(pattern.skip(1), text) || (text.len() > 0 && like(pattern, text.skip(1)))
    } else if text.len() == 0 {
        false
    } else if pattern[0] == '\\' {
        pattern.len() > 1 && text[0] == pattern[1] && like(pattern.skip(2), text.skip(1))
    } else {
        (pattern[0] == '_' || text[0] == pattern[0]) && like(pattern.skip(1), text.skip(1))
    }
}

/// How a pattern spells one character so that it matches only itself.
pub open spec fn like_literal_char(ch: char) -> Seq<char> {
    if ch == '%' || ch == '_' || ch == '\\' {
        seq!['\\', ch]
    } else {
        seq![ch]
    }
}

/// How a pattern spells a text so that it matches only itself.
pub open spec fn like_literal(text: Seq<char>) -> Seq<char>
    decreases text.len(),
{
    if text.len() == 0 {
        seq![]
    } else {
        like_literal(text.drop_last()) + like_literal_char(text.last())
    }
}

/// The pattern for the texts that start with a prefix.
pub open spec fn prefix_pattern(prefix: Seq<char>) -> Seq<char> {
    like_literal(prefix) + seq!['%']
}

/// A literal text at the start of a pattern matches that text and leaves the rest of the pattern
/// to the rest of the text.
proof fn lemma_like_literal(literal: Seq<char>, rest: Seq<char>, text: Seq<char>)
    ensures
        like(like_literal(literal) + rest, text) <==> literal.is_prefix_of(text) && like(
            rest,
            text.skip(literal.len() as int),
        ),
    decreases literal.len(),
{
    if literal.len() == 0 {
        assert(like_literal(literal) + rest =~= rest);
        assert(text.skip(0) =~= text);
        assert(literal =~= text.take(0));
    } else {
        let start = literal.drop_last();
        let ch = literal.last();
        let tail = like_literal_char(ch) + rest;
        lemma_like_literal(start, tail, text);
        assert(like_literal(literal) + rest =~= like_literal(start) + tail);
        if start.is_prefix_of(text) {
            let left = text.skip(start.len() as int);
            assert(tail.skip(like_literal_char(ch).len() as int) =~= rest);
            if left.len() > 0 {
                assert(left.skip(1) =~= text.skip(literal.len() as int));
                assert(left[0] == text[literal.len() - 1]);
            }
            assert(literal.is_prefix_of(text) <==> left.len() > 0 && left[0] == ch) by {
                if left.len() > 0 && left[0] == ch {
                    assert(literal =~= text.take(literal.len() as int));
                }
                if literal.is_prefix_of(text) {
                    assert(literal[literal.len() - 1] == text[literal.len() - 1]);
                }
            }
        } else if literal.is_prefix_of(text) {
            assert(start =~= text.take(start.len() as int));
        }
    }
}

proof fn lemma_like_any(text: Seq<char>)
    ensures
        like(seq!['%'], text),
    decreases text.len(),
{
    if text.len() == 0 {
        reveal_with_fuel(like, 2);
        assert(seq!['%'].skip(1) =~= seq![]);
    } else {
        lemma_like_any(text.skip(1));
    }
}

/// The pattern for a prefix matches exactly the texts that start with it, whatever characters the
/// prefix holds.
pub proof fn law_prefix_patterns_match_prefixes(prefix: Seq<char>, text: Seq<char>)
    ensures
        like(prefix_pattern(prefix), text) <==> prefix.is_prefix_of(text),
{
    lemma_like_literal(prefix, seq!['%'], text);
    lemma_like_any(text.skip(prefix.len() as int));
}

/// What a pattern matches, by what it starts with: a percent sign matches any text before what the
/// rest matches, an underscore one character, a backslash with a character that character, and any
/// other character itself. An empty pattern matches the empty text alone, and a backslash at the
/// end nothing.
pub proof fn law_patterns_match_by_their_start(ch: char, rest: Seq<char>, text: Seq<char>)
    ensures
        like(seq![], text) <==> text.len() == 0,
        like(seq!['%'] + rest, text) <==> (exists|n: int|
            0 <= n <= text.len() && like(rest, #[trigger] text.skip(n))),
        like(seq!['_'] + rest, text) <==> text.len() > 0 && like(rest, text.skip(1)),
        like(seq!['\\', ch] + rest, text) <==> text.len() > 0 && text[0] == ch && like(
            rest,
            text.skip(1),
        ),
        !like(seq!['\\'], text),
        ch != '%' && ch != '_' && ch != '\\' ==> (like(seq![ch] + rest, text) <==> text.len() > 0
            && text[0] == ch && like(rest, text.skip(1))),
{
    assert((seq!['_'] + rest).skip(1) =~= rest);
    assert((seq!['\\', ch] + rest).skip(2) =~= rest);
    assert((seq![ch] + rest).skip(1) =~= rest);
    lemma_like_skips(rest, text);
}

proof fn lemma_like_skips(rest: Seq<char>, text: Seq<char>)
    ensures
        like(seq!['%'] + rest, text) <==> (exists|n: int|
            0 <= n <= text.len() && like(rest, #[trigger] text.skip(n))),
    decreases text.len(),
{
    let pattern = seq!['%'] + rest;
    assert(pattern.skip(1) =~= rest);
    assert(text.skip(0) =~= text);
    if text.len() > 0 {
        let left = text.skip(1);
        lemma_like_skips(rest, left);
        if like(pattern, left) {
            let n = choose|n: int| 0 <= n <= left.len() && like(rest, #[trigger] left.skip(n));
            assert(left.skip(n) =~= text.skip(n + 1));
        }
        if exists|n: int| 0 <= n <= text.len() && like(rest, #[trigger] text.skip(n)) {
            let n = choose|n: int| 0 <= n <= text.len() && like(rest, #[trigger] text.skip(n));
            if n > 0 {
                assert(left.skip(n - 1) =~= text.skip(n));
            }
        }
    }
}

/// A pattern spells a prefix character by character, with a backslash before the three characters
/// that stand for more than themselves and before no other, and ends in one percent sign.
pub proof fn law_prefix_patterns_are_written_in_order(prefix: Seq<char>, ch: char)
    ensures
        prefix_pattern(seq![]) == seq!['%'],
        ch == '%' || ch == '_' || ch == '\\' ==> prefix_pattern(prefix.push(ch)) == prefix_pattern(
            prefix,
        ).drop_last() + seq!['\\', ch, '%'],
        ch != '%' && ch != '_' && ch != '\\' ==> prefix_pattern(prefix.push(ch)) == prefix_pattern(
            prefix,
        ).drop_last() + seq![ch, '%'],
{
    assert(prefix.push(ch).drop_last() =~= prefix);
    assert(prefix_pattern(prefix).drop_last() =~= like_literal(prefix));
    assert(prefix_pattern(seq![]) =~= seq!['%']);
    assert(prefix_pattern(prefix.push(ch)) =~= like_literal(prefix) + (like_literal_char(ch)
        + seq!['%']));
    assert(like_literal_char(ch) + seq!['%'] =~= if ch == '%' || ch == '_' || ch == '\\' {
        seq!['\\', ch, '%']
    } else {
        seq![ch, '%']
    });
}

/// The `LIKE` pattern that finds the rows whose key starts with a prefix, and no others.
pub fn key_prefix_pattern(key_prefix: &str) -> (pattern: String)
    ensures
        forall|key: Seq<char>| #[trigger]
            like(pattern@, key) <==> key_prefix@.is_prefix_of(key),
        pattern@ == prefix_pattern(key_prefix@),
{
    let chars = chars_of(key_prefix);
    let mut pattern = String::new();
    for i in 0..chars.len()
        invariant
            chars@ == key_prefix@,
            pattern@ == like_literal(key_prefix@.take(i as int)),
    {
        let ghost before = pattern@;
        let ch = chars[i];
        if ch == '%' || ch == '_' || ch == '\\' {
            pattern.push('\\');
        }
        pattern.push(ch);
        proof {
            assert(key_prefix@.take(i + 1).drop_last() =~= key_prefix@.take(i as int));
            assert(pattern@ =~= before + like_literal_char(ch));
        }
    }
    pattern.push('%');
    proof {
        assert(key_prefix@.take(key_prefix@.len() as int) =~= key_prefix@);
        assert(pattern@ =~= prefix_pattern(key_prefix@));
        assert forall|key: Seq<char>| #[trigger]
            like(pattern@, key) <==> key_prefix@.is_prefix_of(key) by {
            law_prefix_patterns_match_prefixes(key_prefix@, key);
        }
    }
    pattern
}

} // verus!
