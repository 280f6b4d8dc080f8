//! What the pieces of a stored key say, character by character, for every text.

use crate::keys::{
    after, before, decoded, escaped, escaped_char, event_dim, hex_byte, hex_digit, parsed_segment,
    unescaped, ClusterKey, Dim, DimView, KeyView, CLUSTER_KEY_VERSION,
    KEY_SEPARATOR, UNKNOWN_SEGMENT, WILDCARD_SEGMENT,
};
use crate::text::{first_index, is_white_space, lemma_first_index, lemma_first_index_is};
use crate::text_laws::{
    is_blank, law_blank_texts_trim_to_nothing, law_spellings_of_unk,
    law_trimming_gives_back_what_white_space_surrounds,
};
use vstd::prelude::*;

verus! {

/// A dimension stands for the variant and the text that it is made of.
pub proof fn law_dimensions_stand_for_themselves(dim: Dim, key: ClusterKey)
    ensures
        dim matches Dim::Val(raw) ==> dim@ == DimView::Val(raw@),
        dim is Unknown ==> dim@ == DimView::Unknown,
        dim is Any ==> dim@ == DimView::Any,
        key@.error_code == key.error_code@,
        key@.card_type == key.card_type@,
        key@.issuer == key.issuer@,
{
}

/// A value of an event is kept whole, whatever its length and its characters: white space around
/// it is taken away, and it is unknown only where what is left is a star or spells `UNK` in some
/// case.
pub proof fn law_event_values_are_kept(lead: Seq<char>, text: Seq<char>, trail: Seq<char>)
    requires
        is_blank(lead),
        is_blank(trail),
        text.len() > 0,
        !is_white_space(text[0]),
        !is_white_space(text.last()),
    ensures
        ({
            let star = text.len() == 1 && text[0] == '*';
            let unk = text.len() == 3 && (text[0] == 'U' || text[0] == 'u') && (text[1] == 'N'
                || text[1] == 'n') && (text[2] == 'K' || text[2] == 'k');
            event_dim(Some(lead + text + trail)) == if star || unk {
                DimView::Unknown
            } else {
                DimView::Val(text)
            }
        }),
{
    reveal_strlit("*");
    reveal_strlit("UNK");
    law_trimming_gives_back_what_white_space_surrounds(lead, text, trail);
    law_spellings_of_unk(text);
    assert(UNKNOWN_SEGMENT@ =~= seq!['U', 'N', 'K']);
    if text.len() == 1 && text[0] == '*' {
        assert(text =~= WILDCARD_SEGMENT@);
    }
}

/// A missing value and a blank one are unknown.
pub proof fn law_blank_event_values_are_unknown(text: Seq<char>)
    requires
        is_blank(text),
    ensures
        event_dim(Some(text)) == DimView::Unknown,
        event_dim(None) == DimView::Unknown,
{
    law_blank_texts_trim_to_nothing(text);
}

/// Two different values of events never share a dimension, unless both are unknown.
pub proof fn law_event_values_are_told_apart(left: Seq<char>, right: Seq<char>)
    requires
        left.len() > 0 && !is_white_space(left[0]) && !is_white_space(left.last()),
        right.len() > 0 && !is_white_space(right[0]) && !is_white_space(right.last()),
        left != right,
    ensures
        event_dim(Some(left)) == event_dim(Some(right)) ==> event_dim(Some(left)) is Unknown,
{
    let none = Seq::<char>::empty();
    assert(none + left + none =~= left);
    assert(none + right + none =~= right);
    law_event_values_are_kept(none, left, none);
    law_event_values_are_kept(none, right, none);
}

/// Values are written one character after the other.
pub proof fn law_values_are_written_in_order(left: Seq<char>, right: Seq<char>)
    ensures
        escaped(left + right) == escaped(left) + escaped(right),
        escaped(Seq::<char>::empty()) == Seq::<char>::empty(),
    decreases right.len(),
{
    if right.len() == 0 {
        assert(left + right =~= left);
        assert(escaped(left) + escaped(right) =~= escaped(left));
    } else {
        law_values_are_written_in_order(left, right.drop_last());
        assert((left + right).drop_last() =~= left + right.drop_last());
        assert(escaped(left + right) =~= escaped(left) + escaped(right));
    }
}

/// Four characters are written as their hexadecimal code after a percent sign, and every other one
/// as itself.
pub proof fn law_written_characters(ch: char)
    ensures
        escaped(seq!['%']) == seq!['%', '2', '5'],
        escaped(seq!['|']) == seq!['%', '7', 'C'],
        escaped(seq!['/']) == seq!['%', '2', 'F'],
        escaped(seq!['*']) == seq!['%', '2', 'A'],
        ch != '%' && ch != '|' && ch != '/' && ch != '*' ==> escaped(seq![ch]) == seq![ch],
{
    lemma_written_char('%');
    lemma_written_char('|');
    lemma_written_char('/');
    lemma_written_char('*');
    lemma_written_char(ch);
}

proof fn lemma_written_char(ch: char)
    ensures
        escaped(seq![ch]) == escaped_char(ch),
{
    reveal_with_fuel(escaped, 2);
    assert(seq![ch].drop_last() =~= seq![]);
    assert(escaped(seq![ch]) =~= escaped_char(ch));
}

/// Whether a character is the hexadecimal digit for a number, in either case: `0` has code 48, `A`
/// has 65 and `a` has 97.
pub open spec fn is_digit_for(ch: char, value: int) -> bool {
    ||| 0 <= value < 10 && ch as u32 == 48 + value
    ||| 10 <= value < 16 && ch as u32 == 65 + (value - 10)
    ||| 10 <= value < 16 && ch as u32 == 97 + (value - 10)
}

/// A character other than the percent sign is read as it stands, and the rest on its own.
pub proof fn law_plain_characters_are_read_as_they_stand(ch: char, rest: Seq<char>)
    requires
        ch != '%',
    ensures
        unescaped(Seq::<char>::empty()) == Some(Seq::<char>::empty()),
        unescaped(rest) is None ==> unescaped(seq![ch] + rest) is None,
        unescaped(rest) matches Some(tail) ==> unescaped(seq![ch] + rest) == Some(seq![ch] + tail),
{
    assert((seq![ch] + rest).skip(1) =~= rest);
}

/// After a percent sign two hexadecimal digits are read as the character with that code, and so is
/// one digit after a plus sign.
pub proof fn law_escapes_are_read_as_codes(
    hi: char,
    lo: char,
    high: int,
    low: int,
    code: char,
    rest: Seq<char>,
)
    requires
        is_digit_for(hi, high) || (hi == '+' && high == 0),
        is_digit_for(lo, low),
        code as u32 == 16 * high + low,
    ensures
        unescaped(rest) is None ==> unescaped(seq!['%', hi, lo] + rest) is None,
        unescaped(rest) matches Some(tail) ==> unescaped(seq!['%', hi, lo] + rest) == Some(
            seq![code] + tail,
        ),
{
    let text = seq!['%', hi, lo] + rest;
    assert(text.skip(3) =~= rest);
    assert(hex_digit(lo) == Some(low as u8));
    assert(hex_byte(hi, lo) == Some((16 * high + low) as u8));
}

/// A percent sign that is not followed by such digits cannot be read.
pub proof fn law_broken_escapes_are_not_read(hi: char, lo: char, rest: Seq<char>)
    requires
        !is_some_digit(lo) || !(hi == '+' || is_some_digit(hi)),
    ensures
        unescaped(seq!['%', hi, lo] + rest) is None,
        unescaped(seq!['%', hi]) is None,
        unescaped(seq!['%']) is None,
{
    let text = seq!['%', hi, lo] + rest;
    if hex_byte(hi, lo) is Some {
        let low = hex_digit(lo)->0 as int;
        assert(is_digit_for(lo, low));
        if hi != '+' {
            assert(is_digit_for(hi, hex_digit(hi)->0 as int));
        }
    }
}

/// Whether a character is a hexadecimal digit.
pub open spec fn is_some_digit(ch: char) -> bool {
    exists|value: int| is_digit_for(ch, value)
}

/// A segment is the wildcard where it is a star, unknown where it is `UNK` in capitals, and else
/// the value that its characters spell.
pub proof fn law_segments_are_read_by_their_text(segment: Seq<char>)
    ensures
        segment == seq!['*'] ==> parsed_segment(segment) == Some(DimView::Any),
        segment == seq!['U', 'N', 'K'] ==> parsed_segment(segment) == Some(DimView::Unknown),
        segment != seq!['*'] && segment != seq!['U', 'N', 'K'] ==> {
            &&& unescaped(segment) is None ==> parsed_segment(segment) is None
            &&& unescaped(segment) matches Some(raw) ==> parsed_segment(segment) == Some(
                DimView::Val(raw),
            )
        },
{
    reveal_strlit("*");
    reveal_strlit("UNK");
    assert(WILDCARD_SEGMENT@ =~= seq!['*']);
    assert(UNKNOWN_SEGMENT@ =~= seq!['U', 'N', 'K']);
    assert(WILDCARD_SEGMENT@.len() == 1 && UNKNOWN_SEGMENT@.len() == 3);
}

/// A key is stored as `v1|`, and then its three segments with slashes between them and nothing
/// after them.
pub proof fn law_stored_text(key: KeyView, raw: Seq<char>)
    ensures
        key.encoded() == seq!['v', '1', '|'] + key.error_code.segment() + seq!['/']
            + key.card_type.segment() + seq!['/'] + key.issuer.segment(),
        DimView::Val(raw).segment() == escaped(raw),
        DimView::Unknown.segment() == seq!['U', 'N', 'K'],
        DimView::Any.segment() == seq!['*'],
{
    reveal_strlit("v1");
    reveal_strlit("*");
    reveal_strlit("UNK");
    assert(CLUSTER_KEY_VERSION@ + seq![KEY_SEPARATOR] =~= seq!['v', '1', '|']);
    assert(WILDCARD_SEGMENT@ =~= seq!['*']);
    assert(UNKNOWN_SEGMENT@ =~= seq!['U', 'N', 'K']);
}

proof fn lemma_split_at(head: Seq<char>, ch: char, tail: Seq<char>)
    requires
        !head.contains(ch),
    ensures
        before(head + seq![ch] + tail, ch) == head,
        after(head + seq![ch] + tail, ch) == Some(tail),
{
    let text = head + seq![ch] + tail;
    assert forall|i: int| 0 <= i < head.len() implies text[i] != ch by {
        assert(head.contains(head[i]));
    }
    lemma_first_index_is(text, ch, head.len() as int);
    assert(text.take(head.len() as int) =~= head);
    assert(text.skip(head.len() as int + 1) =~= tail);
}

/// `v1|` and three segments read as the three dimensions that they spell, whatever other segments
/// come after them. The one key refused has a wildcard card type and another issuer.
pub proof fn law_three_segments_are_read(
    error_code: Seq<char>,
    card_type: Seq<char>,
    issuer: Seq<char>,
    more: Seq<char>,
)
    requires
        !error_code.contains('/'),
        !card_type.contains('/'),
        !issuer.contains('/'),
        more.len() > 0 ==> more[0] == '/',
    ensures
        ({
            let raw = seq!['v', '1', '|'] + error_code + seq!['/'] + card_type + seq!['/'] + issuer
                + more;
            match (parsed_segment(error_code), parsed_segment(card_type), parsed_segment(issuer)) {
                (Some(first), Some(second), Some(third)) => if second is Any && !(third is Any) {
                    decoded(raw) is None
                } else {
                    decoded(raw) == Some(
                        KeyView { error_code: first, card_type: second, issuer: third },
                    )
                },
                _ => decoded(raw) is None,
            }
        }),
{
    reveal_strlit("v1");
    let raw = seq!['v', '1', '|'] + error_code + seq!['/'] + card_type + seq!['/'] + issuer + more;
    let rest3 = issuer + more;
    let rest2 = card_type + seq!['/'] + rest3;
    let rest = error_code + seq!['/'] + rest2;
    assert(CLUSTER_KEY_VERSION@ =~= seq!['v', '1']);
    assert(raw =~= seq!['v', '1'] + seq!['|'] + rest);
    lemma_split_at(seq!['v', '1'], '|', rest);
    lemma_split_at(error_code, '/', rest2);
    lemma_split_at(card_type, '/', rest3);
    assert forall|i: int| 0 <= i < issuer.len() implies rest3[i] != '/' by {
        assert(issuer.contains(issuer[i]));
    }
    lemma_first_index_is(rest3, '/', issuer.len() as int);
    assert(before(rest3, '/') =~= issuer);
}

/// Only `v1|` and at least three segments read as a key: the segments are those that the text
/// falls into at its first slashes.
pub proof fn law_only_three_segments_are_read(raw: Seq<char>) -> (parts: (
    Seq<char>,
    Seq<char>,
    Seq<char>,
    Seq<char>,
))
    requires
        decoded(raw) is Some,
    ensures
        raw == seq!['v', '1', '|'] + parts.0 + seq!['/'] + parts.1 + seq!['/'] + parts.2 + parts.3,
        !parts.0.contains('/'),
        !parts.1.contains('/'),
        !parts.2.contains('/'),
        parts.3.len() > 0 ==> parts.3[0] == '/',
{
    reveal_strlit("v1");
    let rest = lemma_cut(raw, '|');
    let rest2 = lemma_cut(rest, '/');
    let rest3 = lemma_cut(rest2, '/');
    lemma_first_index(rest3, '/');
    let last = before(rest3, '/');
    let more = rest3.skip(first_index(rest3, '/'));
    assert(rest3 =~= last + more);
    assert(CLUSTER_KEY_VERSION@ =~= seq!['v', '1']);
    let parts = (before(rest, '/'), before(rest2, '/'), last, more);
    assert(raw =~= seq!['v', '1', '|'] + parts.0 + seq!['/'] + parts.1 + seq!['/'] + parts.2
        + parts.3);
    parts
}

proof fn lemma_cut(text: Seq<char>, ch: char) -> (tail: Seq<char>)
    requires
        after(text, ch) is Some,
    ensures
        after(text, ch) == Some(tail),
        text == before(text, ch) + seq![ch] + tail,
        !before(text, ch).contains(ch),
{
    lemma_first_index(text, ch);
    let tail = text.skip(first_index(text, ch) + 1);
    assert(text =~= before(text, ch) + seq![ch] + tail);
    tail
}

/// Trailing wildcards alone say where a node stands, and an ancestor keeps what stands before
/// them.
pub proof fn law_ancestors_keep_what_stands_before(key: KeyView)
    ensures
        key.depth() is Leaf <==> !(key.issuer is Any),
        key.depth() is Mid <==> key.issuer is Any && !(key.card_type is Any),
        key.depth() is Root <==> key.issuer is Any && key.card_type is Any,
        key.root().error_code == key.error_code,
        key.root().card_type is Any,
        key.root().issuer is Any,
        key.mid().error_code == key.error_code,
        key.mid().card_type == key.card_type,
        key.mid().issuer is Any,
        key.is_chain_shaped() <==> (key.issuer is Any || !(key.card_type is Any)),
        key.chain().len() == (if !(key.issuer is Any) {
            3int
        } else if !(key.card_type is Any) {
            2int
        } else {
            1int
        }),
        key.chain().last() == key,
        key.chain().len() > 1 ==> key.chain()[0] == key.root(),
        key.chain().len() > 2 ==> key.chain()[1] == key.mid(),
{
}

/// Only the value `UNK` is written like another dimension.
pub proof fn law_only_unk_is_ambiguous(dim: DimView, key: KeyView)
    ensures
        dim.is_unambiguous() <==> dim != DimView::Val(seq!['U', 'N', 'K']),
        key.is_unambiguous() <==> key.error_code.is_unambiguous() && key.card_type.is_unambiguous()
            && key.issuer.is_unambiguous(),
{
    reveal_strlit("UNK");
    assert(UNKNOWN_SEGMENT@ =~= seq!['U', 'N', 'K']);
}

} // verus!
