//! What holds of the operations on texts, whatever the texts are.

use crate::text::{
    ascii_lower, equal_ignoring_ascii_case, first_index, is_white_space, lemma_first_index,
    precedes, slice_view, string_view, trimmed, trimmed_end, trimmed_start,
};
use vstd::prelude::*;

verus! {

/// White space is the 25 code points that Unicode lists under `White_Space`, and no other
/// character.
pub proof fn law_white_space_code_points(ch: char)
    ensures
        is_white_space(ch) <==> {
            let code = ch as u32;
            ||| code == 0x9
            ||| code == 0xa
            ||| code == 0xb
            ||| code == 0xc
            ||| code == 0xd
            ||| code == 0x20
            ||| code == 0x85
            ||| code == 0xa0
            ||| code == 0x1680
            ||| code == 0x2000
            ||| code == 0x2001
            ||| code == 0x2002
            ||| code == 0x2003
            ||| code == 0x2004
            ||| code == 0x2005
            ||| code == 0x2006
            ||| code == 0x2007
            ||| code == 0x2008
            ||| code == 0x2009
            ||| code == 0x200a
            ||| code == 0x2028
            ||| code == 0x2029
            ||| code == 0x202f
            ||| code == 0x205f
            ||| code == 0x3000
        },
{
}

/// Whether a text is made of white space alone.
pub open spec fn is_blank(text: Seq<char>) -> bool {
    forall|i: int| 0 <= i < text.len() ==> is_white_space(#[trigger] text[i])
}

/// Trimming takes away outer white space and nothing else: a text whose ends are not white space
/// comes out whole, whatever white space is put around it.
pub proof fn law_trimming_gives_back_what_white_space_surrounds(
    lead: Seq<char>,
    text: Seq<char>,
    trail: Seq<char>,
)
    requires
        is_blank(lead),
        is_blank(trail),
        text.len() > 0,
        !is_white_space(text[0]),
        !is_white_space(text.last()),
    ensures
        trimmed(lead + text + trail) == text,
{
    assert(lead + text + trail =~= lead + (text + trail));
    lemma_trim_lead(lead, text + trail);
    assert((text + trail)[0] == text[0]);
    lemma_trim_trail(text, trail);
}

/// A text of white space alone trims to nothing.
pub proof fn law_blank_texts_trim_to_nothing(text: Seq<char>)
    requires
        is_blank(text),
    ensures
        trimmed(text) == Seq::<char>::empty(),
{
    assert(text =~= text + seq![]);
    lemma_trim_lead(text, seq![]);
    assert(trimmed(text) =~= seq![]);
}

proof fn lemma_trim_lead(lead: Seq<char>, rest: Seq<char>)
    requires
        is_blank(lead),
    ensures
        trimmed_start(lead + rest) == trimmed_start(rest),
    decreases lead.len(),
{
    if lead.len() == 0 {
        assert(lead + rest =~= rest);
    } else {
        assert(is_white_space(lead[0]));
        assert(is_blank(lead.skip(1))) by {
            assert forall|i: int| 0 <= i < lead.skip(1).len() implies is_white_space(
                #[trigger] lead.skip(1)[i],
            ) by {
                assert(is_white_space(lead[i + 1]));
            }
        }
        lemma_trim_lead(lead.skip(1), rest);
        assert((lead + rest).skip(1) =~= lead.skip(1) + rest);
    }
}

proof fn lemma_trim_trail(text: Seq<char>, trail: Seq<char>)
    requires
        is_blank(trail),
        text.len() > 0,
        !is_white_space(text.last()),
    ensures
        trimmed_end(text + trail) == text,
    decreases trail.len(),
{
    if trail.len() == 0 {
        assert(text + trail =~= text);
    } else {
        assert(is_white_space(trail[trail.len() - 1]));
        assert(is_blank(trail.drop_last())) by {
            assert forall|i: int| 0 <= i < trail.drop_last().len() implies is_white_space(
                #[trigger] trail.drop_last()[i],
            ) by {
                assert(is_white_space(trail[i]));
            }
        }
        lemma_trim_trail(text, trail.drop_last());
        assert((text + trail).drop_last() =~= text + trail.drop_last());
    }
}

/// Case-blind equality to a text of capital letters: at each place the letter or its small form.
pub proof fn law_spellings_of_unk(text: Seq<char>)
    ensures
        equal_ignoring_ascii_case(text, seq!['U', 'N', 'K']) <==> text.len() == 3 && (text[0] == 'U'
            || text[0] == 'u') && (text[1] == 'N' || text[1] == 'n') && (text[2] == 'K' || text[2]
            == 'k'),
{
    let unk = seq!['U', 'N', 'K'];
    if text.len() == 3 {
        assert(ascii_lower(unk[0]) == 'u' && ascii_lower(unk[1]) == 'n' && ascii_lower(unk[2])
            == 'k');
        lemma_lower('U', text[0]);
        lemma_lower('N', text[1]);
        lemma_lower('K', text[2]);
        if equal_ignoring_ascii_case(text, unk) {
            assert(ascii_lower(text[0]) == ascii_lower(unk[0]));
            assert(ascii_lower(text[1]) == ascii_lower(unk[1]));
            assert(ascii_lower(text[2]) == ascii_lower(unk[2]));
        }
    }
}

proof fn lemma_lower(capital: char, ch: char)
    requires
        'A' <= capital <= 'Z',
    ensures
        ascii_lower(ch) == ascii_lower(capital) <==> ch == capital || ch as u32 == capital as u32
            + 32,
{
}

/// The order of strings looks at the first difference only: what both share at the start does not
/// count, an end comes before any character, and a smaller character before a larger one.
pub proof fn law_order_is_by_the_first_difference(
    shared: Seq<char>,
    left: Seq<char>,
    right: Seq<char>,
)
    ensures
        precedes(shared + left, shared + right) == precedes(left, right),
        right.len() == 0 ==> !precedes(left, right),
        left.len() == 0 && right.len() > 0 ==> precedes(left, right),
        left.len() > 0 && right.len() > 0 && left[0] != right[0] ==> precedes(left, right) == (
        left[0] < right[0]),
    decreases shared.len(),
{
    if shared.len() == 0 {
        assert(shared + left =~= left);
        assert(shared + right =~= right);
    } else {
        law_order_is_by_the_first_difference(shared.skip(1), left, right);
        assert((shared + left).skip(1) =~= shared.skip(1) + left);
        assert((shared + right).skip(1) =~= shared.skip(1) + right);
    }
}

/// The first index of a character is the length of what stands before it.
pub proof fn law_first_index_counts_what_stands_before(head: Seq<char>, ch: char, tail: Seq<char>)
    requires
        !head.contains(ch),
    ensures
        first_index(head + seq![ch] + tail, ch) == head.len(),
        first_index(head, ch) == head.len(),
{
    let text = head + seq![ch] + tail;
    lemma_first_index(text, ch);
    lemma_first_index(head, ch);
    assert(text[head.len() as int] == ch);
    let at = first_index(text, ch);
    if at < head.len() {
        assert(head[at] == text[at]);
    }
}

/// A text that may be missing is missing, or has the characters of the string.
pub proof fn law_optional_texts(slice: &str, string: String)
    ensures
        slice_view(Some(slice)) == Some(slice@),
        slice_view(None) is None,
        string_view(Some(string)) == Some(string@),
        string_view(None) is None,
{
}

} // verus!
