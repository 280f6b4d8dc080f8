//! What holds of cluster keys and of their encoding as a whole.

use crate::keys::{
    after, before, decoded, escaped, escaped_char, event_dim, parsed_segment, parsed_segments,
    unescaped, DimView, KeyView, NodeDepth, CLUSTER_KEY_VERSION, KEY_SEPARATOR, SEGMENT_SEPARATOR,
    UNKNOWN_SEGMENT, WILDCARD_SEGMENT,
};
use crate::storage::{law_prefix_patterns_match_prefixes, like, prefix_pattern};
use crate::text::{
    equal_ignoring_ascii_case, is_white_space, lemma_first_index_is, lemma_trimmed,
};
use vstd::prelude::*;

verus! {

impl DimView {
    /// Whether the dimension is no value that spells the segment of unknown ones. No event yields
    /// such a value.
    pub open spec fn is_unambiguous(self) -> bool {
        self != DimView::Val(UNKNOWN_SEGMENT@)
    }
}

impl KeyView {
    /// Whether no dimension is a value that spells the segment of unknown ones.
    pub open spec fn is_unambiguous(self) -> bool {
        &&& self.error_code.is_unambiguous()
        &&& self.card_type.is_unambiguous()
        &&& self.issuer.is_unambiguous()
    }

    /// The stored text up to the trailing wildcards. A prefix scan for it reads the subtree below
    /// the node.
    pub open spec fn stem(self) -> Seq<char> {
        let root = CLUSTER_KEY_VERSION@ + seq![KEY_SEPARATOR] + self.error_code.segment()
            + seq![SEGMENT_SEPARATOR];
        match self.depth() {
            NodeDepth::Root => root,
            NodeDepth::Mid => root + self.card_type.segment() + seq![SEGMENT_SEPARATOR],
            NodeDepth::Leaf => self.encoded(),
        }
    }

    /// The text after the version and its separator.
    spec fn body(self) -> Seq<char> {
        self.error_code.segment() + seq![SEGMENT_SEPARATOR] + self.card_type.segment()
            + seq![SEGMENT_SEPARATOR] + self.issuer.segment()
    }
}

/// No delimiter in a value reaches the key: a segment holds neither separator, and the wildcard
/// only where the dimension is aggregated over.
pub proof fn law_segments_hold_no_delimiter(dim: DimView)
    ensures
        forall|i: int|
            0 <= i < dim.segment().len() ==> (#[trigger] dim.segment()[i]) != KEY_SEPARATOR
                && dim.segment()[i] != SEGMENT_SEPARATOR && (dim is Any || dim.segment()[i] != '*'),
{
    reveal_strlit("UNK");
    reveal_strlit("*");
    if let DimView::Val(raw) = dim {
        lemma_escaped_plain(raw);
    }
}

proof fn lemma_escaped_plain(raw: Seq<char>)
    ensures
        forall|i: int|
            0 <= i < escaped(raw).len() ==> (#[trigger] escaped(raw)[i]) != '|' && escaped(raw)[i]
                != '/' && escaped(raw)[i] != '*',
    decreases raw.len(),
{
    if raw.len() > 0 {
        let start = escaped(raw.drop_last());
        lemma_escaped_plain(raw.drop_last());
        assert forall|i: int| 0 <= i < escaped(raw).len() implies (#[trigger] escaped(raw)[i]) != '|'
            && escaped(raw)[i] != '/' && escaped(raw)[i] != '*' by {
            if i < start.len() {
                assert(escaped(raw)[i] == start[i]);
            } else {
                assert(escaped(raw)[i] == escaped_char(raw.last())[i - start.len()]);
            }
        }
    }
}

proof fn lemma_escaped_concat(left: Seq<char>, right: Seq<char>)
    ensures
        escaped(left + right) == escaped(left) + escaped(right),
    decreases right.len(),
{
    if right.len() == 0 {
        assert(left + right =~= left);
        assert(escaped(left) + escaped(right) =~= escaped(left));
    } else {
        lemma_escaped_concat(left, right.drop_last());
        assert((left + right).drop_last() =~= left + right.drop_last());
        assert(escaped(left + right) =~= escaped(left) + escaped(right));
    }
}

/// Reading a written value gives the value back, whatever characters it holds.
pub proof fn law_values_round_trip(raw: Seq<char>)
    ensures
        unescaped(escaped(raw)) == Some(raw),
    decreases raw.len(),
{
    if raw.len() > 0 {
        let head = seq![raw[0]];
        let tail = raw.skip(1);
        law_values_round_trip(tail);
        assert(raw =~= head + tail);
        lemma_escaped_concat(head, tail);
        assert(head.drop_last() =~= seq![]);
        reveal_with_fuel(escaped, 2);
        assert(escaped(head) =~= escaped_char(raw[0]));
        let text = escaped(raw);
        if escaped_char(raw[0]).len() == 1 {
            assert(text.skip(1) =~= escaped(tail));
        } else {
            assert(text.skip(3) =~= escaped(tail));
        }
    }
}

/// Reading a written dimension gives the dimension back. The one exception is a value that spells
/// the segment of unknown ones: it reads as unknown.
pub proof fn law_segments_round_trip(dim: DimView)
    ensures
        parsed_segment(dim.segment()) == Some(
            if dim.is_unambiguous() {
                dim
            } else {
                DimView::Unknown
            },
        ),
{
    reveal_strlit("UNK");
    reveal_strlit("*");
    assert(UNKNOWN_SEGMENT@.len() == 3 && WILDCARD_SEGMENT@.len() == 1);
    if let DimView::Val(raw) = dim {
        law_values_round_trip(raw);
        lemma_escaped_plain(raw);
        if escaped(raw) == WILDCARD_SEGMENT@ {
            assert(escaped(raw)[0] == '*');
        }
        if escaped(raw) == UNKNOWN_SEGMENT@ {
            lemma_plain_text_reads_as_itself(UNKNOWN_SEGMENT@);
        }
        if raw == UNKNOWN_SEGMENT@ {
            lemma_plain_text_is_written_as_itself(raw);
        }
    }
}

proof fn lemma_plain_text_is_written_as_itself(text: Seq<char>)
    requires
        forall|i: int| 0 <= i < text.len() ==> escaped_char(#[trigger] text[i]) == seq![text[i]],
    ensures
        escaped(text) == text,
    decreases text.len(),
{
    if text.len() == 0 {
        assert(text =~= seq![]);
    } else {
        lemma_plain_text_is_written_as_itself(text.drop_last());
        assert(escaped(text) =~= text);
    }
}

proof fn lemma_plain_text_reads_as_itself(text: Seq<char>)
    requires
        forall|i: int| 0 <= i < text.len() ==> text[i] != '%',
    ensures
        unescaped(text) == Some(text),
    decreases text.len(),
{
    if text.len() == 0 {
        assert(text =~= seq![]);
    } else {
        lemma_plain_text_reads_as_itself(text.skip(1));
        assert(seq![text[0]] + text.skip(1) =~= text);
    }
}

/// Two dimensions with the same segment are the same.
pub proof fn law_segments_are_distinct(left: DimView, right: DimView)
    requires
        left.is_unambiguous(),
        right.is_unambiguous(),
        left.segment() == right.segment(),
    ensures
        left == right,
{
    law_segments_round_trip(left);
    law_segments_round_trip(right);
}

/// A text that starts with a segment and a separator splits there.
proof fn lemma_split(dim: DimView, tail: Seq<char>)
    ensures
        before(dim.segment() + seq![SEGMENT_SEPARATOR] + tail, SEGMENT_SEPARATOR) == dim.segment(),
        after(dim.segment() + seq![SEGMENT_SEPARATOR] + tail, SEGMENT_SEPARATOR) == Some(tail),
{
    let text = dim.segment() + seq![SEGMENT_SEPARATOR] + tail;
    law_segments_hold_no_delimiter(dim);
    lemma_first_index_is(text, SEGMENT_SEPARATOR, dim.segment().len() as int);
    assert(text.take(dim.segment().len() as int) =~= dim.segment());
    assert(text.skip(dim.segment().len() as int + 1) =~= tail);
}

/// A key's text splits into the version and the segments.
proof fn lemma_split_version(rest: Seq<char>)
    ensures
        before(CLUSTER_KEY_VERSION@ + seq![KEY_SEPARATOR] + rest, KEY_SEPARATOR)
            == CLUSTER_KEY_VERSION@,
        after(CLUSTER_KEY_VERSION@ + seq![KEY_SEPARATOR] + rest, KEY_SEPARATOR) == Some(rest),
{
    reveal_strlit("v1");
    let text = CLUSTER_KEY_VERSION@ + seq![KEY_SEPARATOR] + rest;
    lemma_first_index_is(text, KEY_SEPARATOR, 2);
    assert(text.take(2) =~= CLUSTER_KEY_VERSION@);
    assert(text.skip(3) =~= rest);
}

/// The first three segments of a key are read back, whatever stands after them.
proof fn lemma_body_round_trip(key: KeyView, more: Seq<char>)
    requires
        key.is_unambiguous(),
        more.len() > 0 ==> more[0] == SEGMENT_SEPARATOR,
    ensures
        parsed_segments(key.body() + more) == Some(key),
{
    let sep = seq![SEGMENT_SEPARATOR];
    let rest = key.body() + more;
    let rest3 = key.issuer.segment() + more;
    let rest2 = key.card_type.segment() + sep + rest3;
    assert(rest =~= key.error_code.segment() + sep + rest2);
    lemma_split(key.error_code, rest2);
    lemma_split(key.card_type, rest3);
    law_segments_hold_no_delimiter(key.issuer);
    lemma_first_index_is(rest3, SEGMENT_SEPARATOR, key.issuer.segment().len() as int);
    assert(before(rest3, SEGMENT_SEPARATOR) =~= key.issuer.segment());
    law_segments_round_trip(key.error_code);
    law_segments_round_trip(key.card_type);
    law_segments_round_trip(key.issuer);
}

/// A stored key splits into the version and segments that spell it.
proof fn lemma_encoded_parts(key: KeyView)
    requires
        key.is_unambiguous(),
    ensures
        before(key.encoded(), KEY_SEPARATOR) == CLUSTER_KEY_VERSION@,
        after(key.encoded(), KEY_SEPARATOR) == Some(key.body()),
        parsed_segments(key.body()) == Some(key),
{
    assert(key.encoded() =~= CLUSTER_KEY_VERSION@ + seq![KEY_SEPARATOR] + key.body());
    assert(key.body() + seq![] =~= key.body());
    lemma_split_version(key.body());
    lemma_body_round_trip(key, seq![]);
}

/// A stored key reads back as the key it was written from, for every node of the chain.
pub proof fn law_keys_round_trip(key: KeyView)
    requires
        key.is_unambiguous(),
        key.is_chain_shaped(),
    ensures
        decoded(key.encoded()) == Some(key),
{
    lemma_encoded_parts(key);
}

/// A later version's extra segments leave what the first three say unchanged.
pub proof fn law_later_segments_are_ignored(key: KeyView, more: Seq<char>)
    requires
        key.is_unambiguous(),
        key.is_chain_shaped(),
    ensures
        decoded(key.encoded() + seq![SEGMENT_SEPARATOR] + more) == Some(key),
{
    let tail = seq![SEGMENT_SEPARATOR] + more;
    assert(key.encoded() + seq![SEGMENT_SEPARATOR] + more =~= CLUSTER_KEY_VERSION@
        + seq![KEY_SEPARATOR] + (key.body() + tail));
    lemma_split_version(key.body() + tail);
    lemma_body_round_trip(key, tail);
}

/// Two keys stored under the same text are the same key.
pub proof fn law_stored_keys_are_distinct(left: KeyView, right: KeyView)
    requires
        left.is_unambiguous(),
        right.is_unambiguous(),
        left.encoded() == right.encoded(),
    ensures
        left == right,
{
    lemma_encoded_parts(left);
    lemma_encoded_parts(right);
}

/// A text of another version never reads as a key of this one.
pub proof fn law_foreign_versions_are_rejected(version: Seq<char>, rest: Seq<char>)
    requires
        version != CLUSTER_KEY_VERSION@,
        forall|i: int| 0 <= i < version.len() ==> version[i] != KEY_SEPARATOR,
    ensures
        decoded(version + seq![KEY_SEPARATOR] + rest) is None,
{
    let text = version + seq![KEY_SEPARATOR] + rest;
    lemma_first_index_is(text, KEY_SEPARATOR, version.len() as int);
    assert(text.take(version.len() as int) =~= version);
}

/// Whatever reads as a key is a node of the chain: no stored text yields a key that aggregates
/// over the card type and yet names an issuer.
pub proof fn law_decoded_keys_are_chain_shaped(raw: Seq<char>)
    ensures
        decoded(raw) matches Some(key) ==> key.is_chain_shaped(),
{
}

/// Writing out what was read is settled: it reads as the same key again, however the first text
/// spelled it.
pub proof fn law_rewritten_keys_read_the_same(raw: Seq<char>)
    ensures
        decoded(raw) matches Some(key) ==> key.is_unambiguous() ==> decoded(key.encoded()) == Some(
            key,
        ),
{
    if let Some(key) = decoded(raw) {
        if key.is_unambiguous() {
            law_keys_round_trip(key);
        }
    }
}

/// The chain of a node has at most three nodes: it starts at the root, ends at the node, and holds
/// one node of each depth on the way, all with the node's error code.
pub proof fn law_chain_goes_from_root_to_node(key: KeyView)
    requires
        key.is_chain_shaped(),
    ensures
        1 <= key.chain().len() <= 3,
        key.chain().first() == key.root(),
        key.chain().last() == key,
        key.chain()[0].depth() == NodeDepth::Root,
        key.chain().len() > 1 ==> key.chain()[1].depth() == NodeDepth::Mid,
        key.chain().len() > 2 ==> key.chain()[2].depth() == NodeDepth::Leaf,
        forall|i: int|
            0 <= i < key.chain().len() ==> (#[trigger] key.chain()[i]).error_code == key.error_code
                && key.chain()[i].is_chain_shaped(),
{
}

/// The hierarchy is a tree: the chain of every node on a chain is the part of it that leads there.
pub proof fn law_chain_of_an_ancestor_is_a_prefix(key: KeyView, i: int)
    requires
        key.is_chain_shaped(),
        0 <= i < key.chain().len(),
    ensures
        key.chain()[i].chain() == key.chain().take(i + 1),
{
    assert(key.chain()[i].chain() =~= key.chain().take(i + 1));
}

/// Ancestor keys are prefix truncations: the stem of every node on the chain is a prefix of the
/// stored key, and the node itself is stored under its stem followed by wildcards.
pub proof fn law_ancestors_are_prefix_truncations(key: KeyView, i: int)
    requires
        0 <= i < key.chain().len(),
    ensures
        key.chain()[i].stem().is_prefix_of(key.encoded()),
        key.chain()[i].encoded() == key.chain()[i].stem() + match key.chain()[i].depth() {
            NodeDepth::Root => seq!['*', '/', '*'],
            NodeDepth::Mid => seq!['*'],
            NodeDepth::Leaf => seq![],
        },
{
    reveal_strlit("*");
    let node = key.chain()[i];
    assert(node.error_code == key.error_code);
    let tail = match node.depth() {
        NodeDepth::Root => seq!['*', '/', '*'],
        NodeDepth::Mid => seq!['*'],
        NodeDepth::Leaf => seq![],
    };
    assert(node.encoded() =~= node.stem() + tail);
    assert(node.stem() =~= key.encoded().take(node.stem().len() as int));
}

/// A prefix scan for the stem of an ancestor finds exactly the keys of its subtree.
#[verifier::rlimit(50)]
#[verifier::spinoff_prover]
pub proof fn law_prefix_scan_reads_the_subtree(node: KeyView, key: KeyView)
    requires
        node.is_unambiguous(),
        key.is_unambiguous(),
        node.depth() != NodeDepth::Leaf,
    ensures
        node.stem().is_prefix_of(key.encoded()) <==> node == (if node.depth() == NodeDepth::Root {
            key.root()
        } else {
            key.mid()
        }),
{
    let sep = seq![SEGMENT_SEPARATOR];
    let lead = CLUSTER_KEY_VERSION@ + seq![KEY_SEPARATOR];
    let key_tail2 = key.issuer.segment();
    let key_tail1 = key.card_type.segment() + sep + key_tail2;
    assert(key.encoded() =~= lead + (key.error_code.segment() + sep + key_tail1));
    lemma_split(key.error_code, key_tail1);
    lemma_split(key.card_type, key_tail2);
    if node.stem().is_prefix_of(key.encoded()) {
        let left = key.encoded().skip(node.stem().len() as int);
        assert(key.encoded() =~= node.stem() + left);
        if node.depth() == NodeDepth::Root {
            assert(key.encoded() =~= lead + (node.error_code.segment() + sep + left));
            assert(key.encoded().skip(lead.len() as int) =~= node.error_code.segment() + sep
                + left);
            assert(key.encoded().skip(lead.len() as int) =~= key.error_code.segment() + sep
                + key_tail1);
            lemma_split(node.error_code, left);
            law_segments_are_distinct(node.error_code, key.error_code);
        } else {
            let node_tail = node.card_type.segment() + sep + left;
            assert(key.encoded() =~= lead + (node.error_code.segment() + sep + node_tail));
            assert(key.encoded().skip(lead.len() as int) =~= node.error_code.segment() + sep
                + node_tail);
            assert(key.encoded().skip(lead.len() as int) =~= key.error_code.segment() + sep
                + key_tail1);
            lemma_split(node.error_code, node_tail);
            lemma_split(node.card_type, left);
            law_segments_are_distinct(node.error_code, key.error_code);
            law_segments_are_distinct(node.card_type, key.card_type);
        }
    } else if node.depth() == NodeDepth::Root && node == key.root() {
        assert(node.stem() =~= key.encoded().take(node.stem().len() as int));
    } else if node.depth() == NodeDepth::Mid && node == key.mid() {
        assert(node.stem() =~= key.encoded().take(node.stem().len() as int));
    }
}

/// The pattern that a scan for the stem of an ancestor uses matches exactly the stored keys of its
/// subtree.
pub proof fn law_scan_pattern_matches_the_subtree(node: KeyView, key: KeyView)
    requires
        node.is_unambiguous(),
        key.is_unambiguous(),
        node.depth() != NodeDepth::Leaf,
    ensures
        like(prefix_pattern(node.stem()), key.encoded()) <==> node == (if node.depth()
            == NodeDepth::Root {
            key.root()
        } else {
            key.mid()
        }),
{
    law_prefix_patterns_match_prefixes(node.stem(), key.encoded());
    law_prefix_scan_reads_the_subtree(node, key);
}

/// A value of an event never collides with a reserved segment: it is not blank, holds no outer
/// white space, and spells neither the wildcard nor the unknown segment in any case. Missing data
/// is unknown, never the wildcard.
pub proof fn law_event_values_avoid_reserved_segments(value: Option<Seq<char>>)
    ensures
        !(event_dim(value) is Any),
        event_dim(value).is_unambiguous(),
        event_dim(value) matches DimView::Val(text) ==> text.len() > 0 && !is_white_space(text[0])
            && !is_white_space(text.last()) && text != WILDCARD_SEGMENT@
            && !equal_ignoring_ascii_case(text, UNKNOWN_SEGMENT@),
{
    if let Some(raw) = value {
        lemma_trimmed(raw);
    }
}

} // verus!
