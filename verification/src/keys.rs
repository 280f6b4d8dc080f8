//! Cluster keys: the fixed chain of clusters that a payment belongs to, and the versioned text
//! under which each cluster is stored.
//!
//! ```text
//! v1|IF/D/HDFC          leaf
//! v1|IF/D/*             card-type ancestor
//! v1|IF/*/*             root
//! v1|IF/D/UNK           unknown-issuer leaf
//! ```

use crate::text::{chars_of, find_char, same_text, same_text_ignoring_ascii_case, trim};
use vstd::prelude::*;
use vstd::string::*;

verus! {

/// The version of the key encoding, before the first separator.
pub const CLUSTER_KEY_VERSION: &'static str = "v1";

/// Stands between the version and the segments.
pub const KEY_SEPARATOR: char = '|';

/// Stands between two segments.
pub const SEGMENT_SEPARATOR: char = '/';

/// The segment of a dimension that is aggregated over.
pub const WILDCARD_SEGMENT: &'static str = "*";

/// The segment of a dimension whose value is not known.
pub const UNKNOWN_SEGMENT: &'static str = "UNK";

/// One dimension of a cluster.
#[derive(Debug, PartialEq, Eq, Hash)]
pub enum Dim {
    /// A value that a payment has.
    Val(String),
    /// A real payment whose value is missing.
    Unknown,
    /// Aggregated over all values. Only an ancestor has it, never a payment.
    Any,
}

/// What a [`Dim`] stands for.
pub enum DimView {
    Val(Seq<char>),
    Unknown,
    Any,
}

impl View for Dim {
    type V = DimView;

    open spec fn view(&self) -> DimView {
        match self {
            Dim::Val(raw) => DimView::Val(raw@),
            Dim::Unknown => DimView::Unknown,
            Dim::Any => DimView::Any,
        }
    }
}

impl Clone for Dim {
    fn clone(&self) -> (copy: Self)
        ensures
            copy == *self,
    {
        match self {
            Dim::Val(raw) => Dim::Val(raw.clone()),
            Dim::Unknown => Dim::Unknown,
            Dim::Any => Dim::Any,
        }
    }
}

/// A node of the cluster hierarchy.
#[derive(Debug, PartialEq, Eq, Hash)]
pub struct ClusterKey {
    pub error_code: Dim,
    pub card_type: Dim,
    pub issuer: Dim,
}

/// What a [`ClusterKey`] stands for.
pub struct KeyView {
    pub error_code: DimView,
    pub card_type: DimView,
    pub issuer: DimView,
}

impl View for ClusterKey {
    type V = KeyView;

    open spec fn view(&self) -> KeyView {
        KeyView {
            error_code: self.error_code@,
            card_type: self.card_type@,
            issuer: self.issuer@,
        }
    }
}

impl Clone for ClusterKey {
    fn clone(&self) -> (copy: Self)
        ensures
            copy == *self,
    {
        ClusterKey {
            error_code: self.error_code.clone(),
            card_type: self.card_type.clone(),
            issuer: self.issuer.clone(),
        }
    }
}

/// How far down the hierarchy a node stands.
#[derive(Clone, Copy, Debug, PartialEq, Eq, Structural)]
pub enum NodeDepth {
    Root,
    Mid,
    Leaf,
}

/// What a value of an event says about a dimension: its trimmed text, unless there is none or it
/// spells one of the two reserved segments.
pub open spec fn event_dim(value: Option<Seq<char>>) -> DimView {
    match value {
        None => DimView::Unknown,
        Some(raw) => {
            let text = crate::text::trimmed(raw);
            if text.len() == 0 || is_reserved_spelling(text) {
                DimView::Unknown
            } else {
                DimView::Val(text)
            }
        },
    }
}

/// Whether `text` spells a reserved segment: the wildcard, or the unknown one in any case.
pub open spec fn is_reserved_spelling(text: Seq<char>) -> bool {
    text == WILDCARD_SEGMENT@ || crate::text::equal_ignoring_ascii_case(text, UNKNOWN_SEGMENT@)
}

/// How one character of a value is written in a segment.
pub open spec fn escaped_char(ch: char) -> Seq<char> {
    if ch == '%' {
        seq!['%', '2', '5']
    } else if ch == '|' {
        seq!['%', '7', 'C']
    } else if ch == '/' {
        seq!['%', '2', 'F']
    } else if ch == '*' {
        seq!['%', '2', 'A']
    } else {
        seq![ch]
    }
}

/// How a value is written in a segment.
pub open spec fn escaped(raw: Seq<char>) -> Seq<char>
    decreases raw.len(),
{
    if raw.len() == 0 {
        seq![]
    } else {
        escaped(raw.drop_last()) + escaped_char(raw.last())
    }
}

/// The value of a hexadecimal digit.
pub open spec fn hex_digit(ch: char) -> Option<u8> {
    if '0' <= ch <= '9' {
        Some((ch as u8 - '0' as u8) as u8)
    } else if 'a' <= ch <= 'f' {
        Some((ch as u8 - 'a' as u8 + 10) as u8)
    } else if 'A' <= ch <= 'F' {
        Some((ch as u8 - 'A' as u8 + 10) as u8)
    } else {
        None
    }
}

/// The byte that two characters spell as a hexadecimal number. A plus sign may stand before the
/// last digit, as in any number.
pub open spec fn hex_byte(hi: char, lo: char) -> Option<u8> {
    match (hex_digit(hi), hex_digit(lo)) {
        (Some(h), Some(l)) => Some((16 * h + l) as u8),
        (None, Some(l)) if hi == '+' => Some(l),
        _ => None,
    }
}

/// The value that a segment spells, unless an escape in it is broken.
pub open spec fn unescaped(encoded: Seq<char>) -> Option<Seq<char>>
    decreases encoded.len(),
{
    if encoded.len() == 0 {
        Some(seq![])
    } else if encoded[0] != '%' {
        prepended(seq![encoded[0]], unescaped(encoded.skip(1)))
    } else if encoded.len() < 3 {
        None
    } else {
        match hex_byte(encoded[1], encoded[2]) {
            Some(byte) => prepended(seq![byte as char], unescaped(encoded.skip(3))),
            None => None,
        }
    }
}

/// `head` before the text in `rest`, if there is one.
pub open spec fn prepended(head: Seq<char>, rest: Option<Seq<char>>) -> Option<Seq<char>> {
    match rest {
        Some(tail) => Some(head + tail),
        None => None,
    }
}

/// The dimension that a segment spells.
pub open spec fn parsed_segment(segment: Seq<char>) -> Option<DimView> {
    if segment == WILDCARD_SEGMENT@ {
        Some(DimView::Any)
    } else if segment == UNKNOWN_SEGMENT@ {
        Some(DimView::Unknown)
    } else {
        match unescaped(segment) {
            Some(raw) => Some(DimView::Val(raw)),
            None => None,
        }
    }
}

/// The part of `text` before its first `ch`.
pub open spec fn before(text: Seq<char>, ch: char) -> Seq<char> {
    text.take(crate::text::first_index(text, ch))
}

/// The part of `text` after its first `ch`, if it holds one.
pub open spec fn after(text: Seq<char>, ch: char) -> Option<Seq<char>> {
    let at = crate::text::first_index(text, ch);
    if at < text.len() {
        Some(text.skip(at + 1))
    } else {
        None
    }
}

/// The three dimensions that the first three segments of `rest` spell.
pub open spec fn parsed_segments(rest: Seq<char>) -> Option<KeyView> {
    match after(rest, SEGMENT_SEPARATOR) {
        None => None,
        Some(rest2) => match after(rest2, SEGMENT_SEPARATOR) {
            None => None,
            Some(rest3) => match (
                parsed_segment(before(rest, SEGMENT_SEPARATOR)),
                parsed_segment(before(rest2, SEGMENT_SEPARATOR)),
                parsed_segment(before(rest3, SEGMENT_SEPARATOR)),
            ) {
                (Some(error_code), Some(card_type), Some(issuer)) => Some(
                    KeyView { error_code, card_type, issuer },
                ),
                _ => None,
            },
        },
    }
}

/// The key that `raw` spells: this version's prefix, then at least three segments, of which the
/// first three spell dimensions with no issuer under a wildcard card type.
pub open spec fn decoded(raw: Seq<char>) -> Option<KeyView> {
    match after(raw, KEY_SEPARATOR) {
        None => None,
        Some(rest) => if before(raw, KEY_SEPARATOR) != CLUSTER_KEY_VERSION@ {
            None
        } else {
            match parsed_segments(rest) {
                Some(key) => if key.is_chain_shaped() {
                    Some(key)
                } else {
                    None
                },
                None => None,
            }
        },
    }
}

impl DimView {
    /// The text of the dimension in a key.
    pub open spec fn segment(self) -> Seq<char> {
        match self {
            DimView::Val(raw) => escaped(raw),
            DimView::Unknown => UNKNOWN_SEGMENT@,
            DimView::Any => WILDCARD_SEGMENT@,
        }
    }
}

impl KeyView {
    /// The ancestor that keeps the error code alone.
    pub open spec fn root(self) -> KeyView {
        KeyView { card_type: DimView::Any, issuer: DimView::Any, ..self }
    }

    /// The ancestor that keeps the error code and the card type.
    pub open spec fn mid(self) -> KeyView {
        KeyView { issuer: DimView::Any, ..self }
    }

    /// Where the node stands: trailing wildcards mark an ancestor.
    pub open spec fn depth(self) -> NodeDepth {
        if !(self.issuer is Any) {
            NodeDepth::Leaf
        } else if !(self.card_type is Any) {
            NodeDepth::Mid
        } else {
            NodeDepth::Root
        }
    }

    /// The path from the root down to this node.
    pub open spec fn chain(self) -> Seq<KeyView> {
        match self.depth() {
            NodeDepth::Leaf => seq![self.root(), self.mid(), self],
            NodeDepth::Mid => seq![self.root(), self],
            NodeDepth::Root => seq![self],
        }
    }

    /// No node aggregates over the card type and yet tells issuers apart.
    pub open spec fn is_chain_shaped(self) -> bool {
        self.card_type is Any ==> self.issuer is Any
    }

    /// The text under which the node is stored.
    pub open spec fn encoded(self) -> Seq<char> {
        CLUSTER_KEY_VERSION@ + seq![KEY_SEPARATOR] + self.error_code.segment()
            + seq![SEGMENT_SEPARATOR] + self.card_type.segment() + seq![SEGMENT_SEPARATOR]
            + self.issuer.segment()
    }
}

impl Dim {
    /// The text of the dimension in a key.
    pub fn as_segment(&self) -> (segment: String)
        ensures
            segment@ == self@.segment(),
    {
        match self {
            Self::Val(raw) => escape_segment(raw.as_str()),
            Self::Unknown => UNKNOWN_SEGMENT.to_string(),
            Self::Any => WILDCARD_SEGMENT.to_string(),
        }
    }

    /// The dimension of a payment, from a value of its event. Missing and blank values, and those
    /// that spell a reserved segment, are unknown. No value yields the wildcard.
    pub fn from_event_value(value: Option<&str>) -> (dim: Self)
        ensures
            dim@ == event_dim(crate::text::slice_view(value)),
            !(dim is Any),
            value is None ==> dim is Unknown,
            dim matches Dim::Val(text) ==> text@ == crate::text::trimmed(value->0@),
            value matches Some(raw) ==> (dim is Val <==> {
                let text = crate::text::trimmed(raw@);
                &&& text.len() > 0
                &&& !(text.len() == 1 && text[0] == '*')
                &&& !(text.len() == 3 && (text[0] == 'U' || text[0] == 'u') && (text[1] == 'N'
                    || text[1] == 'n') && (text[2] == 'K' || text[2] == 'k'))
            }),
    {
        proof {
            reveal_strlit("*");
            reveal_strlit("UNK");
            assert(UNKNOWN_SEGMENT@ =~= seq!['U', 'N', 'K']);
            if let Some(raw) = value {
                let text = crate::text::trimmed(raw@);
                crate::text_laws::law_spellings_of_unk(text);
                if text.len() == 1 && text[0] == '*' {
                    assert(text =~= WILDCARD_SEGMENT@);
                }
            }
        }
        match value {
            None => Self::Unknown,
            Some(raw) => {
                let text = trim(raw);
                if text.is_empty() || same_text(text, WILDCARD_SEGMENT)
                    || same_text_ignoring_ascii_case(text, UNKNOWN_SEGMENT) {
                    Self::Unknown
                } else {
                    Self::Val(text.to_string())
                }
            },
        }
    }
}

/// Writes a value as a segment: `%`, `|`, `/` and `*` are percent-encoded.
pub fn escape_segment(raw: &str) -> (out: String)
    ensures
        out@ == escaped(raw@),
{
    let chars = chars_of(raw);
    let mut out = String::new();
    for i in 0..chars.len()
        invariant
            chars@ == raw@,
            out@ == escaped(raw@.take(i as int)),
    {
        let ghost before = out@;
        let ch = chars[i];
        match ch {
            '%' => out.append("%25"),
            '|' => out.append("%7C"),
            '/' => out.append("%2F"),
            '*' => out.append("%2A"),
            _ => out.push(ch),
        }
        proof {
            reveal_strlit("%25");
            reveal_strlit("%7C");
            reveal_strlit("%2F");
            reveal_strlit("%2A");
            assert(raw@.take(i + 1).drop_last() =~= raw@.take(i as int));
            assert(out@ =~= before + escaped_char(ch));
        }
    }
    proof {
        assert(raw@.take(raw@.len() as int) =~= raw@);
    }
    out
}

/// The value of a hexadecimal digit.
fn hex_value(ch: char) -> (value: Option<u8>)
    ensures
        value == hex_digit(ch),
        value matches Some(digit) ==> digit < 16,
{
    if '0' <= ch && ch <= '9' {
        Some(ch as u8 - '0' as u8)
    } else if 'a' <= ch && ch <= 'f' {
        Some(ch as u8 - 'a' as u8 + 10)
    } else if 'A' <= ch && ch <= 'F' {
        Some(ch as u8 - 'A' as u8 + 10)
    } else {
        None
    }
}

/// Reads a segment back into the value it was written from. After a `%` two characters must spell
/// a byte, as two hexadecimal digits or as a plus sign and one; else it fails.
pub fn unescape_segment(encoded: &str) -> (out: Option<String>)
    ensures
        out is Some <==> unescaped(encoded@) is Some,
        out matches Some(raw) ==> unescaped(encoded@) == Some(raw@),
{
    let chars = chars_of(encoded);
    let mut out = String::new();
    let mut i: usize = 0;
    proof {
        assert(encoded@.skip(0) =~= encoded@);
        if let Some(rest) = unescaped(encoded@) {
            assert(out@ + rest =~= rest);
        }
    }
    while i < chars.len()
        invariant
            chars@ == encoded@,
            i <= chars.len(),
            unescaped(encoded@) == prepended(out@, unescaped(encoded@.skip(i as int))),
        decreases chars.len() - i,
    {
        let ghost rest = encoded@.skip(i as int);
        let ghost start = out@;
        let ch = chars[i];
        if ch == '%' {
            if chars.len() - i < 3 {
                return None;
            }
            let hi = chars[i + 1];
            let lo = chars[i + 2];
            let byte: u8 = match (hex_value(hi), hex_value(lo)) {
                (Some(h), Some(l)) => 16 * h + l,
                (None, Some(l)) if hi == '+' => l,
                _ => return None,
            };
            out.push(byte as char);
            proof {
                assert(rest.skip(3) =~= encoded@.skip(i + 3));
                if let Some(tail) = unescaped(encoded@.skip(i + 3)) {
                    assert(start + (seq![byte as char] + tail) =~= out@ + tail);
                }
            }
            i += 3;
        } else {
            out.push(ch);
            proof {
                assert(rest.skip(1) =~= encoded@.skip(i + 1));
                if let Some(tail) = unescaped(encoded@.skip(i + 1)) {
                    assert(start + (seq![ch] + tail) =~= out@ + tail);
                }
            }
            i += 1;
        }
    }
    proof {
        assert(out@ + Seq::<char>::empty() =~= out@);
    }
    Some(out)
}

/// Reads one segment of a key.
pub fn parse_segment(s: &str) -> (dim: Option<Dim>)
    ensures
        dim is Some <==> parsed_segment(s@) is Some,
        dim matches Some(found) ==> parsed_segment(s@) == Some(found@),
{
    if same_text(s, WILDCARD_SEGMENT) {
        Some(Dim::Any)
    } else if same_text(s, UNKNOWN_SEGMENT) {
        Some(Dim::Unknown)
    } else {
        match unescape_segment(s) {
            Some(raw) => Some(Dim::Val(raw)),
            None => None,
        }
    }
}

impl ClusterKey {
    /// The node of a payment, from its three dimensions.
    pub fn leaf(error_code: Dim, card_type: Dim, issuer: Dim) -> (key: Self)
        ensures
            key == (ClusterKey { error_code, card_type, issuer }),
    {
        Self { error_code, card_type, issuer }
    }

    /// The ancestor that keeps the error code alone.
    pub fn root(&self) -> (key: Self)
        ensures
            key@ == self@.root(),
            key.error_code == self.error_code,
            key.card_type is Any,
            key.issuer is Any,
    {
        Self { error_code: self.error_code.clone(), card_type: Dim::Any, issuer: Dim::Any }
    }

    /// The ancestor that keeps the error code and the card type.
    pub fn mid(&self) -> (key: Self)
        ensures
            key@ == self@.mid(),
            key.error_code == self.error_code,
            key.card_type == self.card_type,
            key.issuer is Any,
    {
        Self {
            error_code: self.error_code.clone(),
            card_type: self.card_type.clone(),
            issuer: Dim::Any,
        }
    }

    /// Where the node stands in the hierarchy.
    pub fn depth(&self) -> (depth: NodeDepth)
        ensures
            depth == self@.depth(),
            depth is Leaf <==> !(self.issuer is Any),
            depth is Mid <==> self.issuer is Any && !(self.card_type is Any),
            depth is Root <==> self.issuer is Any && self.card_type is Any,
    {
        match (&self.card_type, &self.issuer) {
            (Dim::Any, Dim::Any) => NodeDepth::Root,
            (_, Dim::Any) => NodeDepth::Mid,
            _ => NodeDepth::Leaf,
        }
    }

    /// The path from the root down to this node, which ends it.
    pub fn chain(&self) -> (path: Vec<ClusterKey>)
        ensures
            path@.map_values(|key: ClusterKey| key@) == self@.chain(),
            path@.len() == (if !(self.issuer is Any) {
                3int
            } else if !(self.card_type is Any) {
                2int
            } else {
                1int
            }),
            path@.last() == *self,
            forall|i: int|
                0 <= i < path@.len() ==> (#[trigger] path@[i]).error_code == self.error_code,
            path@.len() > 1 ==> path@[0].card_type is Any && path@[0].issuer is Any,
            path@.len() > 2 ==> path@[1].card_type == self.card_type && path@[1].issuer is Any,
    {
        let path = match self.depth() {
            NodeDepth::Leaf => vec![self.root(), self.mid(), self.clone()],
            NodeDepth::Mid => vec![self.root(), self.clone()],
            NodeDepth::Root => vec![self.clone()],
        };
        proof {
            assert(path@.map_values(|key: ClusterKey| key@) =~= self@.chain());
        }
        path
    }

    /// The text under which the node is stored.
    pub fn as_db(&self) -> (out: String)
        ensures
            out@ == self@.encoded(),
    {
        let mut out = String::new();
        out.append(CLUSTER_KEY_VERSION);
        out.push(KEY_SEPARATOR);
        out.append(self.error_code.as_segment().as_str());
        out.push(SEGMENT_SEPARATOR);
        out.append(self.card_type.as_segment().as_str());
        out.push(SEGMENT_SEPARATOR);
        out.append(self.issuer.as_segment().as_str());
        proof {
            assert(out@ =~= self@.encoded());
        }
        out
    }

    /// Reads a stored key back. Another version's key, fewer than three segments, a broken escape
    /// or an issuer under a wildcard card type gives nothing. Segments after the third are left to
    /// later versions.
    #[verifier::rlimit(50)]
    #[verifier::spinoff_prover]
    pub fn from_db(raw: &str) -> (key: Option<Self>)
        ensures
            key is Some <==> decoded(raw@) is Some,
            key matches Some(found) ==> decoded(raw@) == Some(found@),
    {
        let chars = chars_of(raw);
        let end = chars.len();
        let bar = find_char(&chars, 0, KEY_SEPARATOR);
        proof {
            assert(raw@.skip(0) =~= raw@);
        }
        if bar == end {
            return None;
        }
        let version = raw.substring_char(0, bar);
        if !same_text(version, CLUSTER_KEY_VERSION) {
            return None;
        }
        let first = bar + 1;
        let slash1 = find_char(&chars, first, SEGMENT_SEPARATOR);
        if slash1 == end {
            return None;
        }
        let second = slash1 + 1;
        proof {
            assert(raw@.skip(first as int).skip(slash1 - first + 1) =~= raw@.skip(second as int));
        }
        let slash2 = find_char(&chars, second, SEGMENT_SEPARATOR);
        if slash2 == end {
            return None;
        }
        let third = slash2 + 1;
        let stop = find_char(&chars, third, SEGMENT_SEPARATOR);
        proof {
            let rest = raw@.skip(first as int);
            let rest2 = raw@.skip(second as int);
            let rest3 = raw@.skip(third as int);
            assert(rest2.skip(slash2 - second + 1) =~= rest3);
            assert(raw@.subrange(0, bar as int) =~= before(raw@, KEY_SEPARATOR));
            assert(raw@.subrange(first as int, slash1 as int) =~= before(rest, SEGMENT_SEPARATOR));
            assert(raw@.subrange(second as int, slash2 as int) =~= before(
                rest2,
                SEGMENT_SEPARATOR,
            ));
            assert(raw@.subrange(third as int, stop as int) =~= before(rest3, SEGMENT_SEPARATOR));
        }
        let error_code = parse_segment(raw.substring_char(first, slash1))?;
        let card_type = parse_segment(raw.substring_char(second, slash2))?;
        let issuer = parse_segment(raw.substring_char(third, stop))?;
        match (&card_type, &issuer) {
            (Dim::Any, Dim::Any) => {},
            (Dim::Any, _) => return None,
            _ => {},
        }
        Some(Self { error_code, card_type, issuer })
    }
}

} // verus!
