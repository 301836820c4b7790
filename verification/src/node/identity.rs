//! The name of a node in the network.

use vstd::prelude::*;
use vstd::seq_lib::seq_to_set_is_finite;
use vstd::utf8::*;

use crate::util::hex::{encode, hex_text, lemma_hex_injective};
use crate::util::text::same_text;

verus! {

/// The name of a node: its public key in hexadecimal. A name that starts with `stub-`
/// stands for a node that was added by hand and is not known yet.
#[derive(Debug, PartialEq, Eq, Hash)]
pub struct NodeId(pub String);

impl View for NodeId {
    type V = Seq<char>;

    open spec fn view(&self) -> Seq<char> {
        self.0@
    }
}

/// Whether the list holds each name of the set once and nothing else.
pub open spec fn lists_names(list: Seq<NodeId>, names: Set<Seq<char>>) -> bool {
    &&& forall|i: int| 0 <= i < list.len() ==> names.contains((#[trigger] list[i])@)
    &&& forall|i: int, j: int|
        0 <= i < j < list.len() ==> (#[trigger] list[i])@ != (#[trigger] list[j])@
    &&& forall|k: Seq<char>| #[trigger]
        names.contains(k) ==> exists|i: int| 0 <= i < list.len() && (#[trigger] list[i])@ == k
}

impl Clone for NodeId {
    fn clone(&self) -> (r: NodeId)
        ensures
            r == *self,
            r@ == self@,
    {
        NodeId(self.0.clone())
    }
}

/// Where a text is cut for display: after eight bytes, or at its end.
pub open spec fn short_end(s: Seq<char>) -> int {
    if encode_utf8(s).len() < 8 {
        encode_utf8(s).len() as int
    } else {
        8
    }
}

/// Whether the text can be cut there.
pub open spec fn shortens(s: Seq<char>) -> bool {
    is_char_boundary(encode_utf8(s), short_end(s))
}

/// The part of a text that is shown: its first eight bytes, or all of it.
pub open spec fn shortened(s: Seq<char>) -> Seq<char> {
    decode_utf8(encode_utf8(s).take(short_end(s)))
}

/// The part of a text that is shown.
pub fn short_text(s: &str) -> (r: &str)
    requires
        shortens(s@),
    ensures
        r@ == shortened(s@),
{
    let n: usize = s.as_bytes().len();
    let cut: usize = if n < 8 {
        n
    } else {
        8
    };
    let r: &str = s.split_at(cut).0;
    proof {
        encode_utf8_decode_utf8(r@);
        assert(encode_utf8(s@).subrange(0, cut as int) =~= encode_utf8(s@).take(cut as int));
    }
    r
}

impl NodeId {
    /// The node with the given public key.
    pub fn from_public_key_bytes(bytes: &[u8]) -> (r: NodeId)
        ensures
            r@ == hex_text(bytes@),
    {
        NodeId(encode(bytes))
    }

    /// The name as text.
    pub fn as_str(&self) -> (r: &str)
        ensures
            r@ == self@,
    {
        self.0.as_str()
    }

    /// The name for display: its first eight bytes, or all of it, and three dots.
    pub fn display(&self) -> (r: String)
        requires
            shortens(self@),
        ensures
            r@ == shortened(self@) + "..."@,
    {
        let mut out: String = short_text(self.0.as_str()).to_owned();
        out.append("...");
        out
    }

    /// Whether both are the same node.
    pub fn same(&self, other: &NodeId) -> (r: bool)
        ensures
            r == (self@ == other@),
    {
        same_text(self.0.as_str(), other.0.as_str())
    }
}

/// Nodes with different public keys have different names.
pub proof fn law_keys_name_nodes(a: Seq<u8>, b: Seq<u8>)
    requires
        a != b,
    ensures
        hex_text(a) != hex_text(b),
{
    if hex_text(a) == hex_text(b) {
        lemma_hex_injective(a, b);
    }
}

/// A list of names holds each name of the set, and as many names as the set has.
pub proof fn law_listed_names_are_all_of_them(list: Seq<NodeId>, names: Set<Seq<char>>, k: Seq<char>)
    requires
        lists_names(list, names),
    ensures
        names.contains(k) <==> exists|i: int| 0 <= i < list.len() && (#[trigger] list[i])@ == k,
        list.len() == names.len(),
        names.finite(),
{
    let texts = list.map_values(|n: NodeId| n@);
    assert forall|i: int, j: int|
        0 <= i < texts.len() && 0 <= j < texts.len() && i != j implies texts[i] != texts[j] by {
        if i < j {
            assert(list[i]@ != list[j]@);
        } else {
            assert(list[j]@ != list[i]@);
        }
    }
    assert(texts.to_set() =~= names) by {
        assert forall|n: Seq<char>| texts.to_set().contains(n) <==> names.contains(n) by {
            if texts.to_set().contains(n) {
                let i: int = choose|i: int| 0 <= i < texts.len() && texts[i] == n;
                assert(names.contains(list[i]@));
            }
            if names.contains(n) {
                let i: int = choose|i: int| 0 <= i < list.len() && (#[trigger] list[i])@ == n;
                assert(texts[i] == n);
            }
        }
    }
    texts.unique_seq_to_set();
    seq_to_set_is_finite(texts);
}

/// What is shown of a name is its first eight bytes, or all of it where it is shorter.
pub proof fn law_shown_name_is_its_front(s: Seq<char>)
    requires
        shortens(s),
    ensures
        encode_utf8(shortened(s)).is_prefix_of(encode_utf8(s)),
        encode_utf8(s).len() >= 8 ==> encode_utf8(shortened(s)).len() == 8,
        encode_utf8(s).len() < 8 ==> shortened(s) == s,
{
    let b = encode_utf8(s);
    let n = short_end(s);
    encode_utf8_valid_utf8(s);
    valid_utf8_split(b, n);
    assert(b.subrange(0, n) =~= b.take(n));
    encode_utf8_decode_utf8(s);
    decode_utf8_encode_utf8(b.take(n));
    if b.len() < 8 {
        assert(b.take(n) =~= b);
    }
}

/// A text can be cut for display wherever it has fewer than eight bytes, and wherever all
/// its characters are ASCII.
pub proof fn law_ascii_names_can_be_shown(s: Seq<char>)
    ensures
        is_ascii_chars(s) ==> shortens(s),
        encode_utf8(s).len() < 8 ==> shortens(s),
{
    encode_utf8_valid_utf8(s);
    let b = encode_utf8(s);
    is_char_boundary_start_end_of_seq(b);
    if is_ascii_chars(s) && b.len() > 8 {
        is_ascii_chars_encode_utf8(s);
        is_char_boundary_iff_not_is_continuation_byte(b, 8);
        assert(s[8] as u8 == b[8]);
    }
}

} // verus!
