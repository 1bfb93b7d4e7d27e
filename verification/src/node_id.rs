//! Node identifiers: the compressed public keys by which nodes of the network are known.

use std::str::FromStr;
use vstd::prelude::*;

verus! {

/// The number of bytes of a node identifier.
pub const NODE_ID_LEN: usize = 33;

/// A node's compressed public key. The bytes are not checked to describe a point on the curve.
#[derive(Clone, Copy, Debug, Hash, PartialEq, Eq)]
pub struct NodeId {
    /// The bytes of the key.
    pub bytes: [u8; 33],
}

impl View for NodeId {
    type V = Seq<u8>;

    open spec fn view(&self) -> Seq<u8> {
        self.bytes@
    }
}

impl NodeId {
    /// Whether both identifiers hold the same bytes.
    pub fn same_as(&self, other: &NodeId) -> (same: bool)
        ensures
            same == (self@ == other@),
    {
        let mut i: usize = 0;
        while i < NODE_ID_LEN
            invariant
                i <= 33,
                forall|j: int| 0 <= j < i ==> self.bytes@[j] == other.bytes@[j],
            decreases 33 - i,
        {
            if self.bytes[i] != other.bytes[i] {
                return false;
            }
            i = i + 1;
        }
        assert(self@ == other@);
        true
    }
}

/// Whether `c` is a hexadecimal digit, of either case.
pub open spec fn is_hex_digit(c: char) -> bool {
    ||| '0' <= c <= '9'
    ||| 'a' <= c <= 'f'
    ||| 'A' <= c <= 'F'
}

/// The value of a hexadecimal digit.
pub open spec fn hex_value(c: char) -> int {
    if c <= '9' {
        c as int - '0' as int
    } else if c <= 'F' {
        c as int - 'A' as int + 10
    } else {
        c as int - 'a' as int + 10
    }
}

/// The node identifier that `text` writes in hexadecimal, two digits for each byte.
pub open spec fn node_id_of(text: Seq<char>) -> Option<Seq<u8>> {
    if text.len() == 2 * NODE_ID_LEN && (forall|i: int|
        0 <= i < text.len() ==> is_hex_digit(#[trigger] text[i])) {
        Some(
            Seq::new(
                NODE_ID_LEN as nat,
                |i: int| (16 * hex_value(text[2 * i]) + hex_value(text[2 * i + 1])) as u8,
            ),
        )
    } else {
        None
    }
}

/// The lower-case hexadecimal digit of a value below sixteen.
pub open spec fn hex_digit(value: int) -> char {
    if value < 10 {
        ('0' as int + value) as char
    } else {
        ('a' as int + value - 10) as char
    }
}

/// The text that writes bytes in hexadecimal, two digits for each byte.
pub open spec fn hex_of(bytes: Seq<u8>) -> Seq<char> {
    Seq::new(
        2 * bytes.len(),
        |i: int|
            hex_digit(
                if i % 2 == 0 {
                    bytes[i / 2] as int / 16
                } else {
                    bytes[i / 2] as int % 16
                },
            ),
    )
}

/// Each byte of a node identifier is written as two hexadecimal digits of either case, the higher half
/// first. Text of another length, or with any other character, is none.
pub proof fn law_two_digits_make_a_byte(text: Seq<char>, i: int)
    requires
        0 <= i < 33,
    ensures
        match node_id_of(text) {
            Some(bytes) => {
                let (high, low) = (text[2 * i], text[2 * i + 1]);
                let high_half = if high <= '9' {
                    high as int - 48
                } else if high <= 'F' {
                    high as int - 55
                } else {
                    high as int - 87
                };
                let low_half = if low <= '9' {
                    low as int - 48
                } else if low <= 'F' {
                    low as int - 55
                } else {
                    low as int - 87
                };
                &&& text.len() == 66
                &&& bytes.len() == 33
                &&& '0' <= high <= '9' || 'A' <= high <= 'F' || 'a' <= high <= 'f'
                &&& '0' <= low <= '9' || 'A' <= low <= 'F' || 'a' <= low <= 'f'
                &&& bytes[i] == 16 * high_half + low_half
            },
            None => text.len() != 66 || exists|k: int|
                0 <= k < 66 && !('0' <= #[trigger] text[k] <= '9' || 'A' <= text[k] <= 'F' || 'a'
                    <= text[k] <= 'f'),
        },
{
    if text.len() == 66 {
        if node_id_of(text) is Some {
            assert(is_hex_digit(text[2 * i]) && is_hex_digit(text[2 * i + 1]));
        } else {
            let k = choose|k: int| 0 <= k < text.len() && !is_hex_digit(#[trigger] text[k]);
            assert(!is_hex_digit(text[k]));
        }
    }
}

/// A node identifier is read back from its hexadecimal text.
pub proof fn law_node_id_is_read_back(bytes: Seq<u8>)
    requires
        bytes.len() == NODE_ID_LEN,
    ensures
        node_id_of(hex_of(bytes)) == Some(bytes),
{
    let text = hex_of(bytes);
    assert forall|i: int| 0 <= i < bytes.len() implies (16 * hex_value(text[2 * i]) + hex_value(
        text[2 * i + 1],
    )) as u8 == #[trigger] bytes[i] by {
        assert((2 * i) / 2 == i && (2 * i + 1) / 2 == i);
    }
    assert(node_id_of(text)->0 =~= bytes);
}

/// Reads a node identifier, through the `FromStr` of `lightning::routing::gossip::NodeId`.
///
/// Trusted: that function accepts exactly the texts of 66 hexadecimal digits, of either case, and
/// the bytes it gives are those that the pairs of digits denote, the higher half first.
#[verifier::external_body]
pub(crate) fn parse_node_id(text: &str) -> (id: Option<NodeId>)
    ensures
        match id {
            Some(node) => node_id_of(text@) == Some(node@),
            None => node_id_of(text@) is None,
        },
{
    let id = lightning::routing::gossip::NodeId::from_str(text);
    id.ok().map(|node| NodeId { bytes: *node.as_array() })
}

} // verus!
