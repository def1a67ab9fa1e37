//! Identifier shortening: hex encoding, truncation, and bracketed
//! highlighting of the shortest unique prefix.

use vstd::prelude::*;
use vstd::string::StrSliceExecFns;
use vstd::string::StringExecFns;
use crate::repo::PrefixIndex;
use crate::repo::clone_bytes;
use crate::repo::prefix_lookup;

verus! {

/// The lowercase hex digit of a nibble.
pub open spec fn hex_digit(n: u8) -> char {
    if n == 0 {
        '0'
    } else if n == 1 {
        '1'
    } else if n == 2 {
        '2'
    } else if n == 3 {
        '3'
    } else if n == 4 {
        '4'
    } else if n == 5 {
        '5'
    } else if n == 6 {
        '6'
    } else if n == 7 {
        '7'
    } else if n == 8 {
        '8'
    } else if n == 9 {
        '9'
    } else if n == 10 {
        'a'
    } else if n == 11 {
        'b'
    } else if n == 12 {
        'c'
    } else if n == 13 {
        'd'
    } else if n == 14 {
        'e'
    } else {
        'f'
    }
}

/// The lowercase hex encoding: two digits per byte, high nibble first.
pub open spec fn hex_seq(bytes: Seq<u8>) -> Seq<char>
    decreases bytes.len(),
{
    if bytes.len() == 0 {
        Seq::empty()
    } else {
        seq![hex_digit(bytes[0] / 16), hex_digit(bytes[0] % 16)] + hex_seq(
            bytes.subrange(1, bytes.len() as int),
        )
    }
}

/// `hex` truncated to at most `total_len` characters.
pub open spec fn truncated(hex: Seq<char>, total_len: int) -> Seq<char> {
    if hex.len() <= total_len {
        hex
    } else {
        hex.take(total_len)
    }
}

/// The bracketed-highlight form: when the reported unique prefix is shorter
/// than `total_len - 2`, the prefix stays plain and the following segment up
/// to `total_len - 2` is bracketed, everything beyond dropped; otherwise the
/// plain truncation to `total_len`.
pub open spec fn highlighted(hex: Seq<char>, prefix_len: Option<usize>, total_len: int) -> Seq<
    char,
> {
    match prefix_len {
        Some(p) => if p < total_len - 2 && total_len - 2 <= hex.len() {
            hex.take(p as int) + "["@ + hex.subrange(p as int, total_len - 2) + "]"@
        } else {
            truncated(hex, total_len)
        },
        None => truncated(hex, total_len),
    }
}

/// Type-erased fixed-length commit or change identifier.
#[derive(Debug)]
pub struct CommitOrChangeId(Vec<u8>);

impl View for CommitOrChangeId {
    type V = Seq<u8>;

    closed spec fn view(&self) -> Seq<u8> {
        self.0@
    }
}

impl Clone for CommitOrChangeId {
    /// A clone holds the same bytes.
    fn clone(&self) -> (r: Self)
        ensures
            r@ == self@,
    {
        CommitOrChangeId(clone_bytes(&self.0))
    }
}

/// Relies on hex::encode: the lowercase hex encoding of the bytes, two
/// digits per byte, high nibble first.
#[verifier::external_body]
fn encode_hex(bytes: &Vec<u8>) -> (r: String)
    ensures
        r@ == hex_seq(bytes@),
{
    hex::encode(bytes)
}

impl CommitOrChangeId {
    /// Wraps the given identifier bytes.
    pub fn new(bytes: Vec<u8>) -> (r: Self)
        ensures
            r@ == bytes@,
    {
        CommitOrChangeId(bytes)
    }

    /// The wrapped bytes.
    pub fn as_bytes(&self) -> (r: &[u8])
        ensures
            r@ == self@,
    {
        self.0.as_slice()
    }

    /// The full lowercase hex encoding.
    pub fn hex(&self) -> (r: String)
        ensures
            r@ == hex_seq(self@),
    {
        encode_hex(&self.0)
    }

    /// The hex encoding truncated to at most twelve characters.
    pub fn short(&self) -> (r: String)
        ensures
            r@ == truncated(hex_seq(self@), 12),
    {
        let h = self.hex();
        let n = h.as_str().unicode_len();
        if n > 12 {
            String::from_str(h.as_str().substring_char(0, 12))
        } else {
            h
        }
    }

    /// The shortest-unique-prefix highlight of this identifier, twelve
    /// characters wide, against the reported prefix lengths.
    pub fn short_prefix_and_brackets(&self, index: &PrefixIndex) -> (r: String)
        ensures
            r@ == highlighted(hex_seq(self@), prefix_lookup(index.entries@, self@), 12),
    {
        highlight_shortest_prefix(self, 12, index)
    }
}

/// Renders `id` as its unique prefix plus the bracketed disambiguating
/// segment, falling back to the plain truncation when the prefix is not
/// reported, not short enough, or the encoding is too short to bracket.
fn highlight_shortest_prefix(id: &CommitOrChangeId, total_len: usize, index: &PrefixIndex) -> (r:
    String)
    requires
        2 <= total_len,
    ensures
        r@ == highlighted(hex_seq(id@), prefix_lookup(index.entries@, id@), total_len as int),
{
    let prefix_len = index.lookup(&id.0);
    let hex = id.hex();
    let n = hex.as_str().unicode_len();
    match prefix_len {
        Some(p) => {
            if p < total_len - 2 && total_len - 2 <= n {
                let mut r = String::from_str(hex.as_str().substring_char(0, p));
                r.append("[");
                r.append(hex.as_str().substring_char(p, total_len - 2));
                r.append("]");
                r
            } else {
                truncate_to(hex, total_len)
            }
        },
        None => truncate_to(hex, total_len),
    }
}

/// `hex` cut down to at most `total_len` characters.
fn truncate_to(hex: String, total_len: usize) -> (r: String)
    ensures
        r@ == truncated(hex@, total_len as int),
{
    let n = hex.as_str().unicode_len();
    if n > total_len {
        String::from_str(hex.as_str().substring_char(0, total_len))
    } else {
        hex
    }
}

} // verus!
