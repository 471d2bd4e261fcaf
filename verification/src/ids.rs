//! Identifiers, lowercase hex text and SHA-256 digests.
use vstd::prelude::*;

use sha2::Digest;

verus! {

/// A 16-byte command or operation identifier.
#[derive(Clone, Copy, Debug, PartialEq, Eq, Hash)]
pub struct CommandId {
    bytes: [u8; 16],
}

impl CommandId {
    /// The identifier's bytes.
    pub closed spec fn bytes_of(self) -> Seq<u8> {
        self.bytes@
    }

    /// The identifier made of these bytes.
    pub fn from_bytes(bytes: [u8; 16]) -> (id: Self)
        ensures
            id.bytes_of() == bytes@,
    {
        CommandId { bytes }
    }

    /// The identifier's bytes.
    pub fn into_bytes(self) -> (bytes: [u8; 16])
        ensures
            bytes@ == self.bytes_of(),
    {
        self.bytes
    }
}

/// Two identifiers with the same bytes are the same identifier.
pub proof fn lemma_command_id_bytes(a: CommandId, b: CommandId)
    ensures
        a.bytes_of() == b.bytes_of() <==> a == b,
{
    if a.bytes_of() == b.bytes_of() {
        assert(a.bytes@ =~= b.bytes@);
        assert(a.bytes == b.bytes);
    }
}

impl CommandId {
    /// Whether two identifiers are the same.
    pub fn same(&self, other: &Self) -> (same: bool)
        ensures
            same == (*self == *other),
    {
        let mut i: usize = 0;
        while i < 16
            invariant
                i <= 16,
                forall|j: int| 0 <= j < i ==> self.bytes@[j] == other.bytes@[j],
            decreases 16 - i,
        {
            if self.bytes[i] != other.bytes[i] {
                return false;
            }
            i = i + 1;
        }
        proof {
            lemma_command_id_bytes(*self, *other);
            assert(self.bytes@ =~= other.bytes@);
        }
        true
    }
}

/// The lowercase hexadecimal digits.
pub open spec fn hex_digits() -> Seq<char> {
    seq!['0', '1', '2', '3', '4', '5', '6', '7', '8', '9', 'a', 'b', 'c', 'd', 'e', 'f']
}

/// The lowercase hexadecimal digits, for executable code.
pub const HEX_DIGITS: [char; 16] = ['0', '1', '2', '3', '4', '5', '6', '7', '8', '9', 'a', 'b', 'c', 'd', 'e', 'f'];

/// Lowercase hex text of bytes: two digits per byte, high nibble first.
pub open spec fn hex_text(b: Seq<u8>) -> Seq<char> {
    Seq::new(
        2 * b.len(),
        |i: int|
            if i % 2 == 0 {
                hex_digits()[(b[i / 2] / 16) as int]
            } else {
                hex_digits()[(b[i / 2] % 16) as int]
            },
    )
}

/// The value of a lowercase hex digit.
pub open spec fn hex_value(c: char) -> int {
    if (c as int) <= ('9' as int) {
        (c as int) - ('0' as int)
    } else {
        (c as int) - ('a' as int) + 10
    }
}

/// Each hex digit reads back as its value, so no digit stands for two.
proof fn lemma_hex_digit_injective(x: int, y: int)
    requires
        0 <= x < 16,
        0 <= y < 16,
        hex_digits()[x] == hex_digits()[y],
    ensures
        x == y,
{
    let d = hex_digits();
    assert(hex_value(d[x]) == x);
    assert(hex_value(d[y]) == y);
}

/// Hex text determines the bytes it was written from.
pub proof fn lemma_hex_text_injective(a: Seq<u8>, b: Seq<u8>)
    requires
        hex_text(a) == hex_text(b),
    ensures
        a == b,
{
    assert(hex_text(a).len() == 2 * a.len());
    assert(hex_text(b).len() == 2 * b.len());
    assert(a.len() == b.len());
    assert forall|i: int| 0 <= i < a.len() implies a[i] == b[i] by {
        assert(hex_text(a)[2 * i] == hex_text(b)[2 * i]);
        assert(hex_text(a)[2 * i + 1] == hex_text(b)[2 * i + 1]);
        assert((2 * i) / 2 == i && (2 * i) % 2 == 0);
        assert((2 * i + 1) / 2 == i && (2 * i + 1) % 2 == 1);
        assert(hex_text(a)[2 * i] == hex_digits()[(a[i] / 16) as int]);
        assert(hex_text(b)[2 * i] == hex_digits()[(b[i] / 16) as int]);
        assert(hex_text(a)[2 * i + 1] == hex_digits()[(a[i] % 16) as int]);
        assert(hex_text(b)[2 * i + 1] == hex_digits()[(b[i] % 16) as int]);
        lemma_hex_digit_injective((a[i] / 16) as int, (b[i] / 16) as int);
        lemma_hex_digit_injective((a[i] % 16) as int, (b[i] % 16) as int);
    }
    assert(a =~= b);
}

/// The value of a character if it is a lowercase hex digit.
fn hex_digit_value(c: char) -> (value: Option<u8>)
    ensures
        match value {
            Some(v) => v < 16 && hex_digits()[v as int] == c,
            None => forall|x: int| 0 <= x < 16 ==> hex_digits()[x] != c,
        },
{
    let ghost d = hex_digits();
    if '0' <= c && c <= '9' {
        let v = (c as u32 - '0' as u32) as u8;
        assert(d[v as int] == c);
        Some(v)
    } else if 'a' <= c && c <= 'f' {
        let v = (c as u32 - 'a' as u32 + 10) as u8;
        assert(d[v as int] == c);
        Some(v)
    } else {
        assert forall|x: int| 0 <= x < 16 implies d[x] != c by {
            assert(hex_value(d[x]) == x);
        }
        None
    }
}

/// Reads an identifier back from its lowercase hex text: the identifier
/// whose hex text the text is, if there is one.
pub fn parse_hex_id(text: &str) -> (id: Option<CommandId>)
    ensures
        match id {
            Some(i) => text@ == hex_text(i.bytes_of()),
            None => forall|i: CommandId| text@ != #[trigger] hex_text(i.bytes_of()),
        },
{
    let chars = crate::text::chars_of(text);
    if chars.len() != 32 {
        proof {
            assert forall|i: CommandId| text@ != #[trigger] hex_text(i.bytes_of()) by {
                assert(i.bytes@.len() == 16);
                assert(hex_text(i.bytes_of()).len() == 32);
            }
        }
        return None;
    }
    let mut bytes = [0u8; 16];
    let mut k: usize = 0;
    while k < 16
        invariant
            chars@ == text@,
            chars@.len() == 32,
            k <= 16,
            bytes@.len() == 16,
            forall|j: int| 0 <= j < k ==> hex_digits()[(bytes@[j] / 16) as int] == chars@[2 * j] && hex_digits()[(
                bytes@[j] % 16) as int] == chars@[2 * j + 1],
        decreases 16 - k,
    {
        let high = hex_digit_value(chars[2 * k]);
        let low = hex_digit_value(chars[2 * k + 1]);
        match (high, low) {
            (Some(h), Some(l)) => {
                let b: u8 = h * 16 + l;
                assert(b / 16 == h && b % 16 == l);
                bytes[k] = b;
            },
            _ => {
                proof {
                    assert forall|i: CommandId| text@ != #[trigger] hex_text(i.bytes_of()) by {
                        let s = i.bytes_of();
                        assert(i.bytes@.len() == 16);
                        let ht = hex_text(s);
                        if text@ == ht {
                            assert(ht[2 * k as int] == hex_digits()[(s[k as int] / 16) as int]);
                            assert(ht[2 * k + 1] == hex_digits()[(s[k as int] % 16) as int]);
                        }
                    }
                }
                return None;
            },
        }
        k = k + 1;
    }
    let id = CommandId::from_bytes(bytes);
    assert(text@ =~= hex_text(id.bytes_of())) by {
        let ht = hex_text(bytes@);
        assert forall|m: int| 0 <= m < 32 implies text@[m] == ht[m] by {
            let j = m / 2;
            if m % 2 == 0 {
                assert(m == 2 * j);
            } else {
                assert(m == 2 * j + 1);
            }
        }
    }
    Some(id)
}

/// Lowercase hex text of bytes, as characters.
pub fn hex_chars(bytes: &[u8]) -> (text: Vec<char>)
    ensures
        text@ == hex_text(bytes@),
{
    assert(HEX_DIGITS@ == hex_digits());
    let mut text: Vec<char> = Vec::new();
    let mut i: usize = 0;
    while i < bytes.len()
        invariant
            HEX_DIGITS@ == hex_digits(),
            i <= bytes@.len(),
            text@.len() == 2 * i,
            forall|k: int| 0 <= k < 2 * i ==> text@[k] == #[trigger] hex_text(bytes@)[k],
        decreases bytes.len() - i,
    {
        let b = bytes[i];
        text.push(HEX_DIGITS[(b / 16) as usize]);
        text.push(HEX_DIGITS[(b % 16) as usize]);
        assert(hex_text(bytes@)[2 * i as int] == hex_digits()[(b / 16) as int]);
        assert(hex_text(bytes@)[2 * i + 1] == hex_digits()[(b % 16) as int]);
        i = i + 1;
    }
    assert(text@ =~= hex_text(bytes@));
    text
}

/// Lowercase hex text of bytes.
pub fn hex(bytes: &[u8]) -> (text: String)
    ensures
        text@ == hex_text(bytes@),
{
    crate::text::string_of(&hex_chars(bytes))
}

/// Names the SHA-256 digest of a byte sequence.
pub uninterp spec fn sha256_of(data: Seq<u8>) -> Seq<u8>;

/// SHA-256 of the bytes (`sha2::Sha256::digest`, which feeds all the bytes to
/// a fresh hasher and finalizes it); the result is the named digest of the
/// bytes, 32 bytes long.
#[verifier::external_body]
pub fn sha256(data: &[u8]) -> (digest: Vec<u8>)
    ensures
        digest@ == sha256_of(data@),
        digest@.len() == 32,
{
    sha2::Sha256::digest(data).to_vec()
}

/// The first sixteen bytes of a sequence, as an array.
pub fn first_sixteen(d: &Vec<u8>) -> (out: [u8; 16])
    requires
        d@.len() >= 16,
    ensures
        out@ == d@.subrange(0, 16),
{
    let mut out = [0u8; 16];
    let mut i: usize = 0;
    while i < 16
        invariant
            d@.len() >= 16,
            i <= 16,
            out@.len() == 16,
            forall|j: int| 0 <= j < i ==> out@[j] == d@[j],
        decreases 16 - i,
    {
        out[i] = d[i];
        i = i + 1;
    }
    assert(out@ =~= d@.subrange(0, 16));
    out
}

/// The bytes of `a` followed by those of `b`.
pub fn concat_bytes(a: &[u8], b: &[u8]) -> (c: Vec<u8>)
    ensures
        c@ == a@ + b@,
{
    let mut c: Vec<u8> = Vec::new();
    let mut i: usize = 0;
    while i < a.len()
        invariant
            i <= a@.len(),
            c@ == a@.subrange(0, i as int),
        decreases a.len() - i,
    {
        c.push(a[i]);
        assert(a@.subrange(0, i + 1) == a@.subrange(0, i as int).push(a@[i as int]));
        i = i + 1;
    }
    let mut j: usize = 0;
    while j < b.len()
        invariant
            j <= b@.len(),
            c@ == a@ + b@.subrange(0, j as int),
        decreases b.len() - j,
    {
        c.push(b[j]);
        assert(b@.subrange(0, j + 1) == b@.subrange(0, j as int).push(b@[j as int]));
        j = j + 1;
    }
    assert(a@.subrange(0, a@.len() as int) == a@);
    assert(b@.subrange(0, b@.len() as int) == b@);
    c
}

} // verus!
