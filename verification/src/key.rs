//! Four-byte sensor identifiers and their exchange with `four_char_code`.

use vstd::prelude::*;
use vstd::string::StringSliceAdditionalSpecFns;
use vstd::utf8::{decode_utf8, encode_utf8, is_ascii_chars, valid_utf8};

verus! {

/// `four_char_code::FourCharCode`, carried through as an opaque value.
#[verifier::external_type_specification]
#[verifier::external_body]
pub struct ExFourCharCode(four_char_code::FourCharCode);

/// The 32-bit number stored in the public field of a `FourCharCode`.
pub uninterp spec fn code_value(code: four_char_code::FourCharCode) -> u32;

/// Reads the public field of a `FourCharCode`: the stored number, as it is,
/// without the normalisation that the crate's `to_u32` applies.
#[verifier::external_body]
fn code_to_u32(code: four_char_code::FourCharCode) -> (value: u32)
    ensures
        value == code_value(code),
{
    code.0
}

/// Builds a `FourCharCode` with the tuple constructor, which stores the
/// number unchanged in the public field.
#[verifier::external_body]
fn code_from_u32(value: u32) -> (code: four_char_code::FourCharCode)
    ensures
        code_value(code) == value,
{
    four_char_code::FourCharCode(value)
}

/// The text that `String::from_utf8_lossy` makes of a byte sequence.
pub uninterp spec fn utf8_lossy(bytes: Seq<u8>) -> Seq<char>;

/// `String::from_utf8_lossy`, with the result as an owned string: the text
/// of the bytes, in which every sequence that is not valid UTF-8 is
/// replaced by U+FFFD. Bytes that are valid UTF-8 come out as the text that
/// they encode.
#[verifier::external_body]
fn lossy_text(bytes: &[u8]) -> (text: String)
    ensures
        text@ == utf8_lossy(bytes@),
        valid_utf8(bytes@) ==> text@ == decode_utf8(bytes@),
{
    String::from_utf8_lossy(bytes).into_owned()
}

/// A sensor identifier: four bytes packed big-endian into one number, so
/// that keys are equal when their bytes are and come in the order of their
/// bytes.
#[derive(Clone, Copy, Debug, PartialEq, Eq, Structural, PartialOrd, Ord, Hash)]
pub struct SensorKey {
    pub packed: u32,
}

/// The number that four bytes make when packed big-endian.
pub open spec fn pack_bytes(b0: u8, b1: u8, b2: u8, b3: u8) -> int {
    b0 as int * 0x100_0000 + b1 as int * 0x1_0000 + b2 as int * 0x100 + b3 as int
}

/// Byte `i` (0 is the first, most significant) of a packed identifier.
pub open spec fn byte_of(packed: u32, i: int) -> u8 {
    if i == 0 {
        (packed as int / 0x100_0000) as u8
    } else if i == 1 {
        (packed as int / 0x1_0000 % 0x100) as u8
    } else if i == 2 {
        (packed as int / 0x100 % 0x100) as u8
    } else {
        (packed as int % 0x100) as u8
    }
}

/// Packing four bytes and taking them out again gives the same bytes.
pub proof fn lemma_bytes_of_packed(b0: u8, b1: u8, b2: u8, b3: u8)
    ensures
        0 <= pack_bytes(b0, b1, b2, b3) <= u32::MAX,
        byte_of(pack_bytes(b0, b1, b2, b3) as u32, 0) == b0,
        byte_of(pack_bytes(b0, b1, b2, b3) as u32, 1) == b1,
        byte_of(pack_bytes(b0, b1, b2, b3) as u32, 2) == b2,
        byte_of(pack_bytes(b0, b1, b2, b3) as u32, 3) == b3,
{
    let p: int = pack_bytes(b0, b1, b2, b3);
    let hi: int = b0 as int * 0x100 + b1 as int;
    let mid: int = hi * 0x100 + b2 as int;
    assert(p == mid * 0x100 + b3 as int);
    assert(p % 0x100 == b3 as int);
    assert(p / 0x100 == mid);
    assert(mid % 0x100 == b2 as int);
    assert(mid / 0x100 == hi);
    assert(p / 0x1_0000 == hi);
    assert(hi % 0x100 == b1 as int);
    assert(hi / 0x100 == b0 as int);
    assert(p / 0x100_0000 == b0 as int);
}

/// The first four-byte sequence comes before the second, byte by byte.
pub open spec fn bytes_before(a: Seq<u8>, b: Seq<u8>) -> bool {
    ||| a[0] < b[0]
    ||| a[0] == b[0] && a[1] < b[1]
    ||| a[0] == b[0] && a[1] == b[1] && a[2] < b[2]
    ||| a[0] == b[0] && a[1] == b[1] && a[2] == b[2] && a[3] < b[3]
}

/// A packed identifier is made of its four bytes.
pub proof fn lemma_packed_of_bytes(packed: u32)
    ensures
        packed == pack_bytes(
            byte_of(packed, 0),
            byte_of(packed, 1),
            byte_of(packed, 2),
            byte_of(packed, 3),
        ),
{
    let p: int = packed as int;
    let mid: int = p / 0x100;
    let hi: int = mid / 0x100;
    assert(p == mid * 0x100 + p % 0x100);
    assert(mid == hi * 0x100 + mid % 0x100);
    assert(hi == (hi / 0x100) * 0x100 + hi % 0x100);
    assert(p / 0x1_0000 == hi);
    assert(p / 0x100_0000 == hi / 0x100);
    assert(hi / 0x100 < 0x100);
}

/// Keys are equal exactly when their bytes are, and the order of the
/// packed numbers is the order of the bytes.
pub proof fn lemma_keys_compare_by_bytes(a: SensorKey, b: SensorKey)
    ensures
        a == b <==> a.bytes() == b.bytes(),
        a.packed < b.packed <==> bytes_before(a.bytes(), b.bytes()),
{
    lemma_packed_of_bytes(a.packed);
    lemma_packed_of_bytes(b.packed);
    if a.bytes() == b.bytes() {
        assert(a.bytes()[0] == b.bytes()[0]);
        assert(a.bytes()[1] == b.bytes()[1]);
        assert(a.bytes()[2] == b.bytes()[2]);
        assert(a.bytes()[3] == b.bytes()[3]);
    }
}

/// Bytes that are all ASCII are valid UTF-8 and encode their own
/// characters.
pub proof fn lemma_ascii_decodes(bytes: Seq<u8>)
    requires
        forall|i: int| 0 <= i < bytes.len() ==> #[trigger] bytes[i] < 0x80,
    ensures
        valid_utf8(bytes),
        decode_utf8(bytes) == Seq::new(bytes.len(), |i: int| bytes[i] as char),
{
    let chars = Seq::new(bytes.len(), |i: int| bytes[i] as char);
    assert(is_ascii_chars(chars)) by {
        assert forall|i: int| 0 <= i < chars.len() implies '\0' <= #[trigger] chars[i]
            <= '\u{7f}' by {
            assert(bytes[i] < 0x80);
        }
    }
    vstd::utf8::is_ascii_chars_encode_utf8(chars);
    assert(encode_utf8(chars) =~= bytes) by {
        assert forall|i: int| 0 <= i < bytes.len() implies encode_utf8(chars)[i] == bytes[i] by {
            assert(chars[i] as u8 == encode_utf8(chars)[i]);
            assert(bytes[i] < 0x80);
        }
    }
    vstd::utf8::encode_utf8_valid_utf8(chars);
    vstd::utf8::encode_utf8_decode_utf8(chars);
}

impl SensorKey {
    /// The four bytes of the identifier, first byte first.
    pub open spec fn bytes(self) -> Seq<u8> {
        seq![
            byte_of(self.packed, 0),
            byte_of(self.packed, 1),
            byte_of(self.packed, 2),
            byte_of(self.packed, 3),
        ]
    }

    /// The key made of four bytes, first byte first.
    pub fn from_bytes(b0: u8, b1: u8, b2: u8, b3: u8) -> (key: SensorKey)
        ensures
            key.packed == pack_bytes(b0, b1, b2, b3),
            key.bytes() == seq![b0, b1, b2, b3],
    {
        let packed: u32 = b0 as u32 * 0x100_0000 + b1 as u32 * 0x1_0000 + b2 as u32 * 0x100
            + b3 as u32;
        let key = SensorKey { packed };
        proof {
            lemma_bytes_of_packed(b0, b1, b2, b3);
            assert(key.bytes() =~= seq![b0, b1, b2, b3]);
        }
        key
    }

    /// Byte `i` of the identifier.
    pub fn byte(&self, i: usize) -> (b: u8)
        requires
            i < 4,
        ensures
            b == self.bytes()[i as int],
    {
        if i == 0 {
            (self.packed / 0x100_0000) as u8
        } else if i == 1 {
            (self.packed / 0x1_0000 % 0x100) as u8
        } else if i == 2 {
            (self.packed / 0x100 % 0x100) as u8
        } else {
            (self.packed % 0x100) as u8
        }
    }

    /// This key comes before `other` in the order of their bytes.
    pub fn precedes(&self, other: &SensorKey) -> (before: bool)
        ensures
            before == bytes_before(self.bytes(), other.bytes()),
    {
        proof {
            lemma_keys_compare_by_bytes(*self, *other);
        }
        self.packed < other.packed
    }

    /// Every byte of the identifier is an ASCII character.
    pub open spec fn is_ascii(self) -> bool {
        forall|i: int| 0 <= i < 4 ==> #[trigger] self.bytes()[i] < 0x80
    }

    /// The bytes of the identifier as characters, one for one.
    pub open spec fn chars(self) -> Seq<char> {
        Seq::new(4, |i: int| self.bytes()[i] as char)
    }

    /// The key made of the first four bytes of `text`.
    pub fn from_text(text: &str) -> (key: SensorKey)
        requires
            text.spec_bytes().len() >= 4,
        ensures
            key.bytes() == text.spec_bytes().take(4),
    {
        let bytes = text.as_bytes();
        let key = SensorKey::from_bytes(bytes[0], bytes[1], bytes[2], bytes[3]);
        assert(key.bytes() =~= text.spec_bytes().take(4));
        key
    }

    /// The identifier as text: its four characters where the bytes are
    /// ASCII; in general the lossy UTF-8 reading of the four bytes.
    pub fn label(&self) -> (text: String)
        ensures
            text@ == utf8_lossy(self.bytes()),
            valid_utf8(self.bytes()) ==> text@ == decode_utf8(self.bytes()),
            self.is_ascii() ==> text@ == self.chars(),
    {
        let bytes: Vec<u8> = vec![self.byte(0), self.byte(1), self.byte(2), self.byte(3)];
        assert(bytes@ =~= self.bytes());
        proof {
            if self.is_ascii() {
                lemma_ascii_decodes(self.bytes());
                assert(self.chars() =~= Seq::new(
                    self.bytes().len(),
                    |i: int| self.bytes()[i] as char,
                ));
            }
        }
        lossy_text(bytes.as_slice())
    }

    /// The key that a `FourCharCode` stores.
    pub fn from_code(code: four_char_code::FourCharCode) -> (key: SensorKey)
        ensures
            key == key_of(code),
    {
        SensorKey { packed: code_to_u32(code) }
    }

    /// The `FourCharCode` that stores this key.
    pub fn to_code(&self) -> (code: four_char_code::FourCharCode)
        ensures
            key_of(code) == *self,
    {
        code_from_u32(self.packed)
    }
}

/// The key that a code stores.
pub open spec fn key_of(code: four_char_code::FourCharCode) -> SensorKey {
    SensorKey { packed: code_value(code) }
}

/// The text of the key that a code stores: its four characters where the
/// bytes are ASCII; in general the lossy UTF-8 reading of the four bytes.
pub fn key_to_string(code: four_char_code::FourCharCode) -> (text: String)
    ensures
        text@ == utf8_lossy(key_of(code).bytes()),
        valid_utf8(key_of(code).bytes()) ==> text@ == decode_utf8(key_of(code).bytes()),
        key_of(code).is_ascii() ==> text@ == key_of(code).chars(),
{
    SensorKey::from_code(code).label()
}

/// The code made of the first four bytes of `text`, packed big-endian.
pub fn string_to_key(text: &str) -> (code: four_char_code::FourCharCode)
    requires
        text.spec_bytes().len() >= 4,
    ensures
        key_of(code).bytes() == text.spec_bytes().take(4),
{
    SensorKey::from_text(text).to_code()
}

} // verus!
