//! The fields that packet payloads are made of: big-endian integers,
//! length-prefixed strings and 128-bit identifiers.

use crate::utils::{decode_varint, read_varint};
use uuid::Uuid;
use vstd::prelude::*;
use vstd::utf8::{decode_utf8, valid_utf8};

verus! {

/// The number that `bytes` spell in base 256, most significant byte first.
pub open spec fn be_value(bytes: Seq<u8>) -> nat
    decreases bytes.len(),
{
    if bytes.len() == 0 {
        0
    } else {
        256 * be_value(bytes.drop_last()) + bytes.last() as nat
    }
}

/// The text that `String::from_utf8_lossy` makes of bytes that are not valid
/// UTF-8.
pub uninterp spec fn replaced_text(bytes: Seq<u8>) -> Seq<char>;

/// The text of a string field: what the bytes encode where they are valid
/// UTF-8, and otherwise what lossy decoding makes of them.
pub open spec fn lossy_text(bytes: Seq<u8>) -> Seq<char> {
    if valid_utf8(bytes) {
        decode_utf8(bytes)
    } else {
        replaced_text(bytes)
    }
}

/// `String::from_utf8_lossy`: the bytes as text, each invalid sequence
/// replaced by U+FFFD. Bytes that are valid UTF-8 give the very text that
/// they encode; of other bytes the contract only names the result.
#[verifier::external_body]
pub(crate) fn text_of(bytes: &[u8]) -> (text: String)
    ensures
        valid_utf8(bytes@) ==> text@ == decode_utf8(bytes@),
        !valid_utf8(bytes@) ==> text@ == replaced_text(bytes@),
{
    String::from_utf8_lossy(bytes).into_owned()
}

/// `Uuid::from_slice` followed by `Uuid::as_u128`: sixteen bytes packed
/// into one number, the first byte in the highest place. Any other length
/// is refused by `from_slice` and gives `None`.
#[verifier::external_body]
pub(crate) fn uuid_of(bytes: &[u8]) -> (id: Option<u128>)
    ensures
        bytes@.len() == 16 ==> id == Some(be_value(bytes@) as u128),
        bytes@.len() != 16 ==> id is None,
{
    match Uuid::from_slice(bytes) {
        Ok(uuid) => Some(uuid.as_u128()),
        Err(_) => None,
    }
}

/// A varint byte count followed by that many bytes, at the front of
/// `bytes`: the counted bytes, and how many bytes the field takes in all.
/// `None` when the count cannot be read or promises more than is there.
pub open spec fn string_field(bytes: Seq<u8>) -> Option<(Seq<u8>, nat)> {
    match decode_varint(bytes) {
        Ok((len, taken)) => if taken + len <= bytes.len() {
            Some((bytes.subrange(taken as int, taken + len), (taken + len) as nat))
        } else {
            None
        },
        Err(_) => None,
    }
}

/// Reads a length-prefixed string off the front of `data`. The length
/// counts bytes, not characters, and the bytes are taken as UTF-8.
pub fn read_string(data: &[u8]) -> (field: Option<(String, usize)>)
    ensures
        match string_field(data@) {
            Some((bytes, taken)) => field matches Some((text, n)) && n == taken && text@
                == lossy_text(bytes),
            None => field is None,
        },
{
    match read_varint(data) {
        Ok((len, taken)) => {
            let len: usize = len as usize;
            if len <= data.len() - taken {
                let text = text_of(&data[taken..taken + len]);
                Some((text, taken + len))
            } else {
                None
            }
        },
        Err(_) => None,
    }
}

/// Two bytes as a 16-bit number, most significant byte first.
pub fn read_u16(high: u8, low: u8) -> (value: u16)
    ensures
        value == be_value(seq![high, low]),
{
    proof {
        reveal_with_fuel(be_value, 3);
        assert(seq![high, low].drop_last() =~= seq![high]);
        assert(seq![high].drop_last() =~= Seq::<u8>::empty());
    }
    (high as u16) * 256 + low as u16
}

} // verus!
