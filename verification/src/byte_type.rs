//! Classification of single bytes by their most significant bits.

use vstd::prelude::*;
use vstd::std_specs::bits::{axiom_u8_leading_ones, u8_leading_ones};
use vstd::std_specs::convert::FromSpecImpl;
use vstd::string::StringExecFns;
use vstd::utf8::{decode_utf8, encode_utf8_decode_utf8, valid_utf8};

use crate::internal::{
    decimal, decimal_of, hex, hex_of, indent_or_default, spaces, spaces_of, unwrap_indent,
};
use crate::pointer::get_valid_utf8_str_of;

verus! {

/// The category of one byte of UTF-8 text, with the byte itself.
#[derive(Clone, Copy, Debug, PartialEq, Eq)]
pub enum ByteType {
    /// No byte at all: the position lies outside the buffer.
    Absent,
    /// A byte below 127.
    Ascii(u8),
    /// A byte of 127 or more without a leading one-bit.
    One(u8),
    /// The leader of a two-byte sequence, `110xxxxx`.
    Two(u8),
    /// The leader of a three-byte sequence, `1110xxxx`.
    Three(u8),
    /// The leader of a sequence of four bytes or more, `1111xxxx`.
    FourOrMore(u8),
    /// A continuation byte, `10xxxxxx`.
    Continuation(u8),
}

/// The number of one-bits at the top of `byte`, before its first zero-bit.
pub open spec fn leading_ones(byte: u8) -> nat {
    if byte < 0x80 {
        0
    } else if byte < 0xC0 {
        1
    } else if byte < 0xE0 {
        2
    } else if byte < 0xF0 {
        3
    } else if byte < 0xF8 {
        4
    } else if byte < 0xFC {
        5
    } else if byte < 0xFE {
        6
    } else if byte < 0xFF {
        7
    } else {
        8
    }
}

/// The category of `byte`: a function of the byte alone.
pub open spec fn classify(byte: u8) -> ByteType {
    if byte < 127 {
        ByteType::Ascii(byte)
    } else if leading_ones(byte) == 0 {
        ByteType::One(byte)
    } else if leading_ones(byte) == 1 {
        ByteType::Continuation(byte)
    } else if leading_ones(byte) == 2 {
        ByteType::Two(byte)
    } else if leading_ones(byte) == 3 {
        ByteType::Three(byte)
    } else {
        ByteType::FourOrMore(byte)
    }
}

/// `leading_ones` counts what `u8::leading_ones` counts.
pub proof fn lemma_leading_ones_counts_bits(byte: u8)
    ensures
        u8_leading_ones(byte) == leading_ones(byte),
{
    axiom_u8_leading_ones(byte);
    let k = u8_leading_ones(byte);
    let b7 = (byte >> 7u8) & 1u8;
    let b6 = (byte >> 6u8) & 1u8;
    let b5 = (byte >> 5u8) & 1u8;
    let b4 = (byte >> 4u8) & 1u8;
    let b3 = (byte >> 3u8) & 1u8;
    let b2 = (byte >> 2u8) & 1u8;
    let b1 = (byte >> 1u8) & 1u8;
    let b0 = (byte >> 0u8) & 1u8;
    assert(b7 == 0 ==> byte < 0x80) by (bit_vector)
        requires
            b7 == (byte >> 7u8) & 1u8,
    ;
    assert(b7 == 1 && b6 == 0 ==> 0x80 <= byte < 0xC0) by (bit_vector)
        requires
            b7 == (byte >> 7u8) & 1u8,
            b6 == (byte >> 6u8) & 1u8,
    ;
    assert(b7 == 1 && b6 == 1 && b5 == 0 ==> 0xC0 <= byte < 0xE0) by (bit_vector)
        requires
            b7 == (byte >> 7u8) & 1u8,
            b6 == (byte >> 6u8) & 1u8,
            b5 == (byte >> 5u8) & 1u8,
    ;
    assert(b7 == 1 && b6 == 1 && b5 == 1 && b4 == 0 ==> 0xE0 <= byte < 0xF0) by (bit_vector)
        requires
            b7 == (byte >> 7u8) & 1u8,
            b6 == (byte >> 6u8) & 1u8,
            b5 == (byte >> 5u8) & 1u8,
            b4 == (byte >> 4u8) & 1u8,
    ;
    assert(b7 == 1 && b6 == 1 && b5 == 1 && b4 == 1 && b3 == 0 ==> 0xF0 <= byte < 0xF8)
        by (bit_vector)
        requires
            b7 == (byte >> 7u8) & 1u8,
            b6 == (byte >> 6u8) & 1u8,
            b5 == (byte >> 5u8) & 1u8,
            b4 == (byte >> 4u8) & 1u8,
            b3 == (byte >> 3u8) & 1u8,
    ;
    assert(b7 == 1 && b6 == 1 && b5 == 1 && b4 == 1 && b3 == 1 && b2 == 0 ==> 0xF8 <= byte
        < 0xFC) by (bit_vector)
        requires
            b7 == (byte >> 7u8) & 1u8,
            b6 == (byte >> 6u8) & 1u8,
            b5 == (byte >> 5u8) & 1u8,
            b4 == (byte >> 4u8) & 1u8,
            b3 == (byte >> 3u8) & 1u8,
            b2 == (byte >> 2u8) & 1u8,
    ;
    assert(b7 == 1 && b6 == 1 && b5 == 1 && b4 == 1 && b3 == 1 && b2 == 1 && b1 == 0 ==> 0xFC
        <= byte < 0xFE) by (bit_vector)
        requires
            b7 == (byte >> 7u8) & 1u8,
            b6 == (byte >> 6u8) & 1u8,
            b5 == (byte >> 5u8) & 1u8,
            b4 == (byte >> 4u8) & 1u8,
            b3 == (byte >> 3u8) & 1u8,
            b2 == (byte >> 2u8) & 1u8,
            b1 == (byte >> 1u8) & 1u8,
    ;
    assert(b7 == 1 && b6 == 1 && b5 == 1 && b4 == 1 && b3 == 1 && b2 == 1 && b1 == 1 && b0 == 0
        ==> byte == 0xFE) by (bit_vector)
        requires
            b7 == (byte >> 7u8) & 1u8,
            b6 == (byte >> 6u8) & 1u8,
            b5 == (byte >> 5u8) & 1u8,
            b4 == (byte >> 4u8) & 1u8,
            b3 == (byte >> 3u8) & 1u8,
            b2 == (byte >> 2u8) & 1u8,
            b1 == (byte >> 1u8) & 1u8,
            b0 == (byte >> 0u8) & 1u8,
    ;
}

impl ByteType {
    /// The byte that was classified; 0 where there is none.
    pub open spec fn spec_byte(self) -> u8 {
        match self {
            ByteType::Absent => 0,
            ByteType::Ascii(b) => b,
            ByteType::One(b) => b,
            ByteType::Two(b) => b,
            ByteType::Three(b) => b,
            ByteType::FourOrMore(b) => b,
            ByteType::Continuation(b) => b,
        }
    }

    /// The number of bytes that the category stands for: one for an ASCII
    /// byte, a continuation byte and a lone byte without leading one-bits,
    /// none where there is no byte, and for a leader the count of its
    /// leading one-bits.
    pub open spec fn spec_len(self) -> nat {
        match self {
            ByteType::Absent => 0,
            ByteType::Ascii(_) => 1,
            ByteType::Continuation(_) => 1,
            ByteType::One(_) => 1,
            ByteType::Two(b) => leading_ones(b),
            ByteType::Three(b) => leading_ones(b),
            ByteType::FourOrMore(b) => leading_ones(b),
        }
    }

    /// True for the categories that can open a rune of more than one byte.
    pub open spec fn spec_has_rune_delta(self) -> bool {
        !(self is Absent) && !(self is Ascii) && !(self is Continuation)
    }

    /// The name of the category; `None` where there is no byte.
    pub open spec fn spec_name(self) -> Seq<char> {
        match self {
            ByteType::Absent => "None"@,
            ByteType::Ascii(_) => "Ascii"@,
            ByteType::One(_) => "One"@,
            ByteType::Two(_) => "Two"@,
            ByteType::Three(_) => "Three"@,
            ByteType::FourOrMore(_) => "FourOrMore"@,
            ByteType::Continuation(_) => "Continuation"@,
        }
    }

    /// The category with its byte and its length, on four lines: the name
    /// behind `ByteType::`, then indented the byte in hexadecimal, with
    /// the character it encodes where it encodes one, and the length.
    pub open spec fn spec_as_debug(self, indent: Option<usize>) -> Seq<char> {
        let pad = spaces(indent_or_default(indent) as nat);
        let shown = if valid_utf8(seq![self.spec_byte()]) {
            " // \""@ + decode_utf8(seq![self.spec_byte()]) + "\""@
        } else {
            Seq::<char>::empty()
        };
        "ByteType::"@ + self.spec_name() + "{\n"@ + pad + "byte: "@ + hex(self.spec_byte()) + ","@
            + shown + "\n"@ + pad + "len: "@ + decimal(self.spec_len()) + ","@ + "\n})"@
    }

    /// Classifies one byte.
    pub fn new(byte: u8) -> (ty: ByteType)
        ensures
            ty == classify(byte),
    {
        proof {
            lemma_leading_ones_counts_bits(byte);
        }
        if byte < 127 {
            ByteType::Ascii(byte)
        } else {
            let ones: u32 = byte.leading_ones();
            if ones == 0 {
                ByteType::One(byte)
            } else if ones == 1 {
                ByteType::Continuation(byte)
            } else if ones == 2 {
                ByteType::Two(byte)
            } else if ones == 3 {
                ByteType::Three(byte)
            } else {
                ByteType::FourOrMore(byte)
            }
        }
    }

    /// The name of the category; `None` where there is no byte.
    pub fn name(&self) -> (name: &'static str)
        ensures
            name@ == self.spec_name(),
    {
        match self {
            ByteType::Absent => "None",
            ByteType::Ascii(_) => "Ascii",
            ByteType::One(_) => "One",
            ByteType::Two(_) => "Two",
            ByteType::Three(_) => "Three",
            ByteType::FourOrMore(_) => "FourOrMore",
            ByteType::Continuation(_) => "Continuation",
        }
    }

    /// The byte that was classified; 0 where there is none.
    pub fn byte(&self) -> (byte: u8)
        ensures
            byte == self.spec_byte(),
    {
        match self {
            ByteType::Absent => 0,
            ByteType::Ascii(byte) => *byte,
            ByteType::One(byte) => *byte,
            ByteType::Two(byte) => *byte,
            ByteType::Three(byte) => *byte,
            ByteType::FourOrMore(byte) => *byte,
            ByteType::Continuation(byte) => *byte,
        }
    }

    /// The number of bytes that the category stands for.
    pub fn len(&self) -> (len: usize)
        ensures
            len == self.spec_len(),
            len <= 8,
    {
        match self {
            ByteType::Absent => 0,
            ByteType::Continuation(_) | ByteType::Ascii(_) | ByteType::One(_) => 1,
            _ => {
                proof {
                    lemma_leading_ones_counts_bits(self.spec_byte());
                }
                let ones: u32 = self.byte().leading_ones();
                ones as usize
            },
        }
    }

    /// True for a byte below 127.
    pub fn is_ascii(&self) -> (yes: bool)
        ensures
            yes == (*self is Ascii),
    {
        match self {
            ByteType::Ascii(_) => true,
            _ => false,
        }
    }

    /// True for a continuation byte.
    pub fn is_continuation(&self) -> (yes: bool)
        ensures
            yes == (*self is Continuation),
    {
        match self {
            ByteType::Continuation(_) => true,
            _ => false,
        }
    }

    /// The category with its byte and its length, for a reader.
    pub fn as_debug(&self, indent: Option<usize>) -> (text: String)
        ensures
            text@ == self.spec_as_debug(indent),
    {
        let pad = spaces_of(unwrap_indent(indent));
        let mut text = String::from_str("ByteType::");
        text.append(self.name());
        text.append("{\n");
        text.append(pad.as_str());
        text.append("byte: ");
        text.append(hex_of(self.byte()).as_str());
        text.append(",");
        let mut one: Vec<u8> = Vec::new();
        one.push(self.byte());
        assert(one@ =~= seq![self.spec_byte()]);
        assert(one@.subrange(0, 1) =~= one@);
        if let Some(shown) = get_valid_utf8_str_of(one.as_slice(), 0, 1) {
            proof {
                encode_utf8_decode_utf8(shown@);
            }
            text.append(" // \"");
            text.append(shown);
            text.append("\"");
        }
        text.append("\n");
        text.append(pad.as_str());
        text.append("len: ");
        text.append(decimal_of(self.len()).as_str());
        text.append(",");
        text.append("\n})");
        proof {
            assert(text@ =~= self.spec_as_debug(indent));
        }
        text
    }

    /// True for the categories that can open a rune of more than one byte:
    /// all but the absent byte, the ASCII byte and the continuation byte.
    pub fn has_rune_delta(&self) -> (yes: bool)
        ensures
            yes == self.spec_has_rune_delta(),
    {
        match self {
            ByteType::Absent => false,
            ByteType::Ascii(_) => false,
            ByteType::Continuation(_) => false,
            _ => true,
        }
    }
}

impl From<u8> for ByteType {
    fn from(byte: u8) -> (ty: ByteType) {
        ByteType::new(byte)
    }
}

impl FromSpecImpl<u8> for ByteType {
    open spec fn obeys_from_spec() -> bool {
        true
    }

    open spec fn from_spec(byte: u8) -> ByteType {
        classify(byte)
    }
}

impl From<&u8> for ByteType {
    fn from(byte: &u8) -> (ty: ByteType) {
        ByteType::new(*byte)
    }
}

impl FromSpecImpl<&u8> for ByteType {
    open spec fn obeys_from_spec() -> bool {
        true
    }

    open spec fn from_spec(byte: &u8) -> ByteType {
        classify(*byte)
    }
}

/// The category of the lowest byte of the number.
impl From<u16> for ByteType {
    fn from(bytes: u16) -> (ty: ByteType) {
        ByteType::new((bytes % 256) as u8)
    }
}

impl FromSpecImpl<u16> for ByteType {
    open spec fn obeys_from_spec() -> bool {
        true
    }

    open spec fn from_spec(bytes: u16) -> ByteType {
        classify((bytes % 256) as u8)
    }
}

/// The category of the lowest byte of the number.
impl From<u32> for ByteType {
    fn from(bytes: u32) -> (ty: ByteType) {
        ByteType::new((bytes % 256) as u8)
    }
}

impl FromSpecImpl<u32> for ByteType {
    open spec fn obeys_from_spec() -> bool {
        true
    }

    open spec fn from_spec(bytes: u32) -> ByteType {
        classify((bytes % 256) as u8)
    }
}

/// The category of the lowest byte of the number.
impl From<u64> for ByteType {
    fn from(bytes: u64) -> (ty: ByteType) {
        ByteType::new((bytes % 256) as u8)
    }
}

impl FromSpecImpl<u64> for ByteType {
    open spec fn obeys_from_spec() -> bool {
        true
    }

    open spec fn from_spec(bytes: u64) -> ByteType {
        classify((bytes % 256) as u8)
    }
}

/// The category of the lowest byte of the number.
impl From<usize> for ByteType {
    fn from(bytes: usize) -> (ty: ByteType) {
        ByteType::new((bytes % 256) as u8)
    }
}

impl FromSpecImpl<usize> for ByteType {
    open spec fn obeys_from_spec() -> bool {
        true
    }

    open spec fn from_spec(bytes: usize) -> ByteType {
        classify((bytes % 256) as u8)
    }
}

} // verus!
