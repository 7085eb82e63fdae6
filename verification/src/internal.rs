//! Plain text for bytes and numbers, for what prints the library's values.

use vstd::prelude::*;
use vstd::string::StringExecFns;

verus! {

/// The number of spaces that one level of indentation takes.
pub const DEFAULT_INDENT: usize = 4;

/// The given indentation, or `DEFAULT_INDENT` where none is given.
pub open spec fn indent_or_default(indent: Option<usize>) -> usize {
    match indent {
        Some(given) => given,
        None => DEFAULT_INDENT,
    }
}

/// The given indentation, or `DEFAULT_INDENT` where none is given.
pub fn unwrap_indent(indent: Option<usize>) -> (width: usize)
    ensures
        width == indent_or_default(indent),
{
    match indent {
        Some(given) => given,
        None => DEFAULT_INDENT,
    }
}

/// The decimal digit for a number below ten.
pub open spec fn digit(value: nat) -> Seq<char> {
    if value == 0 {
        "0"@
    } else if value == 1 {
        "1"@
    } else if value == 2 {
        "2"@
    } else if value == 3 {
        "3"@
    } else if value == 4 {
        "4"@
    } else if value == 5 {
        "5"@
    } else if value == 6 {
        "6"@
    } else if value == 7 {
        "7"@
    } else if value == 8 {
        "8"@
    } else {
        "9"@
    }
}

/// The decimal digits of a number, without leading zeros.
pub open spec fn decimal(value: nat) -> Seq<char>
    decreases value,
{
    if value < 10 {
        digit(value)
    } else {
        decimal(value / 10) + digit(value % 10)
    }
}

/// That many spaces.
pub open spec fn spaces(count: nat) -> Seq<char>
    decreases count,
{
    if count == 0 {
        Seq::<char>::empty()
    } else {
        spaces((count - 1) as nat) + " "@
    }
}

/// The bytes as decimal numbers, with a comma and a space between each
/// two.
pub open spec fn listed(bytes: Seq<u8>) -> Seq<char>
    decreases bytes.len(),
{
    if bytes.len() == 0 {
        Seq::<char>::empty()
    } else if bytes.len() == 1 {
        decimal(bytes[0] as nat)
    } else {
        listed(bytes.drop_last()) + ", "@ + decimal(bytes.last() as nat)
    }
}

/// The bytes as a list in square brackets, behind `indent` spaces.
pub open spec fn formatted(bytes: Seq<u8>, indent: nat) -> Seq<char> {
    spaces(indent) + "["@ + listed(bytes) + "]"@
}

fn digit_of(value: usize) -> (text: &'static str)
    requires
        value < 10,
    ensures
        text@ == digit(value as nat),
{
    if value == 0 {
        "0"
    } else if value == 1 {
        "1"
    } else if value == 2 {
        "2"
    } else if value == 3 {
        "3"
    } else if value == 4 {
        "4"
    } else if value == 5 {
        "5"
    } else if value == 6 {
        "6"
    } else if value == 7 {
        "7"
    } else if value == 8 {
        "8"
    } else {
        "9"
    }
}

/// The decimal digits of `value`.
pub fn decimal_of(value: usize) -> (text: String)
    ensures
        text@ == decimal(value as nat),
    decreases value,
{
    if value < 10 {
        String::from_str(digit_of(value))
    } else {
        let mut text = decimal_of(value / 10);
        text.append(digit_of(value % 10));
        text
    }
}

/// `count` spaces.
pub fn spaces_of(count: usize) -> (text: String)
    ensures
        text@ == spaces(count as nat),
{
    let mut text = String::new();
    let mut done: usize = 0;
    while done < count
        invariant
            done <= count,
            text@ == spaces(done as nat),
        decreases count - done,
    {
        text.append(" ");
        done += 1;
    }
    text
}

/// The bytes as decimal numbers in square brackets, behind the given
/// indentation: `[226, 157, 164]`.
pub fn format_bytes(bytes: &[u8], indent: Option<usize>) -> (text: String)
    ensures
        text@ == formatted(bytes@, indent_or_default(indent) as nat),
{
    let mut text = spaces_of(unwrap_indent(indent));
    text.append("[");
    let ghost opened = text@;
    let mut done: usize = 0;
    while done < bytes.len()
        invariant
            done <= bytes@.len(),
            text@ == opened + listed(bytes@.take(done as int)),
        decreases bytes@.len() - done,
    {
        if done > 0 {
            text.append(", ");
        }
        let number = decimal_of(bytes[done] as usize);
        text.append(number.as_str());
        proof {
            let before = bytes@.take(done as int);
            let after = bytes@.take(done + 1);
            assert(after.drop_last() =~= before);
            assert(after.last() == bytes@[done as int]);
            assert(text@ =~= opened + listed(after));
        }
        done += 1;
    }
    proof {
        assert(bytes@.take(done as int) =~= bytes@);
    }
    text.append("]");
    text
}


/// The hexadecimal digit for a number below sixteen, in lower case.
pub open spec fn hex_digit(value: nat) -> Seq<char> {
    if value < 10 {
        digit(value)
    } else if value == 10 {
        "a"@
    } else if value == 11 {
        "b"@
    } else if value == 12 {
        "c"@
    } else if value == 13 {
        "d"@
    } else if value == 14 {
        "e"@
    } else {
        "f"@
    }
}

/// The byte as two hexadecimal digits behind `0x`.
pub open spec fn hex(byte: u8) -> Seq<char> {
    "0x"@ + hex_digit((byte / 16) as nat) + hex_digit((byte % 16) as nat)
}

fn hex_digit_of(value: u8) -> (text: &'static str)
    requires
        value < 16,
    ensures
        text@ == hex_digit(value as nat),
{
    if value < 10 {
        digit_of(value as usize)
    } else if value == 10 {
        "a"
    } else if value == 11 {
        "b"
    } else if value == 12 {
        "c"
    } else if value == 13 {
        "d"
    } else if value == 14 {
        "e"
    } else {
        "f"
    }
}

/// The byte as two hexadecimal digits behind `0x`: `0xe2`.
pub fn hex_of(byte: u8) -> (text: String)
    ensures
        text@ == hex(byte),
{
    let mut text = String::from_str("0x");
    text.append(hex_digit_of(byte / 16));
    text.append(hex_digit_of(byte % 16));
    text
}

/// What std's `Debug` prints for a text: the text between double quotes,
/// with the characters escaped that `Debug` escapes.
pub uninterp spec fn debug_quoted(text: Seq<char>) -> Seq<char>;

/// `format!` with `{:#?}` on a `str`, that is std's `Debug` for `str`.
/// What comes back depends on the characters of `text` alone.
#[verifier::external_body]
pub(crate) fn quote(text: &str) -> (quoted: String)
    ensures
        quoted@ == debug_quoted(text@),
{
    format!("{:#?}", text)
}

} // verus!
