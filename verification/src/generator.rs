//! The text of one label, made from its serial number.

use crate::check_digit::{check_digit_of, digit_checksum, is_digit};
use crate::decimal::{
    byte_text, decimal_bytes, decimal_digits, flipped_hex, flipped_hex_bytes,
    lemma_decimal_digits_are_digits, lemma_decimal_value_of_digits,
    lemma_leading_zeros_keep_value, padded_bytes, padded_digits, parsed_u32, push_bytes,
};
use vstd::pervasive::unreached;
use vstd::prelude::*;
use vstd::string::StringExecFns;

verus! {

/// Figures that the printed number is padded to.
pub const DISPLAY_WIDTH: usize = 8;

/// Opens the label and sets up the page; the same for every label.
pub const PREAMBLE: &'static str = "^XA\n^CI28\n^PW600\n^LL300\n";

/// Opens the field that writes the tag's memory, in hexadecimal.
pub const TAG_FIELD: &'static str = "^RFW,H^FD";

/// Opens the field that prints the number for the eye.
pub const DISPLAY_FIELD: &'static str = "^FO40,40^A0N,60,60^FD";

/// Opens the bar code field.
pub const BARCODE_FIELD: &'static str = "^FO40,120^BCN,100,Y,N,N^FD";

/// Closes a field and its line.
pub const FIELD_END: &'static str = "^FS\n";

/// Closes the label.
pub const LABEL_END: &'static str = "^XZ";

/// What the bar code of `serial` holds: the decimal digits of the number
/// and, after them, their check digit.
pub open spec fn barcode_digits(serial: u32) -> Seq<u8> {
    let digits = decimal_digits(serial as nat);
    digits.push(check_digit_of(digits))
}

/// The number as the label prints it for the eye: in decimal, with zeros in
/// front up to the display width.
pub open spec fn display_digits(serial: u32) -> Seq<u8> {
    padded_digits(serial as nat, DISPLAY_WIDTH as nat)
}

/// The whole text of the label for `serial`.
pub open spec fn label_text(serial: u32) -> Seq<char> {
    PREAMBLE@ + TAG_FIELD@ + byte_text(flipped_hex(serial)) + FIELD_END@ + DISPLAY_FIELD@
        + byte_text(display_digits(serial)) + FIELD_END@ + BARCODE_FIELD@ + byte_text(
        barcode_digits(serial),
    ) + FIELD_END@ + LABEL_END@
}

/// Where the printed number starts in the text of a label.
pub open spec fn display_start() -> nat {
    PREAMBLE@.len() + TAG_FIELD@.len() + 8 + FIELD_END@.len() + DISPLAY_FIELD@.len()
}

/// The bytes that the characters of `text` stand for, each by its code point.
pub open spec fn text_bytes(text: Seq<char>) -> Seq<u8> {
    Seq::new(text.len(), |i: int| text[i] as u8)
}

/// The number printed on a label reads back as the serial number of the
/// label: the label holds the zero-padded digits at a fixed place, and read
/// as a decimal number they give the serial number.
pub proof fn lemma_display_round_trip(serial: u32)
    ensures
        parsed_u32(display_digits(serial)) == Some(serial),
        ({
            let from = display_start();
            let to = from + display_digits(serial).len();
            &&& to <= label_text(serial).len()
            &&& label_text(serial).subrange(from as int, to as int) == byte_text(
                display_digits(serial),
            )
            &&& parsed_u32(text_bytes(label_text(serial).subrange(from as int, to as int)))
                == Some(serial)
        }),
{
    let n = serial as nat;
    let digits = decimal_digits(n);
    let field = display_digits(serial);
    lemma_decimal_digits_are_digits(n);
    lemma_decimal_value_of_digits(n);
    if digits.len() < DISPLAY_WIDTH {
        let k = (DISPLAY_WIDTH - digits.len()) as nat;
        lemma_leading_zeros_keep_value(k, digits);
        assert forall|i: int| 0 <= i < field.len() implies is_digit(#[trigger] field[i]) by {
            if i >= k {
                assert(is_digit(digits[i - k]));
            }
        }
    }
    let from = display_start();
    let to = from + field.len();
    assert(label_text(serial).subrange(from as int, to as int) =~= byte_text(field));
    assert(text_bytes(byte_text(field)) =~= field);
}

/// The decimal digits of `serial` with their check digit after them.
pub fn barcode_bytes(serial: u32) -> (digits: Vec<u8>)
    ensures
        digits@ == barcode_digits(serial),
{
    let mut digits = decimal_bytes(serial as u128);
    proof {
        lemma_decimal_digits_are_digits(serial as nat);
    }
    let check = match digit_checksum(digits.as_slice()) {
        Some(check) => check,
        None => unreached(),
    };
    digits.push(check);
    digits
}

/// Renders the label for `serial`.
pub fn generate_zpl(serial: u32) -> (text: String)
    ensures
        text@ == label_text(serial),
{
    let hex = flipped_hex_bytes(serial);
    let display = padded_bytes(serial as u128, DISPLAY_WIDTH);
    let barcode = barcode_bytes(serial);
    let mut text = String::from_str(PREAMBLE);
    text.append(TAG_FIELD);
    push_bytes(&mut text, hex.as_slice());
    text.append(FIELD_END);
    text.append(DISPLAY_FIELD);
    push_bytes(&mut text, display.as_slice());
    text.append(FIELD_END);
    text.append(BARCODE_FIELD);
    push_bytes(&mut text, barcode.as_slice());
    text.append(FIELD_END);
    text.append(LABEL_END);
    text
}

} // verus!
