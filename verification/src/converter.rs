//! The field decoder: from a span of bytes to the text of a parameter.

use crate::error::DecodeError;
use crate::text::{
    decimal_string, decimal_text, digit_char, integer_of, lemma_decimal_round_trip, lowercase,
    lowercase_of, same_text, text_from_utf8,
};
use crate::trace_reader::TraceParameter;
use crate::xml_parser::{Paramter, ParamterView};
use vstd::prelude::*;

verus! {

/// The four ways in which a field's bytes are read.
#[derive(Clone, Copy, Debug, PartialEq, Eq, Structural)]
pub enum FieldKind {
    /// A big-endian unsigned integer of one to six bytes.
    Integer,
    /// UTF-8 text.
    Text,
    /// One byte, looked up in the parameter's table of labels.
    Enumeration,
    /// Opaque bytes, shown in hexadecimal.
    Binary,
}

/// The number that `bytes` write in base 256, most significant first.
pub open spec fn be_value(bytes: Seq<u8>) -> nat
    decreases bytes.len(),
{
    if bytes.len() == 0 {
        0
    } else {
        be_value(bytes.drop_last()) * 256 + bytes.last() as nat
    }
}

/// The `width` bytes that write `value` in base 256, most significant first
/// (the low `width` bytes of it, where it needs more).
pub open spec fn be_bytes(value: nat, width: nat) -> Seq<u8>
    decreases width,
{
    if width == 0 {
        Seq::empty()
    } else {
        be_bytes(value / 256, (width - 1) as nat).push((value % 256) as u8)
    }
}

/// 256 to the power `n`.
pub open spec fn radix_pow(n: nat) -> nat
    decreases n,
{
    if n == 0 {
        1
    } else {
        256 * radix_pow((n - 1) as nat)
    }
}

/// The character that writes the hexadecimal digit `d` in lower case.
pub open spec fn hex_digit(d: nat) -> char {
    if d < 10 {
        digit_char(d)
    } else if d == 10 {
        'a'
    } else if d == 11 {
        'b'
    } else if d == 12 {
        'c'
    } else if d == 13 {
        'd'
    } else if d == 14 {
        'e'
    } else {
        'f'
    }
}

/// Lowercase hexadecimal: two characters for each byte, high digit first,
/// with nothing between the bytes.
pub open spec fn hex_text(bytes: Seq<u8>) -> Seq<char> {
    Seq::new(
        2 * bytes.len(),
        |i: int|
            hex_digit(
                if i % 2 == 0 {
                    bytes[i / 2] as nat / 16
                } else {
                    bytes[i / 2] as nat % 16
                },
            ),
    )
}

/// The kind that a lowercased type name selects, if it selects one.
pub open spec fn kind_named(lower: Seq<char>) -> Option<FieldKind> {
    if lower == "uint"@ || lower == "long"@ {
        Some(FieldKind::Integer)
    } else if lower == "string"@ || lower == "froref"@ {
        Some(FieldKind::Text)
    } else if lower == "enum"@ {
        Some(FieldKind::Enumeration)
    } else if lower == "binary"@ {
        Some(FieldKind::Binary)
    } else {
        None
    }
}

/// The text of an integer field. The declared width decides: one to six
/// bytes are read big-endian, which for three, five and six bytes is the
/// value of the span extended with zero bytes in front; any other width gives
/// the empty text. A span that does not have the declared width is an error.
pub open spec fn integer_text(record: Seq<u8>, width: int) -> Result<Seq<char>, DecodeError> {
    if 1 <= width <= 6 {
        if record.len() == width {
            Ok(decimal_text(be_value(record)))
        } else {
            Err(DecodeError::SpanLength)
        }
    } else {
        Ok(Seq::empty())
    }
}

/// The text of a string field: the characters that the bytes encode.
pub open spec fn string_text(record: Seq<u8>) -> Result<Seq<char>, DecodeError> {
    if vstd::utf8::valid_utf8(record) {
        Ok(vstd::utf8::decode_utf8(record))
    } else {
        Err(DecodeError::InvalidUtf8)
    }
}

/// The text of an enumeration field: the label of the one byte of the span,
/// or `na` where the table has no label for it.
pub open spec fn enumeration_text(record: Seq<u8>, labels: Map<u8, Seq<char>>) -> Result<
    Seq<char>,
    DecodeError,
> {
    if record.len() == 1 {
        if labels.contains_key(record[0]) {
            Ok(labels[record[0]])
        } else {
            Ok("na"@)
        }
    } else {
        Err(DecodeError::SpanLength)
    }
}

/// The text that a field of the given kind decodes to.
pub open spec fn field_text(kind: FieldKind, record: Seq<u8>, parameter: ParamterView) -> Result<
    Seq<char>,
    DecodeError,
> {
    match kind {
        FieldKind::Integer => integer_text(record, parameter.number_of_bytes),
        FieldKind::Text => string_text(record),
        FieldKind::Enumeration => enumeration_text(record, parameter.enumeration),
        FieldKind::Binary => Ok(hex_text(record)),
    }
}

/// Whether `result` is the decoded parameter that `expected` describes: the
/// same error, or a parameter with the definition's name and the expected
/// text.
pub open spec fn decodes_to(
    result: Result<TraceParameter, DecodeError>,
    expected: Result<Seq<char>, DecodeError>,
    parameter: ParamterView,
) -> bool {
    match result {
        Ok(decoded) => expected == Ok::<Seq<char>, DecodeError>(decoded.value@) && decoded.name@
            == parameter.name,
        Err(error) => expected == Err::<Seq<char>, DecodeError>(error),
    }
}

/// A decoder for the fields of one kind.
pub trait Converter {
    /// The kind of field that this converter reads.
    spec fn kind(&self) -> FieldKind;

    /// Decodes the span `record` under the definition `parameter`.
    fn convert(&self, record: &[u8], parameter: &Paramter) -> (result: Result<
        TraceParameter,
        DecodeError,
    >)
        ensures
            decodes_to(result, field_text(self.kind(), record@, parameter@), parameter@),
    ;
}

/// `hex::encode`: two lowercase hexadecimal characters for each byte, the
/// high four bits first.
#[verifier::external_body]
fn hex_string(bytes: &[u8]) -> (r: String)
    ensures
        r@ == hex_text(bytes@),
{
    hex::encode(bytes)
}

/// The value of a span lies below 256 to the power of the span's length.
pub proof fn lemma_be_value_bound(bytes: Seq<u8>)
    ensures
        be_value(bytes) < radix_pow(bytes.len()),
    decreases bytes.len(),
{
    if bytes.len() > 0 {
        lemma_be_value_bound(bytes.drop_last());
    }
}

/// 256 to the power `n` grows with `n`.
pub proof fn lemma_radix_pow_monotonic(m: nat, n: nat)
    requires
        m <= n,
    ensures
        0 < radix_pow(m) <= radix_pow(n),
    decreases n,
{
    if n == 0 {
    } else if m == n {
        lemma_radix_pow_monotonic((m - 1) as nat, (n - 1) as nat);
    } else {
        lemma_radix_pow_monotonic(m, (n - 1) as nat);
    }
}

/// Writing the value of a span on the span's own width gives the span back:
/// decoding loses nothing, whatever the width.
pub proof fn lemma_be_round_trip(bytes: Seq<u8>)
    ensures
        be_bytes(be_value(bytes), bytes.len()) == bytes,
    decreases bytes.len(),
{
    if bytes.len() > 0 {
        let front = bytes.drop_last();
        lemma_be_round_trip(front);
        let value = be_value(bytes);
        assert(value == be_value(front) * 256 + bytes.last() as nat);
        assert(value / 256 == be_value(front));
        assert(value % 256 == bytes.last() as nat);
        assert(be_bytes(value, bytes.len()) == be_bytes(value / 256, front.len()).push(
            (value % 256) as u8,
        ));
        assert(front.push(bytes.last()) == bytes);
    }
}

/// Zero bytes in front of a span do not change its value: a span of three
/// bytes reads like the four bytes that begin with a zero, and so on.
pub proof fn lemma_zero_extension(bytes: Seq<u8>, zeros: nat)
    ensures
        be_value(Seq::new(zeros, |i: int| 0u8) + bytes) == be_value(bytes),
    decreases bytes.len(),
{
    let padding = Seq::new(zeros, |i: int| 0u8);
    if bytes.len() == 0 {
        assert(padding + bytes == padding);
        lemma_zeros_value(zeros);
    } else {
        lemma_zero_extension(bytes.drop_last(), zeros);
        assert((padding + bytes).drop_last() == padding + bytes.drop_last());
        assert((padding + bytes).last() == bytes.last());
    }
}

/// A run of zero bytes has the value zero.
pub proof fn lemma_zeros_value(zeros: nat)
    ensures
        be_value(Seq::new(zeros, |i: int| 0u8)) == 0,
    decreases zeros,
{
    if zeros > 0 {
        lemma_zeros_value((zeros - 1) as nat);
        assert(Seq::new(zeros, |i: int| 0u8).drop_last() == Seq::new(
            (zeros - 1) as nat,
            |i: int| 0u8,
        ));
    }
}

/// An integer field of one to six bytes decodes to a numeral that reads back
/// as the value of its bytes, and that value written big-endian on the same
/// width is the field's bytes again.
pub proof fn lemma_integer_round_trip(record: Seq<u8>, width: int)
    requires
        1 <= width <= 6,
        record.len() == width,
    ensures
        integer_text(record, width) == Ok::<Seq<char>, DecodeError>(decimal_text(be_value(record))),
        integer_of(decimal_text(be_value(record)), false) == Some(be_value(record) as int),
        be_bytes(be_value(record), width as nat) == record,
{
    lemma_decimal_round_trip(be_value(record), false);
    lemma_be_round_trip(record);
}

/// An enumeration code that the table does not hold is no error: the field
/// decodes to the text `na`.
pub proof fn lemma_unmapped_code_is_na(record: Seq<u8>, parameter: ParamterView)
    requires
        record.len() == 1,
        !parameter.enumeration.contains_key(record[0]),
    ensures
        field_text(FieldKind::Enumeration, record, parameter) == Ok::<Seq<char>, DecodeError>("na"@),
{
}

/// Reads up to eight bytes as one big-endian number.
pub fn big_endian(bytes: &[u8]) -> (value: u64)
    requires
        bytes@.len() <= 8,
    ensures
        value == be_value(bytes@),
{
    let mut value: u64 = 0;
    let mut i: usize = 0;
    proof {
        assert(radix_pow(8) == 0x1_0000_0000_0000_0000) by {
            reveal_with_fuel(radix_pow, 9);
        }
    }
    while i < bytes.len()
        invariant
            i <= bytes@.len() <= 8,
            value == be_value(bytes@.take(i as int)),
            radix_pow(8) == 0x1_0000_0000_0000_0000,
        decreases bytes@.len() - i,
    {
        proof {
            let next = bytes@.take(i + 1);
            assert(next.drop_last() == bytes@.take(i as int));
            assert(next.last() == bytes@[i as int]);
            lemma_be_value_bound(next);
            lemma_radix_pow_monotonic(next.len(), 8);
        }
        value = value * 256 + bytes[i] as u64;
        i = i + 1;
    }
    proof {
        assert(bytes@.take(i as int) == bytes@);
    }
    value
}

/// The decoder of integer fields.
pub struct IntConverter;

/// The decoder of string fields.
pub struct StrConverter;

/// The decoder of opaque binary fields.
pub struct BinaryConverter;

/// The decoder of enumeration fields.
pub struct EnumConverter;

impl Converter for IntConverter {
    open spec fn kind(&self) -> FieldKind {
        FieldKind::Integer
    }

    fn convert(&self, record: &[u8], parameter: &Paramter) -> (result: Result<
        TraceParameter,
        DecodeError,
    >) {
        let width: i64 = parameter.number_of_bytes;
        let value = if 1 <= width && width <= 6 {
            if record.len() != width as usize {
                return Err(DecodeError::SpanLength);
            }
            decimal_string(big_endian(record))
        } else {
            String::new()
        };
        Ok(TraceParameter { name: parameter.name.clone(), value })
    }
}

impl Converter for StrConverter {
    open spec fn kind(&self) -> FieldKind {
        FieldKind::Text
    }

    fn convert(&self, record: &[u8], parameter: &Paramter) -> (result: Result<
        TraceParameter,
        DecodeError,
    >) {
        match text_from_utf8(record) {
            Some(value) => Ok(TraceParameter { name: parameter.name.clone(), value }),
            None => Err(DecodeError::InvalidUtf8),
        }
    }
}

impl Converter for BinaryConverter {
    open spec fn kind(&self) -> FieldKind {
        FieldKind::Binary
    }

    fn convert(&self, record: &[u8], parameter: &Paramter) -> (result: Result<
        TraceParameter,
        DecodeError,
    >) {
        let value = hex_string(record);
        Ok(TraceParameter { name: parameter.name.clone(), value })
    }
}

impl Converter for EnumConverter {
    open spec fn kind(&self) -> FieldKind {
        FieldKind::Enumeration
    }

    fn convert(&self, record: &[u8], parameter: &Paramter) -> (result: Result<
        TraceParameter,
        DecodeError,
    >) {
        if record.len() != 1 {
            return Err(DecodeError::SpanLength);
        }
        let id: u8 = record[0];
        let value = match parameter.enumeration.get(&id) {
            Some(label) => label.clone(),
            None => "na".to_owned(),
        };
        Ok(TraceParameter { name: parameter.name.clone(), value })
    }
}

/// The kind of field that an already lowercased type name selects.
pub fn kind_of_lowercase(lower: &str) -> (kind: Option<FieldKind>)
    ensures
        kind == kind_named(lower@),
{
    proof {
        reveal_strlit("uint");
        reveal_strlit("long");
        reveal_strlit("string");
        reveal_strlit("froref");
        reveal_strlit("enum");
        reveal_strlit("binary");
    }
    if same_text(lower, "uint") || same_text(lower, "long") {
        Some(FieldKind::Integer)
    } else if same_text(lower, "string") || same_text(lower, "froref") {
        Some(FieldKind::Text)
    } else if same_text(lower, "enum") {
        Some(FieldKind::Enumeration)
    } else if same_text(lower, "binary") {
        Some(FieldKind::Binary)
    } else {
        None
    }
}

/// The converter for a parameter type, named in any letter case: `uint` and
/// `long` are integers, `string` and `froref` are text, `enum` is an
/// enumeration and `binary` is opaque. Any other name has no converter.
pub fn create_converter(name: &str) -> (converter: Option<Box<dyn Converter>>)
    ensures
        match kind_named(lowercase_of(name@)) {
            Some(kind) => converter matches Some(c) && c.kind() == kind,
            None => converter is None,
        },
{
    let lower = lowercase(name);
    match kind_of_lowercase(lower.as_str()) {
        Some(FieldKind::Integer) => Some(Box::new(IntConverter)),
        Some(FieldKind::Text) => Some(Box::new(StrConverter)),
        Some(FieldKind::Enumeration) => Some(Box::new(EnumConverter)),
        Some(FieldKind::Binary) => Some(Box::new(BinaryConverter)),
        None => None,
    }
}

} // verus!
