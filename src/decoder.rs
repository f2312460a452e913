//! Decoders turn one message into one row.
use vstd::prelude::*;

pub mod avro;
pub mod example;
pub mod schema;
pub mod static_avro_example;

verus! {

/// Length of the framing in front of a schema-registry encoded message:
/// one magic byte and a four-byte schema id.
pub const CONFLUENT_HEADER_LEN: usize = 5;

/// Why a message could not be turned into a row.
#[derive(PartialEq, Eq, Structural, Clone, Copy, Debug)]
pub enum DecodeError {
    /// The message is shorter than its framing header.
    MissingHeader,
    /// The payload is not a datum of the decoder's schema.
    Malformed,
    /// The datum is not a record.
    NotARecord,
    /// A null outside a nullable union.
    UnexpectedNull,
    /// A record inside a record.
    NestedRecord,
    /// A decimal value.
    UnsupportedDecimal,
    /// A union, array or map inside a union, array or map.
    UnsupportedNesting,
    /// A timestamp outside the calendar's range.
    TimestampOutOfRange,
    /// A null in a field that has no zero value recorded.
    MissingNullable,
    /// An array in a field that has no element type recorded.
    MissingArrayType,
    /// A map in a field that has no value type recorded.
    MissingMapType,
}

/// The datum behind the framing header; `None` where the message is shorter
/// than the header. The header itself is not checked.
pub fn confluent_payload(message: &[u8]) -> (r: Option<&[u8]>)
    ensures
        message@.len() < CONFLUENT_HEADER_LEN ==> r is None,
        message@.len() >= CONFLUENT_HEADER_LEN ==> r is Some && r->Some_0@ == message@.subrange(
            CONFLUENT_HEADER_LEN as int,
            message@.len() as int,
        ),
{
    if message.len() < CONFLUENT_HEADER_LEN {
        None
    } else {
        Some(vstd::slice::slice_subrange(message, CONFLUENT_HEADER_LEN, message.len()))
    }
}

/// The decoder that a configuration names.
pub enum DecoderChoice {
    /// The JSON example decoder.
    Example,
    /// The generic Avro decoder, with its configuration table.
    Avro(toml::Value),
    /// The Avro decoder of a fixed record type.
    StaticAvroExample,
}

/// Why no decoder could be chosen.
#[derive(PartialEq, Eq, Structural, Clone, Copy, Debug)]
pub enum FactoryError {
    /// The Avro decoder was named without its configuration table.
    MissingAvroSettings,
    /// No decoder has the given name.
    UnknownDecoder,
}

fn is_named(name: &String, lit: &str) -> (r: bool)
    ensures
        r == (name@ == lit@),
{
    let s = lit.to_owned();
    name.eq(&s)
}

/// Chooses the decoder named `name`: `"example"`, `"avro"` (which needs its
/// configuration table) or `"test-avro"`. Further decoders are registered
/// here.
pub fn get_decoder(name: &String, decoder_settings: Option<toml::Value>) -> (r: Result<
    DecoderChoice,
    FactoryError,
>)
    ensures
        if name@ == "example"@ {
            r matches Ok(DecoderChoice::Example)
        } else if name@ == "avro"@ {
            match decoder_settings {
                Some(v) => r matches Ok(DecoderChoice::Avro(w)) && w == v,
                None => r == Err::<DecoderChoice, FactoryError>(FactoryError::MissingAvroSettings),
            }
        } else if name@ == "test-avro"@ {
            r matches Ok(DecoderChoice::StaticAvroExample)
        } else {
            r == Err::<DecoderChoice, FactoryError>(FactoryError::UnknownDecoder)
        },
{
    if is_named(name, "example") {
        Ok(DecoderChoice::Example)
    } else if is_named(name, "avro") {
        match decoder_settings {
            Some(v) => Ok(DecoderChoice::Avro(v)),
            None => Err(FactoryError::MissingAvroSettings),
        }
    } else if is_named(name, "test-avro") {
        Ok(DecoderChoice::StaticAvroExample)
    } else {
        Err(FactoryError::UnknownDecoder)
    }
}

} // verus!
