//! JSON values, held as the compact text that `serde_json` writes for them.

use crate::text::{decimal, is_digit, is_space, same};
use vstd::prelude::*;
use vstd::std_specs::cmp::PartialEqSpecImpl;
use vstd::string::*;
use vstd::utf8::encode_utf8;

verus! {

/// What `serde_json` makes of a text: the compact form of the value that it
/// denotes, or the message of the error.
pub uninterp spec fn json_text(source: Seq<char>) -> Result<Seq<char>, Seq<char>>;

/// What `serde_json` makes of bytes: the compact form of the value that they
/// denote, or the message of the error.
pub uninterp spec fn json_text_of_bytes(source: Seq<u8>) -> Result<Seq<char>, Seq<char>>;

/// The JSON string literal that `serde_json` writes for a text.
pub uninterp spec fn json_string(content: Seq<char>) -> Seq<char>;

/// The text that `String::from_utf8_lossy` makes of bytes.
pub uninterp spec fn lossy_text(bytes: Seq<u8>) -> Seq<char>;

/// The shape of every compact JSON text: it is not empty, does not begin with
/// white space, and holds no control character below the space.
pub open spec fn is_compact(t: Seq<char>) -> bool {
    &&& t.len() > 0
    &&& !is_space(t[0])
    &&& forall|i: int| 0 <= i < t.len() ==> (#[trigger] t[i]) as u32 >= 32
}

/// Whether a JSON text, of which the first characters may stand inside a string, holds a
/// number with a fraction or an exponent: outside strings, a point, or an `e` behind a digit.
pub open spec fn holds_float(t: Seq<char>, in_string: bool) -> bool
    decreases t.len(),
{
    if t.len() == 0 {
        false
    } else if in_string {
        if t[0] == '\\' && t.len() > 1 {
            holds_float(t.skip(2), true)
        } else {
            holds_float(t.skip(1), t[0] != '"')
        }
    } else {
        ||| t[0] == '.'
        ||| t.len() > 1 && is_digit(t[0]) && t[1] == 'e'
        ||| holds_float(t.skip(1), t[0] == '"')
    }
}

/// Whether a compact text is read as the value that it was written for.
pub open spec fn reads_back(t: Seq<char>) -> bool {
    &&& json_text(t) == Ok::<Seq<char>, Seq<char>>(t)
    &&& json_text_of_bytes(encode_utf8(t)) == Ok::<Seq<char>, Seq<char>>(t)
}

/// Whether a text is what `serde_json` writes for a value. Such a text is read as the same
/// value again; this is left open for numbers with a fraction or an exponent, of which the
/// last digit may change.
pub open spec fn is_written(t: Seq<char>) -> bool {
    is_compact(t) && (holds_float(t, false) || reads_back(t))
}

/// `serde_json::from_str`, with the parsed value written back in compact form by
/// its `Display`. The result is a function of the text alone. A compact text is
/// never empty, begins with the first character of a JSON token, and has every
/// control character inside a string escaped. It is read as the same value again, unless
/// it holds a floating-point number: `serde_json` promises that for none of these.
#[verifier::external_body]
fn compact_text(source: &str) -> (r: Result<String, String>)
    ensures
        match r {
            Ok(t) => json_text(source@) == Ok::<Seq<char>, Seq<char>>(t@) && is_written(t@),
            Err(e) => json_text(source@) == Err::<Seq<char>, Seq<char>>(e@),
        },
{
    match serde_json::from_str::<serde_json::Value>(source) {
        Ok(value) => Ok(value.to_string()),
        Err(error) => Err(error.to_string()),
    }
}

/// `serde_json::from_slice`, with the parsed value written back in compact form by
/// its `Display`. The result is a function of the bytes alone, and what is written is as
/// `compact_text` states.
#[verifier::external_body]
fn compact_text_of_bytes(source: &[u8]) -> (r: Result<String, String>)
    ensures
        match r {
            Ok(t) => json_text_of_bytes(source@) == Ok::<Seq<char>, Seq<char>>(t@) && is_written(
                t@,
            ),
            Err(e) => json_text_of_bytes(source@) == Err::<Seq<char>, Seq<char>>(e@),
        },
{
    match serde_json::from_slice::<serde_json::Value>(source) {
        Ok(value) => Ok(value.to_string()),
        Err(error) => Err(error.to_string()),
    }
}

/// `serde_json::Value::String`, written by its `Display`: a quoted literal, a
/// function of the content alone, with every control character escaped. It is read as
/// the same string again.
#[verifier::external_body]
fn string_literal(content: &str) -> (r: String)
    ensures
        r@ == json_string(content@),
        is_compact(r@),
        reads_back(r@),
        r@[0] == '"',
{
    serde_json::Value::String(content.to_owned()).to_string()
}

/// `serde_json::Value::from` on a row of bytes, written by its `Display`: the array of their
/// numbers. It is read as the same array again.
#[verifier::external_body]
fn byte_array_literal(bytes: &[u8]) -> (r: String)
    ensures
        r@ == byte_array_text(bytes@),
        is_compact(r@),
        reads_back(r@),
{
    serde_json::Value::from(bytes.to_vec()).to_string()
}

/// `serde_json::Value::Null`, written by its `Display`. It is read as null again.
#[verifier::external_body]
fn null_literal() -> (r: String)
    ensures
        r@ == "null"@,
        is_compact(r@),
        reads_back(r@),
{
    serde_json::Value::Null.to_string()
}

/// `String::from_utf8_lossy`: bytes that are valid UTF-8 are decoded as they are,
/// others with replacement characters for what is invalid.
#[verifier::external_body]
fn decode_lossy(bytes: &[u8]) -> (r: String)
    ensures
        r@ == lossy_text(bytes@),
        vstd::utf8::valid_utf8(bytes@) ==> r@ == vstd::utf8::decode_utf8(bytes@),
{
    String::from_utf8_lossy(bytes).into_owned()
}

/// A JSON value.
#[derive(Debug)]
pub struct Value {
    text: String,
}

impl View for Value {
    type V = Seq<char>;

    closed spec fn view(&self) -> Seq<char> {
        self.text@
    }
}

impl Value {
    #[verifier::type_invariant]
    spec fn written(self) -> bool {
        is_written(self.text@)
    }

    /// Reads a value from JSON text.
    pub fn parse(source: &str) -> (r: Result<Value, String>)
        ensures
            match r {
                Ok(v) => json_text(source@) == Ok::<Seq<char>, Seq<char>>(v@),
                Err(e) => json_text(source@) == Err::<Seq<char>, Seq<char>>(e@),
            },
    {
        match compact_text(source) {
            Ok(text) => Ok(Value { text }),
            Err(e) => Err(e),
        }
    }

    /// Reads a value from JSON bytes.
    pub fn parse_bytes(source: &[u8]) -> (r: Result<Value, String>)
        ensures
            match r {
                Ok(v) => json_text_of_bytes(source@) == Ok::<Seq<char>, Seq<char>>(v@),
                Err(e) => json_text_of_bytes(source@) == Err::<Seq<char>, Seq<char>>(e@),
            },
    {
        match compact_text_of_bytes(source) {
            Ok(text) => Ok(Value { text }),
            Err(e) => Err(e),
        }
    }

    /// Reads a value from bytes: the JSON value that they denote or, where they
    /// denote none, a JSON string that holds them as text.
    pub fn from_bytes(bytes: &[u8]) -> (r: Value)
        ensures
            r@ == value_of_bytes(bytes@),
            json_text_of_bytes(bytes@) is Err ==> r@[0] == '"',
    {
        match compact_text_of_bytes(bytes) {
            Ok(text) => Value { text },
            Err(_) => {
                let content: String = decode_lossy(bytes);
                Value { text: string_literal(content.as_str()) }
            },
        }
    }

    /// The JSON string with the given content.
    pub fn string(content: &str) -> (r: Value)
        ensures
            r@ == json_string(content@),
            r@[0] == '"',
    {
        Value { text: string_literal(content) }
    }

    /// Reads a value from text: the JSON value that it denotes or, where it denotes none, a
    /// JSON string that holds it.
    pub fn from_text(source: &str) -> (r: Value)
        ensures
            r@ == value_of_text(source@),
            json_text(source@) is Err ==> r@[0] == '"',
    {
        match compact_text(source) {
            Ok(text) => Value { text },
            Err(_) => Value { text: string_literal(source) },
        }
    }

    /// The JSON array of the numbers of bytes.
    pub fn byte_array(bytes: &[u8]) -> (r: Value)
        ensures
            r@ == byte_array_text(bytes@),
    {
        Value { text: byte_array_literal(bytes) }
    }

    /// The JSON value `null`.
    pub fn null() -> (r: Value)
        ensures
            r@ == "null"@,
    {
        Value { text: null_literal() }
    }

    pub fn is_null(&self) -> (r: bool)
        ensures
            r == (self@ == "null"@),
    {
        same(self.text.as_str(), "null")
    }

    /// The compact JSON text of the value.
    pub fn text(&self) -> (r: &str)
        ensures
            r@ == self@,
            is_written(r@),
    {
        proof {
            use_type_invariant(self);
        }
        self.text.as_str()
    }
}

/// The value that bytes stand for: what they denote as JSON, else a string that
/// holds them as text.
pub open spec fn value_of_bytes(bytes: Seq<u8>) -> Seq<char> {
    match json_text_of_bytes(bytes) {
        Ok(t) => t,
        Err(_) => json_string(lossy_text(bytes)),
    }
}

/// The value that a text stands for: what it denotes as JSON, else a string that holds it.
pub open spec fn value_of_text(source: Seq<char>) -> Seq<char> {
    match json_text(source) {
        Ok(t) => t,
        Err(_) => json_string(source),
    }
}

/// The decimal numbers of bytes with commas between.
pub open spec fn byte_numbers(bytes: Seq<u8>) -> Seq<char>
    decreases bytes.len(),
{
    if bytes.len() == 0 {
        Seq::empty()
    } else if bytes.len() == 1 {
        decimal(bytes[0] as nat)
    } else {
        byte_numbers(bytes.drop_last()) + ","@ + decimal(bytes.last() as nat)
    }
}

/// The JSON array of the numbers of bytes.
pub open spec fn byte_array_text(bytes: Seq<u8>) -> Seq<char> {
    "["@ + byte_numbers(bytes) + "]"@
}

impl Clone for Value {
    fn clone(&self) -> (r: Value)
        ensures
            r@ == self@,
    {
        proof {
            use_type_invariant(self);
        }
        Value { text: self.text.clone() }
    }
}

impl PartialEqSpecImpl for Value {
    open spec fn obeys_eq_spec() -> bool {
        true
    }

    open spec fn eq_spec(&self, other: &Value) -> bool {
        self@ == other@
    }
}

impl PartialEq for Value {
    fn eq(&self, other: &Value) -> (r: bool) {
        same(self.text.as_str(), other.text.as_str())
    }
}

} // verus!
