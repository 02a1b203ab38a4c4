//! Calls into std and outside crates whose behaviour is taken as given.
use vstd::prelude::*;
use vstd::utf8::{decode_utf8, valid_utf8};
use base64::Engine;
use unicode_width::UnicodeWidthChar;
use toml::Value;
use crate::settings_file::{value_view, ConfigValue, ValueView};

verus! {

/// Display width that the `unicode-width` crate assigns to a character (UAX #11, ambiguous
/// characters narrow), or `None` for control characters.
pub uninterp spec fn unicode_width_of(c: char) -> Option<usize>;

/// `UnicodeWidthChar::width` of unicode-width. Claimed: the result is the crate's width
/// table entry for `c`; characters below U+0020 and from U+007F to U+009F have no width,
/// U+0020..U+007E are one column wide, and every other character has a width of at most 3.
#[verifier::external_body]
pub(crate) fn char_column_width(c: char) -> (r: Option<usize>)
    ensures
        r == unicode_width_of(c),
        (c as u32) < 0x20 ==> r == None::<usize>,
        0x20 <= (c as u32) < 0x7F ==> r == Some(1usize),
        0x7F <= (c as u32) < 0xA0 ==> r == None::<usize>,
        (c as u32) >= 0xA0 ==> (r is Some && r.unwrap() <= 3),
{
    c.width()
}

/// `String::push` of std: appends one character.
#[verifier::external_body]
pub(crate) fn push_char(s: &mut String, c: char)
    ensures
        final(s)@ == old(s)@.push(c),
{
    s.push(c);
}

/// `String::push_str` of std: appends a string.
#[verifier::external_body]
pub(crate) fn push_str(s: &mut String, t: &str)
    ensures
        final(s)@ == old(s)@ + t@,
{
    s.push_str(t);
}

/// `String::from_utf8` of std on a copy of the bytes: `Some` exactly for valid UTF-8,
/// holding the decoded characters.
#[verifier::external_body]
pub(crate) fn utf8_decode(bytes: &[u8]) -> (r: Option<String>)
    ensures
        r is Some <==> valid_utf8(bytes@),
        r matches Some(s) ==> s@ == decode_utf8(bytes@),
{
    String::from_utf8(bytes.to_vec()).ok()
}

/// What `String::from_utf8_lossy` makes of a byte sequence.
pub uninterp spec fn lossy_utf8(bytes: Seq<u8>) -> Seq<char>;

/// `String::from_utf8_lossy` of std: invalid sequences become U+FFFD; valid UTF-8 is
/// decoded unchanged.
#[verifier::external_body]
pub(crate) fn utf8_lossy(bytes: &[u8]) -> (r: String)
    ensures
        r@ == lossy_utf8(bytes@),
        valid_utf8(bytes@) ==> r@ == decode_utf8(bytes@),
{
    String::from_utf8_lossy(bytes).into_owned()
}

/// The bytes that base64's `STANDARD` engine decodes from `data`, if it accepts it.
pub uninterp spec fn base64_standard_decode(data: Seq<u8>) -> Option<Seq<u8>>;

/// The bytes that base64's `STANDARD_NO_PAD` engine decodes from `data`, if it accepts it.
pub uninterp spec fn base64_no_pad_decode(data: Seq<u8>) -> Option<Seq<u8>>;

/// The text that base64's `STANDARD` engine encodes `data` to.
pub uninterp spec fn base64_standard_encode(data: Seq<u8>) -> Seq<char>;

/// `Engine::decode` of base64 with the padded standard alphabet; the error is dropped.
#[verifier::external_body]
pub(crate) fn base64_decode(data: &[u8]) -> (r: Option<Vec<u8>>)
    ensures
        match r {
            Some(v) => base64_standard_decode(data@) == Some(v@),
            None => base64_standard_decode(data@) is None,
        },
{
    base64::engine::general_purpose::STANDARD.decode(data).ok()
}

/// `Engine::decode` of base64 with the unpadded standard alphabet; the error is dropped.
#[verifier::external_body]
pub(crate) fn base64_decode_no_pad(data: &[u8]) -> (r: Option<Vec<u8>>)
    ensures
        match r {
            Some(v) => base64_no_pad_decode(data@) == Some(v@),
            None => base64_no_pad_decode(data@) is None,
        },
{
    base64::engine::general_purpose::STANDARD_NO_PAD.decode(data).ok()
}

/// The characters of padded standard base64: letters, digits, `+`, `/` and `=`.
pub open spec fn base64_alphabet(c: char) -> bool {
    ('A' <= c && c <= 'Z') || ('a' <= c && c <= 'z') || ('0' <= c && c <= '9') || c == '+' || c == '/' || c == '='
}

/// `Engine::encode` of base64 with the padded standard alphabet. It panics when the
/// encoded length does not fit in `usize`, which `requires` rules out. Claimed besides
/// the named result: the text uses only the alphabet, decoding it with the same engine
/// gives the data back (the crate's round-trip property), and only empty data encodes to
/// empty text.
#[verifier::external_body]
pub(crate) fn base64_encode(data: &[u8]) -> (r: String)
    requires
        (data@.len() / 3) * 4 + 4 <= usize::MAX,
    ensures
        r@ == base64_standard_encode(data@),
        forall|i: int| 0 <= i < r@.len() ==> base64_alphabet(#[trigger] r@[i]),
        base64_standard_decode(vstd::utf8::encode_utf8(r@)) == Some(data@),
        data@.len() > 0 ==> r@.len() > 0,
{
    base64::engine::general_purpose::STANDARD.encode(data)
}

/// The RGBA pixels, width and height the `image` crate decodes from an encoded image.
pub uninterp spec fn image_rgba(data: Seq<u8>) -> Option<(Seq<u8>, u32, u32)>;

/// `image::load_from_memory` followed by conversion to 8-bit RGBA; errors are dropped.
#[verifier::external_body]
pub(crate) fn decode_image_rgba(data: &[u8]) -> (r: Option<(Vec<u8>, u32, u32)>)
    ensures
        match r {
            Some((px, w, h)) => image_rgba(data@) == Some((px@, w, h)),
            None => image_rgba(data@) is None,
        },
{
    match image::load_from_memory(data) {
        Ok(img) => {
            let rgba = img.to_rgba8();
            let w = rgba.width();
            let h = rgba.height();
            Some((rgba.into_raw(), w, h))
        },
        Err(_) => None,
    }
}

/// Whether std's `char::is_alphanumeric` holds (Unicode Alphabetic or Numeric).
pub uninterp spec fn unicode_alphanumeric(c: char) -> bool;

/// `char::is_alphanumeric` of std. For ASCII characters this is exactly the letters
/// and digits.
#[verifier::external_body]
pub(crate) fn char_is_alphanumeric(c: char) -> (r: bool)
    ensures
        r == unicode_alphanumeric(c),
        (c as u32) < 0x80 ==> (r <==> (('a' <= c && c <= 'z') || ('A' <= c && c <= 'Z') || ('0' <= c && c <= '9'))),
{
    c.is_alphanumeric()
}


/// The Unicode White_Space property, which std's `char::is_whitespace` tests: tab to
/// carriage return, space, next line, no-break space, ogham space mark, the spaces from
/// en quad to hair space, line and paragraph separators, narrow no-break space, medium
/// mathematical space and ideographic space.
pub open spec fn unicode_whitespace(c: char) -> bool {
    let u = c as u32;
    ||| 0x09 <= u <= 0x0D
    ||| u == 0x20
    ||| u == 0x85
    ||| u == 0xA0
    ||| u == 0x1680
    ||| 0x2000 <= u <= 0x200A
    ||| u == 0x2028
    ||| u == 0x2029
    ||| u == 0x202F
    ||| u == 0x205F
    ||| u == 0x3000
}

/// `char::is_whitespace` of std: the White_Space property (see
/// [`unicode_whitespace`]).
#[verifier::external_body]
pub(crate) fn char_is_whitespace(c: char) -> (r: bool)
    ensures
        r == unicode_whitespace(c),
        (c as u32) < 0x80 ==> (r <==> (c == ' ' || ('\t' <= c && c <= '\r'))),
{
    c.is_whitespace()
}

/// The last component of a path as `std::path::Path::file_name` gives it on the target
/// the library is built for.
pub uninterp spec fn std_file_name(path: Seq<char>) -> Option<Seq<char>>;

/// A non-empty name that holds no separator or prefix mark of any target (`/`, `\`,
/// `:`) and is neither `.` nor `..`.
pub open spec fn plain_name(s: Seq<char>) -> bool {
    s.len() > 0 && !s.contains('/') && !s.contains('\\') && !s.contains(':') && s != seq!['.'] && s != seq!['.', '.']
}

/// `Path::file_name` of std followed by `OsStr::to_str`: the final component of the
/// path, `None` when the path ends in `..` or has no component (such as `/` or the
/// empty path). A name without `/`, `\` and `:` other than `.` and `..` is its own
/// file name on every target (on Windows `\` also separates and `X:` is a prefix).
#[verifier::external_body]
pub(crate) fn path_file_name(path: &str) -> (r: Option<String>)
    ensures
        match r {
            Some(n) => std_file_name(path@) == Some(n@),
            None => std_file_name(path@) is None,
        },
        plain_name(path@) ==> (r is Some && r.unwrap()@ == path@),
{
    std::path::Path::new(path).file_name().and_then(|n| n.to_str()).map(|n| n.to_string())
}

/// A value of the `toml` crate, carried through without looking inside.
#[verifier::external_type_specification]
#[verifier::external_body]
pub struct ExTomlValue(toml::Value);

/// What `toml::from_str` makes of a settings text: the document as a table, or the
/// parser's error message.
pub uninterp spec fn toml_document(text: Seq<char>) -> Result<ValueView, Seq<char>>;

/// What `toml::to_string_pretty` renders a value as, or the error message where it
/// refuses it.
pub uninterp spec fn toml_pretty(v: ValueView) -> Result<Seq<char>, Seq<char>>;

/// A `toml` value as the library's settings value, entry for entry: strings, integers,
/// booleans, arrays and tables as they are, floats and dates by their text.
#[verifier::external_body]
fn config_of_toml(v: Value) -> ConfigValue {
    match v {
        Value::String(s) => ConfigValue::Text(s),
        Value::Integer(n) => ConfigValue::Integer(n),
        Value::Float(f) => ConfigValue::Float(f.to_string()),
        Value::Boolean(b) => ConfigValue::Boolean(b),
        Value::Datetime(d) => ConfigValue::Date(d.to_string()),
        Value::Array(a) => ConfigValue::Array(a.into_iter().map(config_of_toml).collect()),
        Value::Table(t) => ConfigValue::Table(t.into_iter().map(|(k, x)| (k, config_of_toml(x))).collect()),
    }
}

/// The settings value back as a `toml` value, entry for entry (the inverse of
/// `config_of_toml`); a float or date whose text does not read as one stays a string.
#[verifier::external_body]
fn toml_of_config(v: &ConfigValue) -> Value {
    match v {
        ConfigValue::Text(s) => Value::String(s.clone()),
        ConfigValue::Integer(n) => Value::Integer(*n),
        ConfigValue::Float(t) => t.parse().map(Value::Float).unwrap_or_else(|_| Value::String(t.clone())),
        ConfigValue::Boolean(b) => Value::Boolean(*b),
        ConfigValue::Date(d) => d.parse().map(Value::Datetime).unwrap_or_else(|_| Value::String(d.clone())),
        ConfigValue::Array(a) => Value::Array(a.iter().map(toml_of_config).collect()),
        ConfigValue::Table(t) => Value::Table(t.iter().map(|(k, x)| (k.clone(), toml_of_config(x))).collect()),
    }
}

/// `toml::from_str` of the `toml` crate, reading a settings text as a document (a
/// table). Claimed: the result is the named parse of the text; a parsed document is a
/// table.
#[verifier::external_body]
pub(crate) fn parse_document(text: &str) -> (r: Result<ConfigValue, String>)
    ensures
        match r {
            Ok(v) => toml_document(text@) == Ok::<ValueView, Seq<char>>(value_view(v)) && v is Table,
            Err(e) => toml_document(text@) == Err::<ValueView, Seq<char>>(e@),
        },
{
    match toml::from_str::<toml::Table>(text) {
        Ok(t) => Ok(config_of_toml(toml::Value::Table(t))),
        Err(e) => Err(e.to_string()),
    }
}

/// `toml::to_string_pretty` of the `toml` crate. Claimed: the result is the named
/// rendering of the value, or the crate's error message. The value is handed over as
/// `toml_of_config` converts it, so a float or date whose text does not read as one is
/// rendered as a string; the name covers that too.
#[verifier::external_body]
pub(crate) fn render_document(v: &ConfigValue) -> (r: Result<String, String>)
    ensures
        match r {
            Ok(s) => toml_pretty(value_view(*v)) == Ok::<Seq<char>, Seq<char>>(s@),
            Err(e) => toml_pretty(value_view(*v)) == Err::<Seq<char>, Seq<char>>(e@),
        },
{
    toml::to_string_pretty(&toml_of_config(v)).map_err(|e| e.to_string())
}
} // verus!
