//! What is decided about a configuration document before it is parsed: in
//! which format it is most likely written.
use vstd::prelude::*;
use vstd::string::*;
use vstd::utf8::encode_utf8;
use crate::config::error::ConfigError;
use crate::text::{bytes_contain, contains_bytes, is_white_space, join2, char_is_white_space};

verus! {

/// The two formats of a configuration document.
#[derive(Debug, Clone, Copy, PartialEq, Eq, Structural)]
pub enum Format {
    Json,
    Yaml,
}

/// The number of characters of white space at the start of a text, among
/// the characters from `from` on.
pub open spec fn leading_space(text: Seq<char>, from: int) -> int
    decreases text.len() - from,
{
    if from < 0 || from >= text.len() || !is_white_space(text[from]) {
        0
    } else {
        1 + leading_space(text, from + 1)
    }
}

/// Whether a document looks like JSON: its first character that is no
/// white space opens an object or a list.
pub open spec fn looks_like_json(content: Seq<char>) -> bool {
    let first = leading_space(content, 0);
    first < content.len() && (content[first] == '{' || content[first] == '[')
}

/// The format in which the parsing of a document is tried first; the other
/// format is tried where the first fails.
pub fn first_guess(content: &str) -> (format: Format)
    ensures
        format == (if looks_like_json(content@) {
            Format::Json
        } else {
            Format::Yaml
        }),
{
    let n: usize = content.unicode_len();
    let mut i: usize = 0;
    while i < n
        invariant
            n == content@.len(),
            i <= n,
            leading_space(content@, 0) == i + leading_space(content@, i as int),
        decreases n - i,
    {
        let c = content.get_char(i);
        if !char_is_white_space(c) {
            if c == '{' || c == '[' {
                return Format::Json;
            }
            return Format::Yaml;
        }
        i += 1;
    }
    Format::Yaml
}

/// The format that a content type asks for: JSON where it names `json`,
/// YAML where it names `yaml` or `yml`, and none where it names neither.
pub open spec fn format_named(content_type: Seq<char>) -> Option<Format> {
    if contains_bytes(encode_utf8(content_type), encode_utf8("json"@)) {
        Some(Format::Json)
    } else if contains_bytes(encode_utf8(content_type), encode_utf8("yaml"@)) || contains_bytes(
        encode_utf8(content_type),
        encode_utf8("yml"@),
    ) {
        Some(Format::Yaml)
    } else {
        None
    }
}

/// The format that a content type asks for.
pub fn format_for_content_type(content_type: &str) -> (format: Option<Format>)
    ensures
        format == format_named(content_type@),
{
    let given = content_type.as_bytes();
    if bytes_contain(given, "json".as_bytes()) {
        Some(Format::Json)
    } else if bytes_contain(given, "yaml".as_bytes()) || bytes_contain(given, "yml".as_bytes()) {
        Some(Format::Yaml)
    } else {
        None
    }
}

/// The other format.
pub fn other_format(format: Format) -> (other: Format)
    ensures
        other != format,
{
    match format {
        Format::Json => Format::Yaml,
        Format::Yaml => Format::Json,
    }
}

/// The text of the error of a document that parses in neither format: what
/// the parser of the format tried first said, then what the other said.
pub open spec fn both_failed_text(first: Format, first_error: Seq<char>, second_error: Seq<char>)
    -> Seq<char> {
    match first {
        Format::Json => "JSON parse error: "@ + first_error + "; YAML parse error: "@
            + second_error,
        Format::Yaml => "YAML parse error: "@ + first_error + "; JSON parse error: "@
            + second_error,
    }
}

/// The error of a document that parses in neither format.
pub fn both_failed(first: Format, first_error: &str, second_error: &str) -> (error: ConfigError)
    ensures
        match error {
            ConfigError::ParseError(reason) => reason@ == both_failed_text(
                first,
                first_error@,
                second_error@,
            ),
            _ => false,
        },
{
    let mut reason = match first {
        Format::Json => join2("JSON parse error: ", first_error),
        Format::Yaml => join2("YAML parse error: ", first_error),
    };
    match first {
        Format::Json => reason.append("; YAML parse error: "),
        Format::Yaml => reason.append("; JSON parse error: "),
    }
    reason.append(second_error);
    ConfigError::ParseError(reason)
}

} // verus!
