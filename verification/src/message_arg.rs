use vstd::prelude::*;

use crate::text::{
    chars_of, crlf_string, find_char, join_spec, join_with_spaces, lemma_first_index_of,
    lf_to_crlf, remove_char, split_once_spec, string_of, trim_bounds, trim_spec, views_of,
    without_char,
};

verus! {

/// The text of a raw message: the given words joined with spaces, carriage
/// returns dropped, then every line feed turned into CRLF.
pub open spec fn raw_message_text(words: Seq<Seq<char>>) -> Seq<char> {
    lf_to_crlf(without_char(join_spec(words, seq![' ']), '\r'))
}

/// The raw message argument parser.
pub struct MessageRawArg {
    /// The raw message, including headers and body.
    pub raw: Vec<String>,
}

impl MessageRawArg {
    /// The raw message, words joined with spaces and line endings made CRLF.
    pub fn raw(self) -> (r: String)
        ensures
            r@ == raw_message_text(views_of(self.raw@)),
    {
        let joined = join_with_spaces(&self.raw);
        let stripped = remove_char(&joined, '\r');
        crlf_string(&stripped)
    }
}

/// The raw message body argument parser.
pub struct MessageRawBodyArg {
    /// Prefill the template with a custom body.
    pub raw: Vec<String>,
}

impl MessageRawBodyArg {
    /// The raw body, words joined with spaces and line endings made CRLF.
    pub fn raw(self) -> (r: String)
        ensures
            r@ == raw_message_text(views_of(self.raw@)),
    {
        let joined = join_with_spaces(&self.raw);
        let stripped = remove_char(&joined, '\r');
        crlf_string(&stripped)
    }
}

impl core::ops::Deref for MessageRawBodyArg {
    type Target = Vec<String>;

    fn deref(&self) -> (r: &Vec<String>)
        ensures
            *r == self.raw,
    {
        &self.raw
    }
}

/// The raw headers argument parser.
pub struct HeaderRawArgs {
    /// Prefill the template with custom headers, each `KEY:VAL`.
    pub raw: Vec<(String, String)>,
}

/// The error text of a raw header that holds no colon, given the header
/// as `{:?}` writes it.
pub open spec fn header_error_text(quoted: Seq<char>) -> Seq<char> {
    "cannot parse raw header "@ + quoted
}

/// What `{:?}` writes for a string slice: the string quoted, with escapes.
pub uninterp spec fn str_debug_text(s: Seq<char>) -> Seq<char>;

/// The string as `Debug` writes it, from `format!("{s:?}")`.
///
/// Taken on trust only that the text depends on the string alone; how it is
/// quoted and escaped is left unsaid.
#[verifier::external_body]
fn debug_text(s: &str) -> (r: String)
    ensures
        r@ == str_debug_text(s@),
{
    format!("{s:?}")
}

/// The error message for a raw header without a colon, from the header as
/// `{:?}` writes it.
pub fn header_error_message(quoted: &str) -> (r: String)
    ensures
        r@ == header_error_text(quoted@),
{
    let mut r = String::from_str("cannot parse raw header ");
    r.append(quoted);
    r
}

/// Parses a raw header `KEY:VAL`: split at the first colon, both halves
/// trimmed.
pub fn raw_header_parser(raw_header: &str) -> (r: Result<(String, String), String>)
    ensures
        match split_once_spec(raw_header@, ':') {
            Some((key, val)) => r matches Ok((k, v)) && k@ == trim_spec(key) && v@ == trim_spec(val),
            None => r matches Err(e) && e@ == header_error_text(str_debug_text(raw_header@)),
        },
{
    let v = chars_of(raw_header);
    let n = v.len();
    let i = find_char(&v, 0, n, ':');
    proof {
        assert(v@.subrange(0, n as int) == v@);
        lemma_first_index_of(v@, ':');
    }
    if i < n {
        let (ka, kb) = trim_bounds(&v, 0, i);
        let (va, vb) = trim_bounds(&v, i + 1, n);
        proof {
            assert(v@.subrange(0, i as int) == v@.take(i as int));
            assert(v@.subrange(i + 1, n as int) == v@.skip(i + 1));
        }
        Ok((string_of(&v, ka, kb), string_of(&v, va, vb)))
    } else {
        let quoted = debug_text(raw_header);
        Err(header_error_message(quoted.as_str()))
    }
}

} // verus!
