use vstd::prelude::*;

use crate::text::{join_spec, join_with_spaces, remove_char, string_of, views_of, without_char};

verus! {

/// The text of a raw template: the given words joined with spaces, carriage
/// returns dropped; line feeds stay as they are.
pub open spec fn raw_template_text(words: Seq<Seq<char>>) -> Seq<char> {
    without_char(join_spec(words, seq![' ']), '\r')
}

/// The raw template argument parser.
pub struct TemplateRawArg {
    /// The raw template, including headers and MML body.
    pub raw: Vec<String>,
}

impl TemplateRawArg {
    /// The raw template, words joined with spaces and carriage returns
    /// dropped.
    pub fn raw(self) -> (r: String)
        ensures
            r@ == raw_template_text(views_of(self.raw@)),
    {
        let joined = join_with_spaces(&self.raw);
        let stripped = remove_char(&joined, '\r');
        string_of(&stripped, 0, stripped.len())
    }
}

} // verus!
