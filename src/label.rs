//! Label definitions (`name:`) and the character set of label names.
use vstd::prelude::*;
use crate::instruction::Recognized;
use crate::text::{chars_of, find_char, first_of};

verus! {

/// A character allowed in a label name: `a`-`z`, `_` or `0`-`9`.
pub open spec fn is_label_char(c: char) -> bool {
    ('a' <= c && c <= 'z') || c == '_' || ('0' <= c && c <= '9')
}

/// A non-empty text made of label characters only.
pub open spec fn is_label_name(s: Seq<char>) -> bool {
    s.len() > 0 && forall|i: int| 0 <= i < s.len() ==> is_label_char(#[trigger] s[i])
}

/// The text starts with label characters followed by a `:`.
pub open spec fn starts_label_definition(s: Seq<char>) -> bool {
    exists|i: int|
        0 <= i < s.len() && s[i] == ':' && forall|j: int| 0 <= j < i ==> is_label_char(
            #[trigger] s[j],
        )
}

/// Relies on regex's `Regex::new` and `Regex::is_match`: the pattern `^[a-z_0-9]+$`
/// matches exactly the non-empty texts made of `a`-`z`, `_` and `0`-`9`.
#[verifier::external_body]
pub(crate) fn matches_label_name(text: &str) -> (r: bool)
    ensures
        r == is_label_name(text@),
{
    regex::Regex::new(r"^[a-z_0-9]+$").unwrap().is_match(text)
}

/// Relies on regex's `Regex::new` and `Regex::is_match`: the pattern `^[a-z_0-9]*:`
/// matches exactly the texts that start with `a`-`z`, `_` and `0`-`9` up to a `:`.
#[verifier::external_body]
fn matches_label_definition(text: &str) -> (r: bool)
    ensures
        r == starts_label_definition(text@),
{
    regex::Regex::new(r"^[a-z_0-9]*:").unwrap().is_match(text)
}

/// A label defined at the current address by a `name:` line.
#[derive(Debug)]
pub struct Label {
    pub name: String,
}

impl View for Label {
    type V = Seq<char>;

    open spec fn view(&self) -> Seq<char> {
        self.name@
    }
}

/// What the label recognizer makes of a line: the text before the first `:`.
pub open spec fn label_spec(line: Seq<char>) -> Recognized<Seq<char>> {
    if starts_label_definition(line) {
        match first_of(line, ':') {
            Some(i) => Recognized::Found(line.subrange(0, i)),
            None => Recognized::Malformed,
        }
    } else {
        Recognized::NotThis
    }
}

impl Label {
    /// Recognizes a `name:` line; `Ok(None)` for any other line.
    pub fn new(line: &str) -> (r: Result<Option<Label>, String>)
        ensures
            r is Ok,
            crate::instruction::recognized(r) == label_spec(line@),
    {
        if !matches_label_definition(line) {
            return Ok(None);
        }
        let v = chars_of(line);
        let n = v.len();
        assert(v@.subrange(0, n as int) == v@);
        match find_char(&v, 0, n, ':') {
            Some(i) => Ok(Some(Label { name: String::from_str(line.substring_char(0, i)) })),
            None => {
                proof {
                    let k = choose|k: int|
                        0 <= k < v@.len() && v@[k] == ':' && forall|j: int|
                            0 <= j < k ==> is_label_char(#[trigger] v@[j]);
                    assert(crate::text::is_first(v@, ':', k));
                }
                Ok(None)
            },
        }
    }
}

} // verus!
