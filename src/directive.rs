//! Directives: lines that start with `.` and steer assembly rather than emit code.
use vstd::prelude::*;
use crate::instruction::{recognized, Recognized};
use crate::label::{is_label_name, matches_label_name};
use crate::literal::{literal_value, parse_number, within};
use crate::text::{chars_of, lemma_split_first, same_chars, split_all, split_bounds};

verus! {

/// A directive: `.org <addr>`, `.include "<path>"` or `.label <name> <addr>`.
#[derive(Debug)]
pub enum Flag {
    Org(u16),
    Include(String),
    Label((String, u16)),
}

/// A directive as a mathematical value.
pub enum FlagModel {
    Org(u16),
    Include(Seq<char>),
    Label(Seq<char>, u16),
}

impl View for Flag {
    type V = FlagModel;

    open spec fn view(&self) -> FlagModel {
        match self {
            Flag::Org(a) => FlagModel::Org(*a),
            Flag::Include(p) => FlagModel::Include(p@),
            Flag::Label((n, a)) => FlagModel::Label(n@, *a),
        }
    }
}

impl PartialEq for Flag {
    fn eq(&self, other: &Flag) -> (r: bool) {
        match (self, other) {
            (Flag::Org(a), Flag::Org(b)) => *a == *b,
            (Flag::Include(p), Flag::Include(q)) => p.eq(q),
            (Flag::Label((n, a)), Flag::Label((m, b))) => *a == *b && n.eq(m),
            _ => false,
        }
    }
}

impl vstd::std_specs::cmp::PartialEqSpecImpl for Flag {
    open spec fn obeys_eq_spec() -> bool {
        true
    }

    open spec fn eq_spec(&self, other: &Flag) -> bool {
        self@ == other@
    }
}

/// Wrapped in double quotes, with room for them.
pub open spec fn is_quoted(s: Seq<char>) -> bool {
    s.len() >= 2 && s[0] == '"' && s.last() == '"'
}

/// What the directive recognizer makes of a line. The words are separated by single
/// spaces; the first one, after its `.`, is the keyword.
pub open spec fn flag_spec(line: Seq<char>) -> Recognized<FlagModel> {
    if !(line.len() > 0 && line[0] == '.') {
        Recognized::NotThis
    } else {
        let parts = split_all(line, ' ');
        let kw = parts[0].drop_first();
        if kw == "org"@ && parts.len() == 2 {
            match within(literal_value(parts[1]), 65535) {
                Some(a) => Recognized::Found(FlagModel::Org(a as u16)),
                None => Recognized::Malformed,
            }
        } else if kw == "include"@ && parts.len() == 2 && is_quoted(parts[1]) {
            Recognized::Found(FlagModel::Include(parts[1].subrange(1, parts[1].len() - 1)))
        } else if kw == "label"@ && parts.len() == 3 && is_label_name(parts[1]) {
            match within(literal_value(parts[2]), 65535) {
                Some(a) => Recognized::Found(FlagModel::Label(parts[1], a as u16)),
                None => Recognized::Malformed,
            }
        } else {
            Recognized::Malformed
        }
    }
}

impl Flag {
    /// Recognizes a directive line. `Ok(None)` when the line does not start with `.`;
    /// `Err` for an unknown keyword or arguments that do not fit it.
    pub fn new(line: &str) -> (r: Result<Option<Flag>, String>)
        ensures
            recognized(r) == flag_spec(line@),
    {
        let v = chars_of(line);
        let n = v.len();
        if n == 0 || v[0] != '.' {
            return Ok(None);
        }
        assert(v@.subrange(0, n as int) == v@);
        let parts = split_bounds(&v, 0, n, ' ');
        let ghost words = split_all(line@, ' ');
        proof {
            lemma_split_first(line@, ' ');
        }
        let (a0, b0) = parts[0];
        assert(words[0].drop_first() == v@.subrange(a0 + 1, b0 as int));
        if same_chars(&v, a0 + 1, b0, "org") && parts.len() == 2 {
            let (a, b) = parts[1];
            match parse_number::<u16>(line.substring_char(a, b)) {
                Some(addr) => Ok(Some(Flag::Org(addr))),
                None => Err(String::from_str("cannot parse address")),
            }
        } else if same_chars(&v, a0 + 1, b0, "include") && parts.len() == 2 && parts[1].1
            - parts[1].0 >= 2 && v[parts[1].0] == '"' && v[parts[1].1 - 1] == '"' {
            let (a, b) = parts[1];
            assert(words[1].subrange(1, words[1].len() - 1) == v@.subrange(a + 1, b - 1));
            Ok(Some(Flag::Include(String::from_str(line.substring_char(a + 1, b - 1)))))
        } else if same_chars(&v, a0 + 1, b0, "label") && parts.len() == 3 && matches_label_name(
            line.substring_char(parts[1].0, parts[1].1),
        ) {
            let (a, b) = parts[1];
            let (c, d) = parts[2];
            match parse_number::<u16>(line.substring_char(c, d)) {
                Some(addr) => Ok(
                    Some(Flag::Label((String::from_str(line.substring_char(a, b)), addr))),
                ),
                None => Err(String::from_str("cannot parse address")),
            }
        } else {
            Err(String::from_str("unknown directive or wrong arguments"))
        }
    }
}

} // verus!
