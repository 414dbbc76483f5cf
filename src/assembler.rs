//! The assembly driver: the first pass over the lines of a file and of the files it
//! includes, then label resolution, giving the program's address map and byte image.
//!
//! Errors are strict: the first malformed line, missing file, address past the top of
//! memory or undefined label ends the assembly.
use vstd::prelude::*;
use crate::directive::{Flag, FlagModel};
use crate::image::{
    ascending, build_image, code_view, compact, compact_code, compact_upto, entries_span,
    first_unresolved, fits, image, label_lookup, labels_view, lemma_resolve_all_shape,
    resolve_all, resolve_entries, resolve_one, span_of,
};
use crate::instruction::{Instruction, InstructionModel, LinkedDataModel, Recognized};
use crate::lexer::{lex_line, lex_spec, trim_line_spec, TokenModel, TokenType};
use crate::source::{file_lookup, SourceFiles};
use crate::text::{chars_of, is_first, split_all, split_bounds};

verus! {

/// How deep includes may nest; a file that includes itself fails at this depth.
pub const MAX_INCLUDE_DEPTH: usize = 32;

/// Why an assembly failed. Line numbers count from 1.
#[derive(Debug)]
pub enum AssemblyError {
    Syntax { path: String, line: usize, message: String },
    MissingFile { path: String },
    IncludeTooDeep { path: String },
    AddressOverflow { path: String, line: usize },
    UnresolvedLabel { name: String },
    ImageTooLarge,
}

/// An assembly error as a mathematical value; messages are left out.
pub enum ErrorModel {
    Syntax(Seq<char>, nat),
    MissingFile(Seq<char>),
    IncludeTooDeep(Seq<char>),
    AddressOverflow(Seq<char>, nat),
    UnresolvedLabel(Seq<char>),
    ImageTooLarge,
}

impl View for AssemblyError {
    type V = ErrorModel;

    open spec fn view(&self) -> ErrorModel {
        match self {
            AssemblyError::Syntax { path, line, .. } => ErrorModel::Syntax(path@, *line as nat),
            AssemblyError::MissingFile { path } => ErrorModel::MissingFile(path@),
            AssemblyError::IncludeTooDeep { path } => ErrorModel::IncludeTooDeep(path@),
            AssemblyError::AddressOverflow { path, line } => ErrorModel::AddressOverflow(
                path@,
                *line as nat,
            ),
            AssemblyError::UnresolvedLabel { name } => ErrorModel::UnresolvedLabel(name@),
            AssemblyError::ImageTooLarge => ErrorModel::ImageTooLarge,
        }
    }
}

/// The state of the first pass: the address cursor, the instructions placed so far
/// (in the order they were placed) and the labels defined so far. The cursor reaches
/// 65536 when an instruction ends at `$FFFF`; nothing can be placed there.
pub struct PassModel {
    pub cursor: nat,
    pub code: Seq<(u16, InstructionModel)>,
    pub labels: Seq<(Seq<char>, u16)>,
}

/// `i` is the position of the last `c` in `s`.
pub open spec fn is_last(s: Seq<char>, c: char, i: int) -> bool {
    0 <= i < s.len() && s[i] == c && forall|j: int| i < j < s.len() ==> s[j] != c
}

/// The path an include names, taken relative to the directory of the including file;
/// an absolute path stands as it is.
pub open spec fn include_path(including: Seq<char>, target: Seq<char>) -> Seq<char> {
    if target.len() > 0 && target[0] == '/' {
        target
    } else if exists|k: int| is_last(including, '/', k) {
        including.subrange(0, (choose|k: int| is_last(including, '/', k)) + 1) + target
    } else {
        target
    }
}

/// The first pass over one file, with its first instruction placed at `base`.
pub open spec fn file_pass(
    files: Seq<(Seq<char>, Seq<char>)>,
    path: Seq<char>,
    base: u16,
    depth: nat,
) -> Result<PassModel, ErrorModel>
    decreases depth, 1nat, 0nat,
{
    if depth == 0 {
        Err(ErrorModel::IncludeTooDeep(path))
    } else {
        match file_lookup(files, path) {
            None => Err(ErrorModel::MissingFile(path)),
            Some(text) => run_lines(
                files,
                path,
                depth,
                split_all(text, '\n'),
                0,
                PassModel { cursor: base as nat, code: seq![], labels: seq![] },
            ),
        }
    }
}

/// The first pass over the lines of a file from line `i` on.
pub open spec fn run_lines(
    files: Seq<(Seq<char>, Seq<char>)>,
    path: Seq<char>,
    depth: nat,
    lines: Seq<Seq<char>>,
    i: nat,
    st: PassModel,
) -> Result<PassModel, ErrorModel>
    decreases depth, 0nat, lines.len() - i,
{
    if i >= lines.len() {
        Ok(st)
    } else {
        let next: Result<PassModel, ErrorModel> = match lex_spec(lines[i as int]) {
            Recognized::NotThis => Ok(st),
            Recognized::Malformed => Err(ErrorModel::Syntax(path, i + 1)),
            Recognized::Found(TokenModel::Instruction(ins)) => if st.cursor > 65535 || st.cursor
                + ins.size > 65536 {
                Err(ErrorModel::AddressOverflow(path, i + 1))
            } else {
                Ok(
                    PassModel {
                        cursor: st.cursor + ins.size as nat,
                        code: st.code.push((st.cursor as u16, ins)),
                        labels: st.labels,
                    },
                )
            },
            Recognized::Found(TokenModel::Label(name)) => if st.cursor > 65535 {
                Err(ErrorModel::AddressOverflow(path, i + 1))
            } else {
                Ok(PassModel { labels: st.labels.push((name, st.cursor as u16)), ..st })
            },
            Recognized::Found(TokenModel::Flag(FlagModel::Org(a))) => Ok(
                PassModel { cursor: a as nat, ..st },
            ),
            Recognized::Found(TokenModel::Flag(FlagModel::Label(name, a))) => Ok(
                PassModel { labels: st.labels.push((name, a)), ..st },
            ),
            Recognized::Found(TokenModel::Flag(FlagModel::Include(target))) => {
                let sub_path = include_path(path, target);
                if depth <= 1 {
                    Err(ErrorModel::IncludeTooDeep(sub_path))
                } else if st.cursor > 65535 {
                    Err(ErrorModel::AddressOverflow(path, i + 1))
                } else {
                    match file_pass(files, sub_path, st.cursor as u16, (depth - 1) as nat) {
                        Err(e) => Err(e),
                        Ok(sub) => {
                            let span = entries_span(compact(sub.code));
                            if st.cursor + span > 65536 {
                                Err(ErrorModel::AddressOverflow(path, i + 1))
                            } else {
                                Ok(
                                    PassModel {
                                        cursor: (st.cursor + span) as nat,
                                        code: st.code + sub.code,
                                        labels: st.labels + sub.labels,
                                    },
                                )
                            }
                        },
                    }
                }
            },
        };
        match next {
            Ok(st2) => run_lines(files, path, depth, lines, i + 1, st2),
            Err(e) => Err(e),
        }
    }
}

/// The whole assembly of the file at `path`: the first pass from address 0, then the
/// address map with every label operand resolved. A program that fills all 65536
/// addresses has a span that a 16-bit size cannot hold, and is refused.
pub open spec fn assemble_spec(files: Seq<(Seq<char>, Seq<char>)>, path: Seq<char>) -> Result<
    Seq<(u16, InstructionModel)>,
    ErrorModel,
> {
    match file_pass(files, path, 0, MAX_INCLUDE_DEPTH as nat) {
        Err(e) => Err(e),
        Ok(st) => match first_unresolved(compact(st.code), st.labels) {
            Some(name) => Err(ErrorModel::UnresolvedLabel(name)),
            None => if entries_span(compact(st.code)) > 65535 {
                Err(ErrorModel::ImageTooLarge)
            } else {
                Ok(resolve_all(compact(st.code), st.labels))
            },
        },
    }
}

proof fn lemma_unresolved_found(
    e: Seq<(u16, InstructionModel)>,
    labels: Seq<(Seq<char>, u16)>,
    i: int,
)
    requires
        0 <= i < e.len(),
        resolve_one(e[i].1, labels) is None,
    ensures
        first_unresolved(e, labels) is Some,
    decreases e.len(),
{
    if i > 0 && resolve_one(e[0].1, labels) is Some {
        assert(e.drop_first()[i - 1] == e[i]);
        lemma_unresolved_found(e.drop_first(), labels, i - 1);
    }
}

/// Labels are resolved against the whole program's table: a label operand takes the
/// address its label was last defined at, whether the definition comes before or after
/// the use and in whichever file; when a label is defined nowhere, the assembly fails
/// with an undefined label.
pub proof fn lemma_label_resolution(files: Seq<(Seq<char>, Seq<char>)>, path: Seq<char>, i: int)
    requires
        file_pass(files, path, 0, MAX_INCLUDE_DEPTH as nat) is Ok,
        0 <= i < compact(file_pass(files, path, 0, MAX_INCLUDE_DEPTH as nat)->Ok_0.code).len(),
    ensures
        ({
            let st = file_pass(files, path, 0, MAX_INCLUDE_DEPTH as nat)->Ok_0;
            let e = compact(st.code);
            let r = assemble_spec(files, path);
            match e[i].1.linked_data {
                Some(LinkedDataModel::NotResolvedRelative(n)) => match label_lookup(st.labels, n) {
                    Some(a) => r is Ok ==> r->Ok_0[i] == (
                        e[i].0,
                        InstructionModel { linked_data: Some(LinkedDataModel::Relative(a)), ..e[i].1 },
                    ),
                    None => r is Err && r->Err_0 is UnresolvedLabel,
                },
                _ => r is Ok ==> r->Ok_0[i] == e[i],
            }
        }),
        assemble_spec(files, path) is Ok ==> forall|j: int|
            0 <= j < assemble_spec(files, path)->Ok_0.len() ==> !((#[trigger] assemble_spec(
                files,
                path,
            )->Ok_0[j]).1.linked_data matches Some(LinkedDataModel::NotResolvedRelative(_))),
{
    let st = file_pass(files, path, 0, MAX_INCLUDE_DEPTH as nat)->Ok_0;
    let e = compact(st.code);
    if resolve_one(e[i].1, st.labels) is None {
        lemma_unresolved_found(e, st.labels, i);
    }
    let r = assemble_spec(files, path);
    if r is Ok {
        assert forall|j: int| 0 <= j < r->Ok_0.len() implies !((#[trigger] r->Ok_0[j]).1.linked_data
            matches Some(LinkedDataModel::NotResolvedRelative(_))) by {
            if resolve_one(e[j].1, st.labels) is None {
                lemma_unresolved_found(e, st.labels, j);
            }
        }
    }
}

/// An include places the included file's instructions from the current cursor on,
/// then advances the cursor by exactly their byte span; the included file's labels join
/// the includer's table, so the lines after the include see them.
pub proof fn lemma_include_step(
    files: Seq<(Seq<char>, Seq<char>)>,
    path: Seq<char>,
    depth: nat,
    lines: Seq<Seq<char>>,
    i: nat,
    st: PassModel,
    target: Seq<char>,
)
    requires
        i < lines.len(),
        depth > 1,
        lex_spec(lines[i as int]) == Recognized::Found(TokenModel::Flag(FlagModel::Include(target))),
        st.cursor <= 65535,
        file_pass(files, include_path(path, target), st.cursor as u16, (depth - 1) as nat) is Ok,
        st.cursor + entries_span(
            compact(file_pass(files, include_path(path, target), st.cursor as u16, (depth - 1) as nat)->Ok_0.code),
        ) <= 65536,
    ensures
        ({
            let sub = file_pass(files, include_path(path, target), st.cursor as u16, (depth - 1) as nat)->Ok_0;
            run_lines(files, path, depth, lines, i, st) == run_lines(
                files,
                path,
                depth,
                lines,
                i + 1,
                PassModel {
                    cursor: (st.cursor + entries_span(compact(sub.code))) as nat,
                    code: st.code + sub.code,
                    labels: st.labels + sub.labels,
                },
            )
        }),
{
}

/// A line without a directive: blank, an instruction, or a `name:` label.
pub open spec fn plain_line(l: Seq<char>) -> bool {
    match lex_spec(l) {
        Recognized::NotThis => true,
        Recognized::Found(TokenModel::Instruction(_)) => true,
        Recognized::Found(TokenModel::Label(_)) => true,
        _ => false,
    }
}

/// The instructions of the lines from `i` on, in order.
pub open spec fn line_instructions(lines: Seq<Seq<char>>, i: nat) -> Seq<InstructionModel>
    decreases lines.len() - i,
{
    if i >= lines.len() {
        seq![]
    } else {
        let rest = line_instructions(lines, i + 1);
        match lex_spec(lines[i as int]) {
            Recognized::Found(TokenModel::Instruction(ins)) => seq![ins] + rest,
            _ => rest,
        }
    }
}

/// Instructions laid end to end from address `c`: each at the address where the one
/// before it ends.
pub open spec fn layout(ins: Seq<InstructionModel>, c: nat) -> Seq<(u16, InstructionModel)>
    decreases ins.len(),
{
    if ins.len() == 0 {
        seq![]
    } else {
        seq![(c as u16, ins[0])] + layout(ins.drop_first(), c + ins[0].size as nat)
    }
}

/// Over lines without directives, the first pass lays the instructions end to end from
/// the cursor it starts with.
pub proof fn lemma_plain_lines_layout(
    files: Seq<(Seq<char>, Seq<char>)>,
    path: Seq<char>,
    depth: nat,
    lines: Seq<Seq<char>>,
    i: nat,
    st: PassModel,
)
    requires
        forall|j: int| i <= j < lines.len() ==> plain_line(#[trigger] lines[j]),
        run_lines(files, path, depth, lines, i, st) is Ok,
    ensures
        run_lines(files, path, depth, lines, i, st)->Ok_0.code == st.code + layout(
            line_instructions(lines, i),
            st.cursor,
        ),
    decreases lines.len() - i,
{
    if i >= lines.len() {
        assert(st.code + layout(seq![], st.cursor) =~= st.code);
    } else {
        assert(plain_line(lines[i as int]));
        match lex_spec(lines[i as int]) {
            Recognized::Found(TokenModel::Instruction(ins)) => {
                let st2 = PassModel {
                    cursor: st.cursor + ins.size as nat,
                    code: st.code.push((st.cursor as u16, ins)),
                    labels: st.labels,
                };
                lemma_plain_lines_layout(files, path, depth, lines, i + 1, st2);
                let rest = line_instructions(lines, i + 1);
                assert((seq![ins] + rest).drop_first() =~= rest);
                assert(layout(seq![ins] + rest, st.cursor) == seq![(st.cursor as u16, ins)]
                    + layout(rest, st.cursor + ins.size as nat));
                assert(st2.code + layout(rest, st2.cursor) =~= st.code + layout(
                    seq![ins] + rest,
                    st.cursor,
                ));
            },
            Recognized::Found(TokenModel::Label(name)) => {
                let st2 = PassModel { labels: st.labels.push((name, st.cursor as u16)), ..st };
                lemma_plain_lines_layout(files, path, depth, lines, i + 1, st2);
            },
            _ => {
                lemma_plain_lines_layout(files, path, depth, lines, i + 1, st);
            },
        }
    }
}

/// A file without directives, read from `base` (the cursor of the include that reads
/// it), places its first instruction at `base` and each next one where the one before
/// it ends.
pub proof fn lemma_file_placed_from_base(
    files: Seq<(Seq<char>, Seq<char>)>,
    path: Seq<char>,
    base: u16,
    depth: nat,
)
    requires
        file_pass(files, path, base, depth) is Ok,
        file_lookup(files, path) is Some,
        forall|j: int|
            0 <= j < split_all(file_lookup(files, path)->0, '\n').len() ==> plain_line(
                #[trigger] split_all(file_lookup(files, path)->0, '\n')[j],
            ),
    ensures
        file_pass(files, path, base, depth)->Ok_0.code == layout(
            line_instructions(split_all(file_lookup(files, path)->0, '\n'), 0),
            base as nat,
        ),
{
    let lines = split_all(file_lookup(files, path)->0, '\n');
    let init = PassModel { cursor: base as nat, code: seq![], labels: seq![] };
    lemma_plain_lines_layout(files, path, depth, lines, 0, init);
    assert(init.code + layout(line_instructions(lines, 0), base as nat) =~= layout(
        line_instructions(lines, 0),
        base as nat,
    ));
}

/// After an include merges the tables, a label is looked up in the included file's
/// labels first, then in the includer's: the included file's labels are visible to the
/// includer and win over earlier definitions of the same name.
pub proof fn lemma_merged_labels(
    outer: Seq<(Seq<char>, u16)>,
    inner: Seq<(Seq<char>, u16)>,
    name: Seq<char>,
)
    ensures
        label_lookup(outer + inner, name) == match label_lookup(inner, name) {
            Some(a) => Some(a),
            None => label_lookup(outer, name),
        },
    decreases inner.len(),
{
    if inner.len() == 0 {
        assert(outer + inner =~= outer);
    } else {
        assert((outer + inner).drop_last() =~= outer + inner.drop_last());
        lemma_merged_labels(outer, inner.drop_last(), name);
    }
}

proof fn lemma_compact_empty(n: nat)
    ensures
        compact_upto(Seq::<(u16, InstructionModel)>::empty(), n) == Seq::<(u16, InstructionModel)>::empty(),
    decreases n,
{
    if n > 0 {
        lemma_compact_empty((n - 1) as nat);
    }
}

/// An empty source assembles, into an empty program whose image is empty.
pub proof fn lemma_empty_source(files: Seq<(Seq<char>, Seq<char>)>, path: Seq<char>)
    requires
        file_lookup(files, path) == Some(Seq::<char>::empty()),
    ensures
        assemble_spec(files, path) == Ok::<Seq<(u16, InstructionModel)>, ErrorModel>(seq![]),
        entries_span(seq![]) == 0,
        image(seq![]) == Seq::<u8>::empty(),
{
    let empty = Seq::<char>::empty();
    assert(!exists|k: int| is_first(empty, '\n', k));
    assert(split_all(empty, '\n') == seq![empty]);
    assert(!exists|k: int| is_first(empty, ';', k));
    assert(trim_line_spec(empty) == empty);
    let init = PassModel { cursor: 0, code: seq![], labels: seq![] };
    let lines = seq![empty];
    assert(run_lines(files, path, MAX_INCLUDE_DEPTH as nat, lines, 1, init) == Ok::<PassModel, ErrorModel>(init));
    assert(run_lines(files, path, MAX_INCLUDE_DEPTH as nat, lines, 0, init) == Ok::<PassModel, ErrorModel>(init));
    lemma_compact_empty(65536);
    assert(resolve_all(seq![], init.labels) =~= seq![]);
    assert(image(seq![]) =~= Seq::<u8>::empty());
}

/// The first pass's state.
struct Pass {
    cursor: u32,
    code: Vec<(u16, Instruction)>,
    labels: Vec<(String, u16)>,
}

impl View for Pass {
    type V = PassModel;

    closed spec fn view(&self) -> PassModel {
        PassModel {
            cursor: self.cursor as nat,
            code: code_view(self.code@),
            labels: labels_view(self.labels@),
        }
    }
}

/// Resolves `target` against the directory of `including`.
fn join_include(including: &String, target: &String) -> (r: String)
    ensures
        r@ == include_path(including@, target@),
{
    let t = chars_of(target.as_str());
    if t.len() > 0 && t[0] == '/' {
        return target.clone();
    }
    let v = chars_of(including.as_str());
    let mut k: usize = v.len();
    while k > 0
        invariant
            k <= v@.len(),
            v@ == including@,
            !(target@.len() > 0 && target@[0] == '/'),
            forall|j: int| k <= j < v@.len() ==> v@[j] != '/',
        decreases k,
    {
        if v[k - 1] == '/' {
            proof {
                assert(is_last(including@, '/', k - 1));
                let c = choose|c: int| is_last(including@, '/', c);
                if c < k - 1 {
                    assert(v@[k - 1] != '/');
                } else if c > k - 1 {
                    assert(v@[c] != '/');
                }
            }
            let dir = String::from_str(including.as_str().substring_char(0, k));
            return dir.concat(target.as_str());
        }
        k = k - 1;
    }
    target.clone()
}


/// The first pass over the file at `path`, placing its first instruction at `base`.
fn file_pass_exec(files: &SourceFiles, path: &String, base: u16, depth: usize) -> (r: Result<
    Pass,
    AssemblyError,
>)
    ensures
        match r {
            Ok(st) => file_pass(files@, path@, base, depth as nat) == Ok::<PassModel, ErrorModel>(st@) && fits(st@.code),
            Err(e) => file_pass(files@, path@, base, depth as nat) == Err::<PassModel, ErrorModel>(e@),
        },
    decreases depth,
{
    if depth == 0 {
        return Err(AssemblyError::IncludeTooDeep { path: path.clone() });
    }
    let text = match files.get(path) {
        Some(t) => t,
        None => {
            return Err(AssemblyError::MissingFile { path: path.clone() });
        },
    };
    let v = chars_of(text.as_str());
    let n = v.len();
    assert(v@.subrange(0, n as int) == v@);
    let bounds = split_bounds(&v, 0, n, '\n');
    let ghost lines = split_all(text@, '\n');
    let mut st = Pass { cursor: base as u32, code: Vec::new(), labels: Vec::new() };
    let ghost init = PassModel { cursor: base as nat, code: seq![], labels: seq![] };
    assert(st@.code =~= init.code);
    assert(st@.labels =~= init.labels);
    assert(st@ == init);
    let mut i: usize = 0;
    while i < bounds.len()
        invariant
            depth > 0,
            v@ == text@,
            n == v@.len(),
            lines == split_all(text@, '\n'),
            bounds@.len() == lines.len(),
            forall|j: int|
                0 <= j < bounds@.len() ==> 0 <= #[trigger] bounds@[j].0 <= bounds@[j].1 <= n
                    && v@.subrange(bounds@[j].0 as int, bounds@[j].1 as int) == lines[j],
            file_pass(files@, path@, base, depth as nat) == run_lines(
                files@,
                path@,
                depth as nat,
                lines,
                i as nat,
                st@,
            ),
            fits(st@.code),
            st.cursor <= 65536,
        decreases bounds@.len() - i,
    {
        let (a, b) = bounds[i];
        let line = text.as_str().substring_char(a, b);
        assert(line@ == lines[i as int]);
        let ghost before = st@;
        match lex_line(line) {
            Err(message) => {
                return Err(AssemblyError::Syntax { path: path.clone(), line: i + 1, message });
            },
            Ok(None) => {},
            Ok(Some(TokenType::Instruction(ins))) => {
                if st.cursor > 65535 || st.cursor + ins.size as u32 > 65536 {
                    return Err(AssemblyError::AddressOverflow { path: path.clone(), line: i + 1 });
                }
                let at = st.cursor as u16;
                st.cursor = st.cursor + ins.size as u32;
                st.code.push((at, ins));
                assert(st@.code =~= before.code.push((at, ins@)));
            },
            Ok(Some(TokenType::Label(label))) => {
                if st.cursor > 65535 {
                    return Err(AssemblyError::AddressOverflow { path: path.clone(), line: i + 1 });
                }
                let at = st.cursor as u16;
                st.labels.push((label.name, at));
                assert(st@.labels =~= before.labels.push((label@, at)));
            },
            Ok(Some(TokenType::Flag(Flag::Org(a)))) => {
                st.cursor = a as u32;
            },
            Ok(Some(TokenType::Flag(Flag::Label((name, a))))) => {
                let ghost nv = name@;
                st.labels.push((name, a));
                assert(st@.labels =~= before.labels.push((nv, a)));
            },
            Ok(Some(TokenType::Flag(Flag::Include(target)))) => {
                let sub_path = join_include(path, &target);
                if depth <= 1 {
                    return Err(AssemblyError::IncludeTooDeep { path: sub_path });
                }
                if st.cursor > 65535 {
                    return Err(AssemblyError::AddressOverflow { path: path.clone(), line: i + 1 });
                }
                let sub = match file_pass_exec(files, &sub_path, st.cursor as u16, depth - 1) {
                    Ok(sub) => sub,
                    Err(e) => {
                        return Err(e);
                    },
                };
                let ghost sv = sub@;
                let compacted = compact_code(&sub.code);
                let span = span_of(&compacted);
                if st.cursor + span > 65536 {
                    return Err(AssemblyError::AddressOverflow { path: path.clone(), line: i + 1 });
                }
                st.cursor = st.cursor + span;
                let mut code = sub.code;
                let mut labels = sub.labels;
                st.code.append(&mut code);
                st.labels.append(&mut labels);
                assert(st@.code =~= before.code + sv.code);
                assert(st@.labels =~= before.labels + sv.labels);
            },
        }
        i = i + 1;
    }
    Ok(st)
}

/// An assembled program: one instruction per address, in increasing address order,
/// with every label operand resolved.
pub struct IntermediateRepresentation {
    instructions: Vec<(u16, Instruction)>,
}

impl View for IntermediateRepresentation {
    type V = Seq<(u16, InstructionModel)>;

    closed spec fn view(&self) -> Seq<(u16, InstructionModel)> {
        code_view(self.instructions@)
    }
}

impl IntermediateRepresentation {
    /// Addresses increase, every instruction ends within the address space, and the
    /// span fits in 16 bits.
    pub open spec fn wf(&self) -> bool {
        ascending(self@) && fits(self@) && entries_span(self@) <= 65535
    }

    /// Assembles the file at `path`, reading it and the files it includes from `files`.
    pub fn new(path: &str, files: &SourceFiles) -> (r: Result<IntermediateRepresentation, AssemblyError>)
        ensures
            match r {
                Ok(ir) => assemble_spec(files@, path@) == Ok::<Seq<(u16, InstructionModel)>, ErrorModel>(ir@) && ir.wf(),
                Err(e) => assemble_spec(files@, path@) == Err::<Seq<(u16, InstructionModel)>, ErrorModel>(e@),
            },
    {
        let root = String::from_str(path);
        let st = match file_pass_exec(files, &root, 0, MAX_INCLUDE_DEPTH) {
            Ok(st) => st,
            Err(e) => {
                return Err(e);
            },
        };
        let compacted = compact_code(&st.code);
        let span = span_of(&compacted);
        match resolve_entries(&compacted, &st.labels) {
            Ok(instructions) => {
                if span > 65535 {
                    return Err(AssemblyError::ImageTooLarge);
                }
                let ir = IntermediateRepresentation { instructions };
                proof {
                    let e = compact(st@.code);
                    lemma_resolve_all_shape(e, st@.labels);
                    if e.len() > 0 {
                        assert(resolve_all(e, st@.labels)[e.len() - 1] == ir@.last());
                    }
                }
                assert(ir.wf());
                Ok(ir)
            },
            Err(name) => Err(AssemblyError::UnresolvedLabel { name }),
        }
    }

    /// The image's size in bytes: from the lowest address to the end of the instruction
    /// at the highest one; zero for an empty program.
    pub fn bytes_size(&self) -> (r: u16)
        requires
            self.wf(),
        ensures
            r == entries_span(self@),
    {
        span_of(&self.instructions) as u16
    }

    /// The image: each instruction's bytes at its offset from the lowest address,
    /// in address order, over zeros.
    pub fn to_bytes(&self) -> (r: Vec<u8>)
        requires
            self.wf(),
        ensures
            r@ == image(self@),
            r@.len() == entries_span(self@),
    {
        build_image(&self.instructions)
    }
}

} // verus!
