//! Builds the document model from a build file's text.
//!
//! The raw-syntax parsing itself is the outside parser's job; this module
//! takes what it produced — the raw text, the instruction records with
//! their byte spans, the global ARG declarations, and each stage's parent
//! classification — as plain values, and assembles and checks the model
//! in verified code: line numbers, raw-text slices, stage grouping, and
//! ARG default tables.

use vstd::prelude::*;

use dockerfile_parser::Instruction as DfInstruction;

use crate::error::Error;
use crate::model::{ArgDefaults, DockerfileModel, Instruction, Parent, Stage};
use crate::text::{append_chars, append_str, chars_to_string, dec_chars_u64, spec_dec_nat};

verus! {

#[verifier::external_type_specification]
#[verifier::external_body]
pub struct ExDockerfile(dockerfile_parser::Dockerfile);

/// How a stage's parent was classified: an external image, the empty
/// image, or a reference to an earlier stage.
#[derive(Debug, Clone, Copy, PartialEq, Eq, Structural)]
pub enum ParentTag {
    Image,
    Scratch,
    StageRef,
}

/// One instruction as the outside parser reports it: its variant with the
/// fields the model needs, and its byte span in the source text.
#[derive(Debug)]
pub enum RawKind {
    From { image: String, alias: Option<String> },
    Arg { name: String, value: Option<String> },
    Label,
    Run,
    Entrypoint,
    Cmd,
    Copy,
    Env,
    Misc { token: String },
}

#[derive(Debug)]
pub struct RawInstr {
    pub kind: RawKind,
    pub start: usize,
    pub end: usize,
}

/// The mathematical shape of a [`RawKind`].
pub enum RawKindModel {
    From { image: Seq<char>, alias: Option<Seq<char>> },
    Arg { name: Seq<char>, value: Option<Seq<char>> },
    Label,
    Run,
    Entrypoint,
    Cmd,
    Copy,
    Env,
    Misc { token: Seq<char> },
}

/// The mathematical shape of a [`RawInstr`].
pub struct RawInstrModel {
    pub kind: RawKindModel,
    pub start: int,
    pub end: int,
}

impl View for RawKind {
    type V = RawKindModel;

    open spec fn view(&self) -> RawKindModel {
        match self {
            RawKind::From { image, alias } => RawKindModel::From {
                image: image@,
                alias: crate::model::opt_str_view(*alias),
            },
            RawKind::Arg { name, value } => RawKindModel::Arg {
                name: name@,
                value: crate::model::opt_str_view(*value),
            },
            RawKind::Label => RawKindModel::Label,
            RawKind::Run => RawKindModel::Run,
            RawKind::Entrypoint => RawKindModel::Entrypoint,
            RawKind::Cmd => RawKindModel::Cmd,
            RawKind::Copy => RawKindModel::Copy,
            RawKind::Env => RawKindModel::Env,
            RawKind::Misc { token } => RawKindModel::Misc { token: token@ },
        }
    }
}

impl View for RawInstr {
    type V = RawInstrModel;

    open spec fn view(&self) -> RawInstrModel {
        RawInstrModel { kind: self.kind@, start: self.start as int, end: self.end as int }
    }
}

/// The views of a vector of raw instructions.
pub open spec fn ris_view(v: Seq<RawInstr>) -> Seq<RawInstrModel> {
    Seq::new(v.len(), |i: int| v[i]@)
}

/// The raw bytes of the parsed document's source text.
pub uninterp spec fn doc_bytes(d: dockerfile_parser::Dockerfile) -> Seq<u8>;

/// The instruction records the parsed document holds, in order.
pub uninterp spec fn doc_items(d: dockerfile_parser::Dockerfile) -> Seq<RawInstrModel>;

/// The global ARG declarations preceding the first FROM, in order.
pub uninterp spec fn doc_globals(d: dockerfile_parser::Dockerfile) -> Seq<
    (Seq<char>, Option<Seq<char>>),
>;

/// The parent classification of each stage, in stage order.
pub uninterp spec fn doc_tags(d: dockerfile_parser::Dockerfile) -> Seq<ParentTag>;

/// How many FROM instructions a record sequence holds.
pub open spec fn count_from(items: Seq<RawInstrModel>) -> int
    decreases items.len(),
{
    if items.len() == 0 {
        0
    } else {
        count_from(items.drop_last()) + (if items.last().kind is From {
            1int
        } else {
            0int
        })
    }
}

/// Relies on dockerfile_parser's `Dockerfile::parse` to parse the text,
/// and on its `Stages::new`, which opens one stage per FROM instruction,
/// for the length of the parent-tag list.
#[verifier::external_body]
fn parse_outside(input: &str) -> (r: Result<dockerfile_parser::Dockerfile, String>)
    ensures
        r matches Ok(d) ==> doc_tags(d).len() == count_from(doc_items(d)),
{
    dockerfile_parser::Dockerfile::parse(input).map_err(|e| format!("{e}"))
}

/// Relies on the `content` field of dockerfile_parser's `Dockerfile`: the
/// raw source text the spans index into.
#[verifier::external_body]
fn doc_bytes_of(d: &dockerfile_parser::Dockerfile) -> (r: Vec<u8>)
    ensures
        r@ == doc_bytes(*d),
{
    d.content.clone().into_bytes()
}

/// Relies on the `global_args` field of dockerfile_parser's `Dockerfile`:
/// the ARG instructions preceding the first FROM, with name and optional
/// value.
#[verifier::external_body]
fn doc_globals_of(d: &dockerfile_parser::Dockerfile) -> (r: Vec<(String, Option<String>)>)
    ensures
        r@.len() == doc_globals(*d).len(),
        forall|i: int| 0 <= i < r@.len() ==> (#[trigger] r@[i].0@, crate::model::opt_str_view(
            r@[i].1,
        )) == doc_globals(*d)[i],
{
    d.global_args
        .iter()
        .map(|a| (a.name.content.clone(), a.value.as_ref().map(|v| v.content.clone())))
        .collect()
}

/// Relies on the `instructions` field of dockerfile_parser's `Dockerfile`.
#[verifier::external_body]
fn doc_item_count(d: &dockerfile_parser::Dockerfile) -> (r: usize)
    ensures
        r == doc_items(*d).len(),
{
    d.instructions.len()
}

/// Relies on dockerfile_parser's `Instruction::span`: the instruction's
/// byte range in the source text.
#[verifier::external_body]
fn doc_item_span_at(d: &dockerfile_parser::Dockerfile, i: usize) -> (r: (usize, usize))
    requires
        i < doc_items(*d).len(),
    ensures
        r.0 == doc_items(*d)[i as int].start,
        r.1 == doc_items(*d)[i as int].end,
{
    let span = d.instructions[i].span();
    (span.start, span.end)
}

/// Relies on dockerfile_parser's `Instruction` variants: which kind each
/// instruction is, with the FROM image and alias and the ARG name and
/// value moved out.
#[verifier::external_body]
fn doc_item_kind_at(d: &dockerfile_parser::Dockerfile, i: usize) -> (r: RawKind)
    requires
        i < doc_items(*d).len(),
    ensures
        r@ == doc_items(*d)[i as int].kind,
{
    match &d.instructions[i] {
        DfInstruction::From(f) => RawKind::From { image: f.image.content.clone(), alias: f.alias.as_ref().map(|a| a.content.clone()) },
        DfInstruction::Arg(a) => RawKind::Arg { name: a.name.content.clone(), value: a.value.as_ref().map(|v| v.content.clone()) },
        DfInstruction::Label(_) => RawKind::Label,
        DfInstruction::Run(_) => RawKind::Run,
        DfInstruction::Entrypoint(_) => RawKind::Entrypoint,
        DfInstruction::Cmd(_) => RawKind::Cmd,
        DfInstruction::Copy(_) => RawKind::Copy,
        DfInstruction::Env(_) => RawKind::Env,
        DfInstruction::Misc(m) => RawKind::Misc { token: m.instruction.content.clone() },
    }
}

/// Relies on dockerfile_parser's `Dockerfile::stages` and `StageParent`:
/// each stage's parent is an image, `scratch`, or an earlier stage.
#[verifier::external_body]
fn doc_tags_of(d: &dockerfile_parser::Dockerfile) -> (r: Vec<ParentTag>)
    ensures
        r@ == doc_tags(*d),
{
    d.stages()
        .stages
        .iter()
        .map(|s| match s.parent {
            dockerfile_parser::StageParent::Image(_) => ParentTag::Image,
            dockerfile_parser::StageParent::Scratch => ParentTag::Scratch,
            dockerfile_parser::StageParent::Stage(_) => ParentTag::StageRef,
        })
        .collect()
}

/// Relies on std's `String::from_utf8`: it succeeds exactly on valid
/// UTF-8 and returns the string those bytes encode.
#[verifier::external_body]
fn bytes_to_string(v: Vec<u8>) -> (r: Result<String, ()>)
    ensures
        r matches Ok(s) ==> vstd::utf8::encode_utf8(s@) == v@,
        r is Err ==> !vstd::utf8::valid_utf8(v@),
{
    match String::from_utf8(v) {
        Ok(s) => Ok(s),
        Err(_) => Err(()),
    }
}

/// How many newline bytes precede `end`.
pub open spec fn count_newlines(b: Seq<u8>, end: int) -> int
    decreases end,
        when 0 <= end <= b.len()
{
    if end <= 0 {
        0
    } else {
        count_newlines(b, end - 1) + (if b[end - 1] == 10 {
            1int
        } else {
            0int
        })
    }
}

/// The 1-based line number of a byte offset: one more than the newlines
/// before it.
pub open spec fn spec_line_of(b: Seq<u8>, off: int) -> int {
    count_newlines(b, off) + 1
}

/// Counts the newlines before `off`.
fn line_of(b: &Vec<u8>, off: usize) -> (r: usize)
    requires
        off <= b@.len(),
        b@.len() < usize::MAX,
    ensures
        r == spec_line_of(b@, off as int),
{
    let mut count: usize = 0;
    let mut j: usize = 0;
    while j < off
        invariant
            j <= off <= b@.len() < usize::MAX,
            count == count_newlines(b@, j as int),
            count <= j,
        decreases off - j,
    {
        if b[j] == 10 {
            count = count + 1;
        }
        j += 1;
    }
    count + 1
}

/// Copies `b[start..end]` out as text, when the range is sensible and
/// holds valid UTF-8.
fn span_slice(b: &Vec<u8>, start: usize, end: usize) -> (r: Result<String, Error>)
    ensures
        r matches Ok(s) ==> start <= end <= b@.len() && vstd::utf8::encode_utf8(s@)
            == b@.subrange(start as int, end as int),
        r matches Err(e) ==> e@ is DockerfileParse,
{
    if start > end || end > b.len() {
        let msg = span_error_msg("invalid instruction span ", start, end);
        return Err(Error::DockerfileParse { msg });
    }
    let mut piece: Vec<u8> = Vec::new();
    let mut j = start;
    while j < end
        invariant
            start <= j <= end <= b@.len(),
            piece@ == b@.subrange(start as int, j as int),
        decreases end - j,
    {
        piece.push(b[j]);
        proof {
            assert(piece@ =~= b@.subrange(start as int, j + 1 as int));
        }
        j += 1;
    }
    match bytes_to_string(piece) {
        Ok(s) => Ok(s),
        Err(_) => {
            let msg = span_error_msg("invalid utf-8 in span ", start, end);
            Err(Error::DockerfileParse { msg })
        },
    }
}

/// Builds a `<prefix><start>..<end>` message.
fn span_error_msg(prefix: &str, start: usize, end: usize) -> (r: String)
    ensures
        r@ == prefix@ + spec_dec_nat(start as nat) + ".."@ + spec_dec_nat(end as nat),
{
    let mut out: Vec<char> = Vec::new();
    append_str(&mut out, prefix);
    let sd = dec_chars_u64(start as u64);
    append_chars(&mut out, &sd);
    append_str(&mut out, "..");
    let ed = dec_chars_u64(end as u64);
    append_chars(&mut out, &ed);
    chars_to_string(&out)
}

/// The ASCII upper-casing of a character sequence.
pub open spec fn spec_upper_of(s: Seq<char>) -> Seq<char> {
    Seq::new(s.len(), |i: int| spec_upper_char(s[i]))
}

pub open spec fn spec_upper_char(c: char) -> char {
    if 97 <= c as u32 && c as u32 <= 122 {
        ((c as u32 - 32) as u8) as char
    } else {
        c
    }
}

/// Upper-cases the ASCII letters of a string.
fn to_ascii_upper(s: &str) -> (r: String)
    ensures
        r@ == spec_upper_of(s@),
{
    let n = s.unicode_len();
    let mut out: Vec<char> = Vec::new();
    let mut i: usize = 0;
    while i < n
        invariant
            n == s@.len(),
            i <= n,
            out@.len() == i,
            forall|j: int| 0 <= j < i ==> out@[j] == spec_upper_char(s@[j]),
        decreases n - i,
    {
        let c = s.get_char(i);
        let u = c as u32;
        if 97 <= u && u <= 122 {
            out.push(((u - 32) as u8) as char);
        } else {
            out.push(c);
        }
        i += 1;
    }
    proof {
        assert(out@ =~= spec_upper_of(s@));
    }
    chars_to_string(&out)
}

/// The keyword label of a raw instruction kind.
pub open spec fn spec_keyword_of(k: RawKindModel) -> Seq<char> {
    match k {
        RawKindModel::From { .. } => "FROM"@,
        RawKindModel::Arg { .. } => "ARG"@,
        RawKindModel::Label => "LABEL"@,
        RawKindModel::Run => "RUN"@,
        RawKindModel::Entrypoint => "ENTRYPOINT"@,
        RawKindModel::Cmd => "CMD"@,
        RawKindModel::Copy => "COPY"@,
        RawKindModel::Env => "ENV"@,
        RawKindModel::Misc { token } => spec_upper_of(token),
    }
}

fn keyword_of(k: &RawKind) -> (r: String)
    ensures
        r@ == spec_keyword_of(k@),
{
    match k {
        RawKind::From { .. } => String::from_str("FROM"),
        RawKind::Arg { .. } => String::from_str("ARG"),
        RawKind::Label => String::from_str("LABEL"),
        RawKind::Run => String::from_str("RUN"),
        RawKind::Entrypoint => String::from_str("ENTRYPOINT"),
        RawKind::Cmd => String::from_str("CMD"),
        RawKind::Copy => String::from_str("COPY"),
        RawKind::Env => String::from_str("ENV"),
        RawKind::Misc { token } => to_ascii_upper(token.as_str()),
    }
}

/// Builds one model instruction: the keyword label, the raw text sliced
/// from the source bytes, and the 1-based inclusive line span.
fn map_instruction(item: &RawInstr, b: &Vec<u8>) -> (r: Result<Instruction, Error>)
    requires
        b@.len() < usize::MAX,
    ensures
        r matches Ok(ins) ==> {
            &&& ins.keyword@ == spec_keyword_of(item.kind@)
            &&& item.start <= item.end <= b@.len()
            &&& vstd::utf8::encode_utf8(ins.raw@) == b@.subrange(
                item.start as int,
                item.end as int,
            )
            &&& ins.start_line == spec_line_of(b@, item.start as int)
            &&& ins.end_line as int == if item.end > item.start {
                spec_line_of(b@, item.end - 1)
            } else {
                spec_line_of(b@, item.start as int)
            }
        },
        r matches Err(e) ==> e@ is DockerfileParse,
{
    let raw = match span_slice(b, item.start, item.end) {
        Ok(s) => s,
        Err(e) => {
            return Err(e);
        },
    };
    let keyword = keyword_of(&item.kind);
    let start_line = line_of(b, item.start);
    let end_line = if item.end > item.start {
        line_of(b, item.end - 1)
    } else {
        start_line
    };
    Ok(Instruction { keyword, raw, start_line, end_line })
}

/// A prefix never holds more FROMs than the whole.
proof fn lemma_count_from_prefix(items: Seq<RawInstrModel>, k: int)
    requires
        0 <= k <= items.len(),
    ensures
        count_from(items.take(k)) <= count_from(items),
        count_from(items.take(k)) >= 0,
    decreases items.len() - k,
{
    lemma_count_from_nonneg(items.take(k));
    if k == items.len() {
        assert(items.take(k) =~= items);
    } else {
        lemma_count_from_prefix(items, k + 1);
        assert(items.take(k + 1).drop_last() =~= items.take(k));
        assert(count_from(items.take(k + 1)) == count_from(items.take(k)) + (
        if items.take(k + 1).last().kind is From {
            1int
        } else {
            0int
        }));
    }
}

proof fn lemma_count_from_nonneg(items: Seq<RawInstrModel>)
    ensures
        count_from(items) >= 0,
    decreases items.len(),
{
    if items.len() > 0 {
        lemma_count_from_nonneg(items.drop_last());
    }
}

/// Assembles the model from the parser's plain output: global defaults,
/// all instructions with their lines, and the stages grouped at each FROM
/// with the given parent classifications.
fn build_model(
    b: &Vec<u8>,
    items: &Vec<RawInstr>,
    globals: Vec<(String, Option<String>)>,
    tags: &Vec<ParentTag>,
) -> (r: Result<DockerfileModel, Error>)
    requires
        b@.len() < usize::MAX,
        tags@.len() == count_from(ris_view(items@)),
    ensures
        r matches Ok(model) ==> {
            &&& crate::model::model_wf(model)
            &&& model.raw_instructions@.len() == items@.len()
            &&& model.stages@.len() == tags@.len()
        },
        r matches Err(e) ==> e@ is DockerfileParse,
{
    let ghost iv = ris_view(items@);
    let mut model = DockerfileModel::new();

    let mut g = globals;
    let mut gi: usize = 0;
    while gi < g.len()
        invariant
            gi <= g@.len(),
            crate::model::arg_keys_unique(model.global_args@),
            model.stages@.len() == 0,
            model.raw_instructions@.len() == 0,
        decreases g@.len() - gi,
    {
        let (name, value) = (g[gi].0.clone(), g[gi].1.clone());
        model.global_args.set(name, value);
        gi += 1;
    }

    let tags_len = tags.len();
    let mut idx: usize = 0;
    let mut current: Option<Stage> = None;
    let mut froms_seen: usize = 0;
    while idx < items.len()
        invariant
            idx <= items@.len(),
            b@.len() < usize::MAX,
            tags_len == tags@.len(),
            iv == ris_view(items@),
            tags@.len() == count_from(iv),
            froms_seen as int == count_from(iv.take(idx as int)),
            model.stages@.len() + (if current is Some {
                1int
            } else {
                0int
            }) == froms_seen,
            crate::model::arg_keys_unique(model.global_args@),
            forall|s: int| 0 <= s < model.stages@.len() ==> crate::model::arg_keys_unique(
                #[trigger] model.stages@[s].arg_defaults@,
            ),
            current matches Some(st) ==> crate::model::arg_keys_unique(st.arg_defaults@),
            model.raw_instructions@.len() == idx,
        decreases items@.len() - idx,
    {
        let item = &items[idx];
        let ins = match map_instruction(item, b) {
            Ok(ins) => ins,
            Err(e) => {
                return Err(e);
            },
        };
        proof {
            assert(iv[idx as int] == items@[idx as int]@);
            assert(iv.take(idx + 1).drop_last() =~= iv.take(idx as int));
            assert(iv.take(idx + 1).last() == iv[idx as int]);
            lemma_count_from_prefix(iv, idx + 1);
        }
        match &item.kind {
            RawKind::From { image, alias } => {
                proof {
                    assert(iv[idx as int].kind is From);
                    assert(count_from(iv.take(idx + 1)) == froms_seen + 1);
                    assert(froms_seen + 1 <= tags@.len());
                }
                match current {
                    Some(done) => {
                        model.stages.push(done);
                    },
                    None => {},
                }
                current = None;
                let tag = tags[froms_seen];
                let parent = match tag {
                    ParentTag::Scratch => Parent::Scratch,
                    ParentTag::StageRef => Parent::StageRef(image.clone()),
                    ParentTag::Image => Parent::Image(image.clone()),
                };
                let name = match alias {
                    Some(a) => Some(a.clone()),
                    None => None,
                };
                current = Some(
                    Stage {
                        index: froms_seen,
                        name,
                        parent,
                        arg_defaults: ArgDefaults::new(),
                        instructions: Vec::new(),
                    },
                );
                froms_seen += 1;
            },
            RawKind::Arg { name, value } => {
                match current {
                    Some(mut st) => {
                        let value_copy = match value {
                            Some(v) => Some(v.clone()),
                            None => None,
                        };
                        st.arg_defaults.set(name.clone(), value_copy);
                        st.instructions.push(ins.clone_instruction());
                        current = Some(st);
                    },
                    None => {
                        current = None;
                    },
                }
            },
            _ => {
                match current {
                    Some(mut st) => {
                        st.instructions.push(ins.clone_instruction());
                        current = Some(st);
                    },
                    None => {
                        current = None;
                    },
                }
            },
        }
        model.raw_instructions.push(ins);
        idx += 1;
    }
    proof {
        assert(iv.take(items@.len() as int) =~= iv);
    }
    match current {
        Some(done) => {
            model.stages.push(done);
        },
        None => {},
    }
    Ok(model)
}

/// Parses a build file's text into the document model. The raw syntax is
/// the outside parser's; the model around its output — line numbers, raw
/// slices, stage grouping, default tables — is assembled here. On success
/// the model's ARG tables have unique keys.
pub fn parse_dockerfile(input: &str) -> (r: Result<DockerfileModel, Error>)
    ensures
        r matches Ok(model) ==> crate::model::model_wf(model),
        r matches Err(e) ==> e@ is DockerfileParse,
{
    let d = match parse_outside(input) {
        Ok(d) => d,
        Err(msg) => {
            return Err(Error::dockerfile_parse(msg.as_str()));
        },
    };
    let b = doc_bytes_of(&d);
    if b.len() >= usize::MAX {
        return Err(Error::dockerfile_parse("document too large"));
    }
    let globals = doc_globals_of(&d);
    let n = doc_item_count(&d);
    let mut items: Vec<RawInstr> = Vec::new();
    let mut i: usize = 0;
    while i < n
        invariant
            n == doc_items(d).len(),
            i <= n,
            items@.len() == i,
            forall|j: int| 0 <= j < i ==> #[trigger] items@[j]@ == doc_items(d)[j],
        decreases n - i,
    {
        let kind = doc_item_kind_at(&d, i);
        let (start, end) = doc_item_span_at(&d, i);
        let item = RawInstr { kind, start, end };
        proof {
            assert(item@ == doc_items(d)[i as int]);
        }
        items.push(item);
        i += 1;
    }
    proof {
        assert(ris_view(items@) =~= doc_items(d));
    }
    let tags = doc_tags_of(&d);
    build_model(&b, &items, globals, &tags)
}

impl Instruction {
    /// A field-for-field copy.
    pub fn clone_instruction(&self) -> (r: Self)
        ensures
            r.keyword@ == self.keyword@,
            r.raw@ == self.raw@,
            r.start_line == self.start_line,
            r.end_line == self.end_line,
    {
        Instruction {
            keyword: self.keyword.clone(),
            raw: self.raw.clone(),
            start_line: self.start_line,
            end_line: self.end_line,
        }
    }
}

} // verus!
