//! The path-query language: `SEG.SEG...` where a segment is an identifier,
//! an indexed identifier (`NAME[0]`, `NAME[*]`, `NAME["key"]`), or a
//! function call (`NAME(arg, ...)`). A single left-to-right pass with no
//! backtracking.

use vstd::prelude::*;

use crate::error::{Error, ErrorModel, Span};
use crate::text::{
    spec_is_digit, spec_is_name_start, spec_is_name_continue, spec_is_space, is_digit_char,
    is_name_start, is_space_char, str_to_chars, chars_to_string, range_to_string,
};

verus! {

/// One dotted component of a query.
#[derive(Debug, Clone)]
pub enum Segment {
    Ident(String),
    Indexed { ident: String, index: Index },
    Function { ident: String, args: Vec<Arg> },
}

/// The index form of an indexed segment.
#[derive(Debug, Clone)]
pub enum Index {
    Position(usize),
    Wildcard,
    Key(String),
}

/// One function-call argument.
#[derive(Debug, Clone)]
pub enum Arg {
    String(String),
    Ident(String),
    Number(i64),
}

/// A parsed query: the original text and at least one segment.
#[derive(Debug, Clone)]
pub struct Query {
    pub source: String,
    pub segments: Vec<Segment>,
}

/// The mathematical shape of an [`Index`].
pub enum IndexModel {
    Position(int),
    Wildcard,
    Key(Seq<char>),
}

/// The mathematical shape of an [`Arg`].
pub enum ArgModel {
    String(Seq<char>),
    Ident(Seq<char>),
    Number(int),
}

/// The mathematical shape of a [`Segment`].
pub enum SegModel {
    Ident(Seq<char>),
    Indexed { ident: Seq<char>, index: IndexModel },
    Function { ident: Seq<char>, args: Seq<ArgModel> },
}

impl View for Index {
    type V = IndexModel;

    open spec fn view(&self) -> IndexModel {
        match self {
            Index::Position(n) => IndexModel::Position(*n as int),
            Index::Wildcard => IndexModel::Wildcard,
            Index::Key(k) => IndexModel::Key(k@),
        }
    }
}

impl View for Arg {
    type V = ArgModel;

    open spec fn view(&self) -> ArgModel {
        match self {
            Arg::String(s) => ArgModel::String(s@),
            Arg::Ident(s) => ArgModel::Ident(s@),
            Arg::Number(n) => ArgModel::Number(*n as int),
        }
    }
}

impl View for Segment {
    type V = SegModel;

    open spec fn view(&self) -> SegModel {
        match self {
            Segment::Ident(s) => SegModel::Ident(s@),
            Segment::Indexed { ident, index } => SegModel::Indexed {
                ident: ident@,
                index: index@,
            },
            Segment::Function { ident, args } => SegModel::Function {
                ident: ident@,
                args: Seq::new(args@.len(), |i: int| args@[i]@),
            },
        }
    }
}

/// The views of a segment vector, element by element.
pub open spec fn segs_view(segs: Seq<Segment>) -> Seq<SegModel> {
    Seq::new(segs.len(), |i: int| segs[i]@)
}

/// A parse failure: its message and the character position it points at.
pub struct QErr {
    pub msg: Seq<char>,
    pub pos: int,
}

/// The error value a parse failure surfaces as.
pub open spec fn qerr_error(e: QErr) -> ErrorModel {
    ErrorModel::QueryParse {
        msg: e.msg,
        span: Some(
            Span {
                start: e.pos as usize,
                end: if e.pos == usize::MAX as int {
                    usize::MAX
                } else {
                    (e.pos + 1) as usize
                },
            },
        ),
    }
}

/// An identifier-continue character: `[A-Za-z0-9_-]`.
pub open spec fn spec_is_ident_continue(c: char) -> bool {
    spec_is_name_continue(c) || c == '-'
}

/// The first position at or after `i` holding no whitespace.
pub open spec fn spec_skip_ws(s: Seq<char>, i: int) -> int
    decreases s.len() - i,
        when 0 <= i <= s.len()
{
    if i >= s.len() || !spec_is_space(s[i]) {
        i
    } else {
        spec_skip_ws(s, i + 1)
    }
}

pub proof fn lemma_skip_ws(s: Seq<char>, i: int)
    requires
        0 <= i <= s.len(),
    ensures
        i <= spec_skip_ws(s, i) <= s.len(),
    decreases s.len() - i,
{
    if !(i >= s.len() || !spec_is_space(s[i])) {
        lemma_skip_ws(s, i + 1);
    }
}

/// The end of the identifier-continue run starting at `i`.
pub open spec fn spec_scan_ident(s: Seq<char>, i: int) -> int
    decreases s.len() - i,
        when 0 <= i <= s.len()
{
    if i >= s.len() || !spec_is_ident_continue(s[i]) {
        i
    } else {
        spec_scan_ident(s, i + 1)
    }
}

pub proof fn lemma_scan_ident(s: Seq<char>, i: int)
    requires
        0 <= i <= s.len(),
    ensures
        i <= spec_scan_ident(s, i) <= s.len(),
    decreases s.len() - i,
{
    if !(i >= s.len() || !spec_is_ident_continue(s[i])) {
        lemma_scan_ident(s, i + 1);
    }
}

/// The end of the digit run starting at `i`.
pub open spec fn spec_scan_digits(s: Seq<char>, i: int) -> int
    decreases s.len() - i,
        when 0 <= i <= s.len()
{
    if i >= s.len() || !spec_is_digit(s[i]) {
        i
    } else {
        spec_scan_digits(s, i + 1)
    }
}

pub proof fn lemma_scan_digits(s: Seq<char>, i: int)
    requires
        0 <= i <= s.len(),
    ensures
        i <= spec_scan_digits(s, i) <= s.len(),
    decreases s.len() - i,
{
    if !(i >= s.len() || !spec_is_digit(s[i])) {
        lemma_scan_digits(s, i + 1);
    }
}

/// An identifier at `i`: `[A-Za-z_][A-Za-z0-9_-]*`.
pub open spec fn spec_parse_ident(s: Seq<char>, i: int) -> Result<(Seq<char>, int), QErr> {
    if i >= s.len() {
        Err(QErr { msg: "expected identifier"@, pos: i })
    } else if !spec_is_name_start(s[i]) {
        Err(QErr { msg: "identifier must start with [A-Za-z_]"@, pos: i })
    } else {
        let e = spec_scan_ident(s, i + 1);
        Ok((s.subrange(i, e), e))
    }
}

/// The numeric value of a digit run, most significant digit first.
pub open spec fn spec_dec_val(d: Seq<char>) -> int
    decreases d.len(),
{
    if d.len() == 0 {
        0
    } else {
        spec_dec_val(d.take(d.len() - 1)) * 10 + (d[d.len() - 1] as u32 - 48)
    }
}

/// Appending digits never shrinks the value.
pub proof fn lemma_dec_val_prefix(d: Seq<char>, k: int)
    requires
        0 <= k <= d.len(),
        forall|j: int| 0 <= j < d.len() ==> spec_is_digit(#[trigger] d[j]),
    ensures
        spec_dec_val(d.take(k)) <= spec_dec_val(d),
        spec_dec_val(d) >= 0,
    decreases d.len(),
{
    if d.len() == 0 {
        assert(d.take(k) =~= d);
    } else {
        let head = d.take(d.len() - 1);
        assert(forall|j: int| 0 <= j < head.len() ==> head[j] == d[j]);
        lemma_dec_val_prefix(head, if k <= head.len() { k } else { head.len() as int });
        assert(spec_is_digit(d[d.len() - 1]));
        assert(spec_dec_val(head) * 10 >= spec_dec_val(head)) by (nonlinear_arith)
            requires spec_dec_val(head) >= 0;
        if k <= head.len() {
            assert(head.take(k) =~= d.take(k));
        } else {
            assert(d.take(k) =~= d);
        }
    }
}

/// A numeric index at `i`: a digit run whose value fits in `usize`.
pub open spec fn spec_parse_usize(s: Seq<char>, i: int) -> Result<(int, int), QErr> {
    let e = spec_scan_digits(s, i);
    if e == i {
        Err(QErr { msg: "expected numeric index"@, pos: i })
    } else if spec_dec_val(s.subrange(i, e)) > usize::MAX as int {
        Err(QErr { msg: "invalid numeric index"@, pos: e })
    } else {
        Ok((spec_dec_val(s.subrange(i, e)), e))
    }
}

/// A signed number at `i`: an optional `-` and a digit run, fitting `i64`.
pub open spec fn spec_parse_i64(s: Seq<char>, i: int) -> Result<(int, int), QErr> {
    let neg = i < s.len() && s[i] == '-';
    let d0 = if neg { i + 1 } else { i };
    let e = spec_scan_digits(s, d0);
    if e == i {
        Err(QErr { msg: "expected number"@, pos: i })
    } else if e == d0 {
        Err(QErr { msg: "invalid number"@, pos: e })
    } else {
        let v = spec_dec_val(s.subrange(d0, e));
        if neg {
            if v > 9223372036854775808int {
                Err(QErr { msg: "invalid number"@, pos: e })
            } else {
                Ok((-v, e))
            }
        } else {
            if v > 9223372036854775807int {
                Err(QErr { msg: "invalid number"@, pos: e })
            } else {
                Ok((v, e))
            }
        }
    }
}

/// The body of a quoted string after its opening quote, collecting
/// characters and decoding escapes until the closing quote.
pub open spec fn spec_string_body(s: Seq<char>, q: char, i: int, acc: Seq<char>) -> Result<
    (Seq<char>, int),
    QErr,
>
    decreases s.len() - i,
        when 0 <= i <= s.len()
{
    if i >= s.len() {
        Err(QErr { msg: "unterminated string"@, pos: s.len() as int })
    } else if s[i] == q {
        Ok((acc, i + 1))
    } else if s[i] == '\\' {
        if i + 1 >= s.len() {
            Err(QErr { msg: "unterminated escape sequence"@, pos: s.len() as int })
        } else {
            let c = s[i + 1];
            if c == '"' || c == '\'' || c == '\\' {
                spec_string_body(s, q, i + 2, acc.push(c))
            } else if c == 'n' {
                spec_string_body(s, q, i + 2, acc.push('\n'))
            } else if c == 't' {
                spec_string_body(s, q, i + 2, acc.push('\t'))
            } else {
                Err(QErr { msg: "unsupported string escape"@, pos: i + 2 })
            }
        }
    } else {
        spec_string_body(s, q, i + 1, acc.push(s[i]))
    }
}

pub proof fn lemma_string_body(s: Seq<char>, q: char, i: int, acc: Seq<char>)
    requires
        0 <= i <= s.len(),
    ensures
        spec_string_body(s, q, i, acc) matches Ok((c, e)) ==> i < e <= s.len(),
        spec_string_body(s, q, i, acc) matches Err(qe) ==> 0 <= qe.pos <= s.len(),
    decreases s.len() - i,
{
    if i < s.len() && s[i] != q {
        if s[i] == '\\' {
            if i + 1 < s.len() {
                let c = s[i + 1];
                if c == '"' || c == '\'' || c == '\\' {
                    lemma_string_body(s, q, i + 2, acc.push(c));
                } else if c == 'n' {
                    lemma_string_body(s, q, i + 2, acc.push('\n'));
                } else if c == 't' {
                    lemma_string_body(s, q, i + 2, acc.push('\t'));
                }
            }
        } else {
            lemma_string_body(s, q, i + 1, acc.push(s[i]));
        }
    }
}

/// A quoted string at `i`, single or double quoted.
pub open spec fn spec_parse_string(s: Seq<char>, i: int) -> Result<(Seq<char>, int), QErr> {
    if i >= s.len() {
        Err(QErr { msg: "expected string"@, pos: i })
    } else if s[i] != '"' && s[i] != '\'' {
        Err(QErr { msg: "expected string quote"@, pos: i })
    } else {
        spec_string_body(s, s[i], i + 1, Seq::empty())
    }
}

pub proof fn lemma_parse_string(s: Seq<char>, i: int)
    requires
        0 <= i <= s.len(),
    ensures
        spec_parse_string(s, i) matches Ok((c, e)) ==> i < e <= s.len(),
        spec_parse_string(s, i) matches Err(qe) ==> 0 <= qe.pos <= s.len(),
{
    if i < s.len() && (s[i] == '"' || s[i] == '\'') {
        lemma_string_body(s, s[i], i + 1, Seq::empty());
    }
}

/// One function argument: a string, a number, or an identifier.
pub open spec fn spec_parse_arg(s: Seq<char>, i: int) -> Result<(ArgModel, int), QErr> {
    let j = spec_skip_ws(s, i);
    if j >= s.len() {
        Err(QErr { msg: "expected function argument"@, pos: j })
    } else if s[j] == '"' || s[j] == '\'' {
        match spec_parse_string(s, j) {
            Ok((c, e)) => Ok((ArgModel::String(c), e)),
            Err(qe) => Err(qe),
        }
    } else if spec_is_digit(s[j]) || s[j] == '-' {
        match spec_parse_i64(s, j) {
            Ok((v, e)) => Ok((ArgModel::Number(v), e)),
            Err(qe) => Err(qe),
        }
    } else {
        match spec_parse_ident(s, j) {
            Ok((c, e)) => Ok((ArgModel::Ident(c), e)),
            Err(qe) => Err(qe),
        }
    }
}

pub proof fn lemma_parse_arg(s: Seq<char>, i: int)
    requires
        0 <= i <= s.len(),
    ensures
        spec_parse_arg(s, i) matches Ok((a, e)) ==> i < e <= s.len(),
        spec_parse_arg(s, i) matches Err(qe) ==> 0 <= qe.pos <= s.len(),
{
    let j = spec_skip_ws(s, i);
    lemma_skip_ws(s, i);
    if j < s.len() {
        if s[j] == '"' || s[j] == '\'' {
            lemma_parse_string(s, j);
        } else if spec_is_digit(s[j]) || s[j] == '-' {
            lemma_scan_digits(s, if s[j] == '-' { j + 1 } else { j });
        } else {
            lemma_scan_ident(s, j + 1);
        }
    }
}

/// The argument list after `(`, at the position of the first argument.
pub open spec fn spec_parse_args(s: Seq<char>, i: int, acc: Seq<ArgModel>) -> Result<
    (Seq<ArgModel>, int),
    QErr,
>
    decreases s.len() - i,
        when 0 <= i <= s.len() via spec_parse_args_dec
{
    match spec_parse_arg(s, i) {
        Err(qe) => Err(qe),
        Ok((a, e)) => {
            let q = spec_skip_ws(s, e);
            if q < s.len() && s[q] == ',' {
                spec_parse_args(s, spec_skip_ws(s, q + 1), acc.push(a))
            } else if q < s.len() && s[q] == ')' {
                Ok((acc.push(a), q + 1))
            } else {
                Err(QErr { msg: "expected ',' or ')'"@, pos: q })
            }
        },
    }
}

#[via_fn]
proof fn spec_parse_args_dec(s: Seq<char>, i: int, acc: Seq<ArgModel>) {
    lemma_parse_arg(s, i);
    if let Ok((a, e)) = spec_parse_arg(s, i) {
        lemma_skip_ws(s, e);
        let q = spec_skip_ws(s, e);
        if q < s.len() && s[q] == ',' {
            lemma_skip_ws(s, q + 1);
        }
    }
}

pub proof fn lemma_parse_args(s: Seq<char>, i: int, acc: Seq<ArgModel>)
    requires
        0 <= i <= s.len(),
    ensures
        spec_parse_args(s, i, acc) matches Ok((r, e)) ==> i < e <= s.len() && r.len() > acc.len(),
        spec_parse_args(s, i, acc) matches Err(qe) ==> 0 <= qe.pos <= s.len(),
    decreases s.len() - i,
{
    lemma_parse_arg(s, i);
    if let Ok((a, e)) = spec_parse_arg(s, i) {
        lemma_skip_ws(s, e);
        let q = spec_skip_ws(s, e);
        if q < s.len() && s[q] == ',' {
            lemma_skip_ws(s, q + 1);
            lemma_parse_args(s, spec_skip_ws(s, q + 1), acc.push(a));
        }
    }
}

/// One segment at `i`: an identifier, optionally followed by an index in
/// brackets or an argument list in parentheses.
pub open spec fn spec_parse_segment(s: Seq<char>, i: int) -> Result<(SegModel, int), QErr> {
    match spec_parse_ident(s, i) {
        Err(qe) => Err(qe),
        Ok((name, j)) => {
            let k = spec_skip_ws(s, j);
            if k < s.len() && s[k] == '[' {
                let m = spec_skip_ws(s, k + 1);
                let idx: Result<(IndexModel, int), QErr> = if m < s.len() && s[m] == '*' {
                    Ok((IndexModel::Wildcard, m + 1))
                } else if m < s.len() && (s[m] == '"' || s[m] == '\'') {
                    match spec_parse_string(s, m) {
                        Ok((c, e)) => Ok((IndexModel::Key(c), e)),
                        Err(qe) => Err(qe),
                    }
                } else if m < s.len() && spec_is_digit(s[m]) {
                    match spec_parse_usize(s, m) {
                        Ok((v, e)) => Ok((IndexModel::Position(v), e)),
                        Err(qe) => Err(qe),
                    }
                } else {
                    Err(QErr { msg: "expected numeric, wildcard, or string index"@, pos: m })
                };
                match idx {
                    Err(qe) => Err(qe),
                    Ok((index, e)) => {
                        let w = spec_skip_ws(s, e);
                        if w < s.len() && s[w] == ']' {
                            Ok((SegModel::Indexed { ident: name, index }, w + 1))
                        } else {
                            Err(QErr { msg: "expected ']'"@, pos: w })
                        }
                    },
                }
            } else if k < s.len() && s[k] == '(' {
                let p = spec_skip_ws(s, k + 1);
                if p < s.len() && s[p] == ')' {
                    Ok((SegModel::Function { ident: name, args: Seq::empty() }, p + 1))
                } else {
                    match spec_parse_args(s, p, Seq::empty()) {
                        Ok((args, e)) => Ok((SegModel::Function { ident: name, args }, e)),
                        Err(qe) => Err(qe),
                    }
                }
            } else {
                Ok((SegModel::Ident(name), k))
            }
        },
    }
}

pub proof fn lemma_parse_segment(s: Seq<char>, i: int)
    requires
        0 <= i <= s.len(),
    ensures
        spec_parse_segment(s, i) matches Ok((seg, e)) ==> i < e <= s.len(),
        spec_parse_segment(s, i) matches Err(qe) ==> 0 <= qe.pos <= s.len(),
{
    if let Ok((name, j)) = spec_parse_ident(s, i) {
        lemma_scan_ident(s, i + 1);
        lemma_skip_ws(s, j);
        let k = spec_skip_ws(s, j);
        if k < s.len() && s[k] == '[' {
            lemma_skip_ws(s, k + 1);
            let m = spec_skip_ws(s, k + 1);
            if m < s.len() && (s[m] == '"' || s[m] == '\'') {
                lemma_parse_string(s, m);
            }
            if m < s.len() && spec_is_digit(s[m]) {
                lemma_scan_digits(s, m);
            }
            let idx: Result<(IndexModel, int), QErr> = if m < s.len() && s[m] == '*' {
                Ok((IndexModel::Wildcard, m + 1))
            } else if m < s.len() && (s[m] == '"' || s[m] == '\'') {
                match spec_parse_string(s, m) {
                    Ok((c, e)) => Ok((IndexModel::Key(c), e)),
                    Err(qe) => Err(qe),
                }
            } else if m < s.len() && spec_is_digit(s[m]) {
                match spec_parse_usize(s, m) {
                    Ok((v, e)) => Ok((IndexModel::Position(v), e)),
                    Err(qe) => Err(qe),
                }
            } else {
                Err(QErr { msg: "expected numeric, wildcard, or string index"@, pos: m })
            };
            if let Ok((index, e)) = idx {
                lemma_skip_ws(s, e);
            }
        } else if k < s.len() && s[k] == '(' {
            lemma_skip_ws(s, k + 1);
            let p = spec_skip_ws(s, k + 1);
            if !(p < s.len() && s[p] == ')') {
                lemma_parse_args(s, p, Seq::empty());
            }
        }
    }
}

/// The segments after the first one: `.SEG` repeated until the end.
pub open spec fn spec_parse_more(s: Seq<char>, i: int, acc: Seq<SegModel>) -> Result<
    Seq<SegModel>,
    QErr,
>
    decreases s.len() - i,
        when 0 <= i <= s.len() via spec_parse_more_dec
{
    let j = spec_skip_ws(s, i);
    if j >= s.len() {
        Ok(acc)
    } else if s[j] != '.' {
        Err(QErr { msg: "expected '.'"@, pos: j })
    } else {
        let k = spec_skip_ws(s, j + 1);
        match spec_parse_segment(s, k) {
            Err(qe) => Err(qe),
            Ok((seg, m)) => spec_parse_more(s, m, acc.push(seg)),
        }
    }
}

#[via_fn]
proof fn spec_parse_more_dec(s: Seq<char>, i: int, acc: Seq<SegModel>) {
    lemma_skip_ws(s, i);
    let j = spec_skip_ws(s, i);
    if j < s.len() && s[j] == '.' {
        lemma_skip_ws(s, j + 1);
        let k = spec_skip_ws(s, j + 1);
        lemma_parse_segment(s, k);
    }
}

pub proof fn lemma_parse_more(s: Seq<char>, i: int, acc: Seq<SegModel>)
    requires
        0 <= i <= s.len(),
    ensures
        spec_parse_more(s, i, acc) matches Ok(r) ==> r.len() >= acc.len(),
        spec_parse_more(s, i, acc) matches Err(qe) ==> 0 <= qe.pos <= s.len(),
    decreases s.len() - i,
{
    lemma_skip_ws(s, i);
    let j = spec_skip_ws(s, i);
    if j < s.len() && s[j] == '.' {
        lemma_skip_ws(s, j + 1);
        let k = spec_skip_ws(s, j + 1);
        lemma_parse_segment(s, k);
        if let Ok((seg, m)) = spec_parse_segment(s, k) {
            lemma_parse_more(s, m, acc.push(seg));
        }
    }
}

/// A whole query: at least one segment, separated by dots, nothing left
/// over but whitespace.
pub open spec fn spec_parse_query(s: Seq<char>) -> Result<Seq<SegModel>, QErr> {
    let i0 = spec_skip_ws(s, 0);
    if i0 >= s.len() {
        Err(QErr { msg: "query is empty"@, pos: i0 })
    } else {
        match spec_parse_segment(s, i0) {
            Err(qe) => Err(qe),
            Ok((seg, j)) => spec_parse_more(s, j, seq![seg]),
        }
    }
}

/// A parsed query holds at least one segment; a failure points inside the
/// text.
pub proof fn lemma_parse_query(s: Seq<char>)
    ensures
        spec_parse_query(s) matches Ok(r) ==> r.len() >= 1,
        spec_parse_query(s) matches Err(qe) ==> 0 <= qe.pos <= s.len(),
{
    lemma_skip_ws(s, 0);
    let i0 = spec_skip_ws(s, 0);
    if i0 < s.len() {
        lemma_parse_segment(s, i0);
        if let Ok((seg, j)) = spec_parse_segment(s, i0) {
            lemma_parse_more(s, j, seq![seg]);
        }
    }
}

/// A parse error pointing at `pos`, spanning one character.
fn err_at(msg: &str, pos: usize) -> (r: Error)
    ensures
        r@ == qerr_error(QErr { msg: msg@, pos: pos as int }),
{
    let end = if pos == usize::MAX {
        usize::MAX
    } else {
        pos + 1
    };
    Error::query_parse(msg, Some(Span { start: pos, end }))
}

fn is_ident_continue(c: char) -> (r: bool)
    ensures
        r == spec_is_ident_continue(c),
{
    crate::text::is_name_continue(c) || c == '-'
}

fn skip_ws(v: &Vec<char>, i: usize) -> (r: usize)
    requires
        i <= v@.len(),
    ensures
        r == spec_skip_ws(v@, i as int),
        i <= r <= v@.len(),
{
    let mut j = i;
    loop
        invariant
            i <= j <= v@.len(),
            spec_skip_ws(v@, i as int) == spec_skip_ws(v@, j as int),
        decreases v@.len() - j,
    {
        if j >= v.len() {
            return j;
        }
        if !is_space_char(v[j]) {
            return j;
        }
        j += 1;
    }
}

fn scan_ident(v: &Vec<char>, i: usize) -> (r: usize)
    requires
        i <= v@.len(),
    ensures
        r == spec_scan_ident(v@, i as int),
        i <= r <= v@.len(),
{
    let mut j = i;
    loop
        invariant
            i <= j <= v@.len(),
            spec_scan_ident(v@, i as int) == spec_scan_ident(v@, j as int),
        decreases v@.len() - j,
    {
        if j >= v.len() {
            return j;
        }
        if !is_ident_continue(v[j]) {
            return j;
        }
        j += 1;
    }
}

fn scan_digits(v: &Vec<char>, i: usize) -> (r: usize)
    requires
        i <= v@.len(),
    ensures
        r == spec_scan_digits(v@, i as int),
        i <= r <= v@.len(),
        forall|j: int| i <= j < r ==> spec_is_digit(#[trigger] v@[j]),
    {
    let mut j = i;
    loop
        invariant
            i <= j <= v@.len(),
            spec_scan_digits(v@, i as int) == spec_scan_digits(v@, j as int),
            forall|k: int| i <= k < j ==> spec_is_digit(#[trigger] v@[k]),
        decreases v@.len() - j,
    {
        if j >= v.len() {
            return j;
        }
        if !is_digit_char(v[j]) {
            return j;
        }
        j += 1;
    }
}

fn parse_ident(v: &Vec<char>, i: usize) -> (r: Result<(String, usize), Error>)
    requires
        i <= v@.len(),
    ensures
        match r {
            Ok((name, e)) => spec_parse_ident(v@, i as int) == Ok::<(Seq<char>, int), QErr>(
                (name@, e as int),
            ) && i < e <= v@.len(),
            Err(er) => spec_parse_ident(v@, i as int) matches Err(qe) && er@ == qerr_error(qe),
        },
{
    if i >= v.len() {
        return Err(err_at("expected identifier", i));
    }
    if !is_name_start(v[i]) {
        return Err(err_at("identifier must start with [A-Za-z_]", i));
    }
    let e = scan_ident(v, i + 1);
    let name = range_to_string(v, i, e);
    Ok((name, e))
}

fn parse_usize_at(v: &Vec<char>, i: usize) -> (r: Result<(usize, usize), Error>)
    requires
        i <= v@.len(),
    ensures
        match r {
            Ok((n, e)) => spec_parse_usize(v@, i as int) == Ok::<(int, int), QErr>(
                (n as int, e as int),
            ) && i < e <= v@.len(),
            Err(er) => spec_parse_usize(v@, i as int) matches Err(qe) && er@ == qerr_error(qe),
        },
{
    let e = scan_digits(v, i);
    if e == i {
        return Err(err_at("expected numeric index", i));
    }
    let ghost digits = v@.subrange(i as int, e as int);
    let mut acc: usize = 0;
    let mut k = i;
    proof {
        assert(v@.subrange(i as int, i as int) =~= digits.take(0));
        assert(spec_dec_val(digits.take(0)) == 0);
    }
    loop
        invariant
            i <= k <= e <= v@.len(),
            digits == v@.subrange(i as int, e as int),
            forall|j: int| i <= j < e ==> spec_is_digit(#[trigger] v@[j]),
            e == spec_scan_digits(v@, i as int),
            e > i,
            acc == spec_dec_val(digits.take(k - i)),
        decreases e - k,
    {
        if k >= e {
            proof {
                assert(digits.take(e - i) =~= digits);
            }
            return Ok((acc, e));
        }
        let d_u32 = v[k] as u32;
        proof {
            assert(spec_is_digit(v@[k as int]));
        }
        let d = (d_u32 - 48) as usize;
        if acc > (usize::MAX - d) / 10 {
            proof {
                let whole = spec_dec_val(digits);
                let upto = digits.take(k - i + 1);
                assert(upto.take(upto.len() - 1) =~= digits.take(k - i));
                assert(upto[upto.len() - 1] == v@[k as int]);
                assert(spec_dec_val(upto) == acc * 10 + d);
                assert(acc * 10 + d > usize::MAX) by (nonlinear_arith)
                    requires
                        acc > (usize::MAX - d) / 10,
                        0 <= d < 10,
                        acc >= 0,
                ;
                assert(forall|j: int| 0 <= j < digits.len() ==> spec_is_digit(
                    #[trigger] digits[j],
                ));
                lemma_dec_val_prefix(digits, k - i + 1);
                assert(whole >= spec_dec_val(upto));
            }
            return Err(err_at("invalid numeric index", e));
        }
        proof {
            assert(acc * 10 + d <= usize::MAX) by (nonlinear_arith)
                requires
                    acc <= (usize::MAX - d) / 10,
                    0 <= d < 10,
                    acc >= 0,
            ;
            let upto = digits.take(k - i + 1);
            assert(upto.take(upto.len() - 1) =~= digits.take(k - i));
            assert(upto[upto.len() - 1] == v@[k as int]);
            assert(spec_dec_val(upto) == acc * 10 + d);
        }
        acc = acc * 10 + d;
        k += 1;
    }
}

fn parse_i64_at(v: &Vec<char>, i: usize) -> (r: Result<(i64, usize), Error>)
    requires
        i <= v@.len(),
    ensures
        match r {
            Ok((n, e)) => spec_parse_i64(v@, i as int) == Ok::<(int, int), QErr>(
                (n as int, e as int),
            ) && i < e <= v@.len(),
            Err(er) => spec_parse_i64(v@, i as int) matches Err(qe) && er@ == qerr_error(qe),
        },
{
    let neg = i < v.len() && v[i] == '-';
    let d0 = if neg {
        i + 1
    } else {
        i
    };
    let e = scan_digits(v, d0);
    if e == i {
        return Err(err_at("expected number", i));
    }
    if e == d0 {
        return Err(err_at("invalid number", e));
    }
    let limit: u64 = if neg {
        9223372036854775808u64
    } else {
        9223372036854775807u64
    };
    let ghost digits = v@.subrange(d0 as int, e as int);
    let mut acc: u64 = 0;
    let mut k = d0;
    proof {
        assert(v@.subrange(d0 as int, d0 as int) =~= digits.take(0));
        assert(spec_dec_val(digits.take(0)) == 0);
    }
    loop
        invariant
            i <= d0 <= k <= e <= v@.len(),
            digits == v@.subrange(d0 as int, e as int),
            forall|j: int| d0 <= j < e ==> spec_is_digit(#[trigger] v@[j]),
            e == spec_scan_digits(v@, d0 as int),
            e > d0,
            neg == (i < v@.len() && v@[i as int] == '-'),
            d0 == if neg { i + 1 } else { i as int },
            limit == if neg { 9223372036854775808u64 } else { 9223372036854775807u64 },
            acc == spec_dec_val(digits.take(k - d0)),
            acc <= limit,
        decreases e - k,
    {
        if k >= e {
            proof {
                assert(digits.take(e - d0) =~= digits);
            }
            let value: i64 = if neg {
                if acc == 9223372036854775808u64 {
                    i64::MIN
                } else {
                    -(acc as i64)
                }
            } else {
                acc as i64
            };
            return Ok((value, e));
        }
        let d_u32 = v[k] as u32;
        proof {
            assert(spec_is_digit(v@[k as int]));
        }
        let d = (d_u32 - 48) as u64;
        if acc > (limit - d) / 10 {
            proof {
                let whole = spec_dec_val(digits);
                let upto = digits.take(k - d0 + 1);
                assert(upto.take(upto.len() - 1) =~= digits.take(k - d0));
                assert(upto[upto.len() - 1] == v@[k as int]);
                assert(spec_dec_val(upto) == acc * 10 + d);
                assert(acc * 10 + d > limit) by (nonlinear_arith)
                    requires
                        acc > (limit - d) / 10,
                        0 <= d < 10,
                        acc >= 0,
                        d <= limit,
                ;
                assert(forall|j: int| 0 <= j < digits.len() ==> spec_is_digit(
                    #[trigger] digits[j],
                ));
                lemma_dec_val_prefix(digits, k - d0 + 1);
                assert(whole >= spec_dec_val(upto));
            }
            return Err(err_at("invalid number", e));
        }
        proof {
            assert(acc * 10 + d <= limit) by (nonlinear_arith)
                requires
                    acc <= (limit - d) / 10,
                    0 <= d < 10,
                    acc >= 0,
            ;
            let upto = digits.take(k - d0 + 1);
            assert(upto.take(upto.len() - 1) =~= digits.take(k - d0));
            assert(upto[upto.len() - 1] == v@[k as int]);
            assert(spec_dec_val(upto) == acc * 10 + d);
        }
        acc = acc * 10 + d;
        k += 1;
    }
}

fn parse_string_at(v: &Vec<char>, i: usize) -> (r: Result<(String, usize), Error>)
    requires
        i <= v@.len(),
    ensures
        match r {
            Ok((c, e)) => spec_parse_string(v@, i as int) == Ok::<(Seq<char>, int), QErr>(
                (c@, e as int),
            ) && i < e <= v@.len(),
            Err(er) => spec_parse_string(v@, i as int) matches Err(qe) && er@ == qerr_error(qe),
        },
{
    if i >= v.len() {
        return Err(err_at("expected string", i));
    }
    let q = v[i];
    if q != '"' && q != '\'' {
        return Err(err_at("expected string quote", i));
    }
    let mut out: Vec<char> = Vec::new();
    let mut k = i + 1;
    proof {
        assert(out@ =~= Seq::<char>::empty());
    }
    loop
        invariant
            i < k <= v@.len() + 1,
            k <= v@.len() + 1,
            q == v@[i as int],
            q == '"' || q == '\'',
            k <= v@.len() ==> spec_string_body(v@, q, i + 1, Seq::empty()) == spec_string_body(
                v@,
                q,
                k as int,
                out@,
            ),
            k <= v@.len(),
        decreases v@.len() - k,
    {
        if k >= v.len() {
            return Err(err_at("unterminated string", v.len()));
        }
        let c = v[k];
        if c == q {
            let text = chars_to_string(&out);
            return Ok((text, k + 1));
        }
        if c == '\\' {
            if k + 1 >= v.len() {
                return Err(err_at("unterminated escape sequence", v.len()));
            }
            let esc = v[k + 1];
            if esc == '"' || esc == '\'' || esc == '\\' {
                out.push(esc);
            } else if esc == 'n' {
                out.push('\n');
            } else if esc == 't' {
                out.push('\t');
            } else {
                return Err(err_at("unsupported string escape", k + 2));
            }
            k += 2;
        } else {
            out.push(c);
            k += 1;
        }
    }
}

fn parse_arg_at(v: &Vec<char>, i: usize) -> (r: Result<(Arg, usize), Error>)
    requires
        i <= v@.len(),
    ensures
        match r {
            Ok((a, e)) => spec_parse_arg(v@, i as int) == Ok::<(ArgModel, int), QErr>(
                (a@, e as int),
            ) && i < e <= v@.len(),
            Err(er) => spec_parse_arg(v@, i as int) matches Err(qe) && er@ == qerr_error(qe),
        },
{
    let j = skip_ws(v, i);
    if j >= v.len() {
        return Err(err_at("expected function argument", j));
    }
    let c = v[j];
    if c == '"' || c == '\'' {
        match parse_string_at(v, j) {
            Ok((text, e)) => Ok((Arg::String(text), e)),
            Err(er) => Err(er),
        }
    } else if is_digit_char(c) || c == '-' {
        match parse_i64_at(v, j) {
            Ok((n, e)) => Ok((Arg::Number(n), e)),
            Err(er) => Err(er),
        }
    } else {
        match parse_ident(v, j) {
            Ok((name, e)) => Ok((Arg::Ident(name), e)),
            Err(er) => Err(er),
        }
    }
}

fn parse_segment_at(v: &Vec<char>, i: usize) -> (r: Result<(Segment, usize), Error>)
    requires
        i <= v@.len(),
    ensures
        match r {
            Ok((seg, e)) => spec_parse_segment(v@, i as int) == Ok::<(SegModel, int), QErr>(
                (seg@, e as int),
            ) && i < e <= v@.len(),
            Err(er) => spec_parse_segment(v@, i as int) matches Err(qe) && er@ == qerr_error(qe),
        },
{
    let (name, j) = match parse_ident(v, i) {
        Ok(x) => x,
        Err(er) => {
            return Err(er);
        },
    };
    let k = skip_ws(v, j);
    if k < v.len() && v[k] == '[' {
        let m = skip_ws(v, k + 1);
        let (index, e): (Index, usize) = if m < v.len() && v[m] == '*' {
            (Index::Wildcard, m + 1)
        } else if m < v.len() && (v[m] == '"' || v[m] == '\'') {
            match parse_string_at(v, m) {
                Ok((text, e)) => (Index::Key(text), e),
                Err(er) => {
                    return Err(er);
                },
            }
        } else if m < v.len() && is_digit_char(v[m]) {
            match parse_usize_at(v, m) {
                Ok((n, e)) => (Index::Position(n), e),
                Err(er) => {
                    return Err(er);
                },
            }
        } else {
            return Err(err_at("expected numeric, wildcard, or string index", m));
        };
        let w = skip_ws(v, e);
        if w < v.len() && v[w] == ']' {
            Ok((Segment::Indexed { ident: name, index }, w + 1))
        } else {
            Err(err_at("expected ']'", w))
        }
    } else if k < v.len() && v[k] == '(' {
        let p0 = skip_ws(v, k + 1);
        if p0 < v.len() && v[p0] == ')' {
            let seg = Segment::Function { ident: name, args: Vec::new() };
            proof {
                assert(seg@->Function_args =~= Seq::<ArgModel>::empty());
            }
            return Ok((seg, p0 + 1));
        }
        let mut args: Vec<Arg> = Vec::new();
        let mut p = p0;
        proof {
            assert(args_view(args@) =~= Seq::<ArgModel>::empty());
        }
        loop
            invariant
                i < p0 <= v@.len(),
                p0 <= p <= v@.len(),
                spec_parse_segment(v@, i as int) == match spec_parse_args(
                    v@,
                    p as int,
                    args_view(args@),
                ) {
                    Ok((a, e2)) => Ok::<(SegModel, int), QErr>(
                        (SegModel::Function { ident: name@, args: a }, e2),
                    ),
                    Err(qe) => Err(qe),
                },
            decreases v@.len() - p,
        {
            let (a, e) = match parse_arg_at(v, p) {
                Ok(x) => x,
                Err(er) => {
                    return Err(er);
                },
            };
            let ghost old_args = args@;
            args.push(a);
            proof {
                assert(args_view(args@) =~= args_view(old_args).push(a@));
            }
            let qpos = skip_ws(v, e);
            if qpos < v.len() && v[qpos] == ',' {
                p = skip_ws(v, qpos + 1);
            } else if qpos < v.len() && v[qpos] == ')' {
                let seg = Segment::Function { ident: name, args };
                return Ok((seg, qpos + 1));
            } else {
                return Err(err_at("expected ',' or ')'", qpos));
            }
        }
    } else {
        Ok((Segment::Ident(name), k))
    }
}

/// The views of an argument vector.
pub open spec fn args_view(args: Seq<Arg>) -> Seq<ArgModel> {
    Seq::new(args.len(), |i: int| args[i]@)
}

impl Query {
    /// Parses a query string, as the grammar gives it: at least one
    /// segment, dot-separated, with indexes and argument lists.
    pub fn parse(input: &str) -> (r: Result<Self, Error>)
        ensures
            match r {
                Ok(q) => {
                    &&& spec_parse_query(input@) matches Ok(segs) && segs_view(q.segments@)
                        == segs
                    &&& q.source@ == input@
                    &&& q.segments@.len() >= 1
                },
                Err(e) => spec_parse_query(input@) matches Err(qe) && e@ == qerr_error(qe),
            },
    {
        let v = str_to_chars(input);
        let i0 = skip_ws(&v, 0);
        if i0 >= v.len() {
            return Err(err_at("query is empty", i0));
        }
        let (seg, j) = match parse_segment_at(&v, i0) {
            Ok(x) => x,
            Err(er) => {
                return Err(er);
            },
        };
        let mut segments: Vec<Segment> = Vec::new();
        segments.push(seg);
        let mut p = j;
        proof {
            assert(segs_view(segments@) =~= seq![segments@[0]@]);
        }
        loop
            invariant
                p <= v@.len(),
                v@ == input@,
                segments@.len() >= 1,
                spec_parse_query(input@) == spec_parse_more(v@, p as int, segs_view(segments@)),
            decreases v@.len() + 1 - p,
        {
            let q = skip_ws(&v, p);
            if q >= v.len() {
                let source = input.to_owned();
                return Ok(Self { source, segments });
            }
            if v[q] != '.' {
                return Err(err_at("expected '.'", q));
            }
            let k = skip_ws(&v, q + 1);
            let (seg, m) = match parse_segment_at(&v, k) {
                Ok(x) => x,
                Err(er) => {
                    return Err(er);
                },
            };
            let ghost old_segs = segments@;
            segments.push(seg);
            proof {
                assert(segs_view(segments@) =~= segs_view(old_segs).push(seg@));
            }
            p = m;
        }
    }
}

/// Parses a query string; see [`Query::parse`].
pub fn parse_query(input: &str) -> (r: Result<Query, Error>)
    ensures
        match r {
            Ok(q) => {
                &&& spec_parse_query(input@) matches Ok(segs) && segs_view(q.segments@) == segs
                &&& q.source@ == input@
                &&& q.segments@.len() >= 1
            },
            Err(e) => spec_parse_query(input@) matches Err(qe) && e@ == qerr_error(qe),
        },
{
    Query::parse(input)
}

impl PartialEq for Index {
    fn eq(&self, other: &Self) -> (r: bool) {
        match (self, other) {
            (Index::Position(a), Index::Position(b)) => a == b,
            (Index::Wildcard, Index::Wildcard) => true,
            (Index::Key(a), Index::Key(b)) => crate::text::str_eq(a.as_str(), b.as_str()),
            _ => false,
        }
    }
}

impl vstd::std_specs::cmp::PartialEqSpecImpl for Index {
    open spec fn obeys_eq_spec() -> bool {
        true
    }

    open spec fn eq_spec(&self, other: &Self) -> bool {
        self@ == other@
    }
}

impl Eq for Index {

}

impl PartialEq for Arg {
    fn eq(&self, other: &Self) -> (r: bool) {
        match (self, other) {
            (Arg::String(a), Arg::String(b)) => crate::text::str_eq(a.as_str(), b.as_str()),
            (Arg::Ident(a), Arg::Ident(b)) => crate::text::str_eq(a.as_str(), b.as_str()),
            (Arg::Number(a), Arg::Number(b)) => a == b,
            _ => false,
        }
    }
}

impl vstd::std_specs::cmp::PartialEqSpecImpl for Arg {
    open spec fn obeys_eq_spec() -> bool {
        true
    }

    open spec fn eq_spec(&self, other: &Self) -> bool {
        self@ == other@
    }
}

impl Eq for Arg {

}

impl PartialEq for Segment {
    fn eq(&self, other: &Self) -> (r: bool) {
        match (self, other) {
            (Segment::Ident(a), Segment::Ident(b)) => crate::text::str_eq(
                a.as_str(),
                b.as_str(),
            ),
            (
                Segment::Indexed { ident: ia, index: xa },
                Segment::Indexed { ident: ib, index: xb },
            ) => crate::text::str_eq(ia.as_str(), ib.as_str()) && xa == xb,
            (
                Segment::Function { ident: ia, args: aa },
                Segment::Function { ident: ib, args: ab },
            ) => {
                if !crate::text::str_eq(ia.as_str(), ib.as_str()) {
                    return false;
                }
                if aa.len() != ab.len() {
                    proof {
                        assert(args_view(aa@).len() != args_view(ab@).len());
                    }
                    return false;
                }
                let mut i: usize = 0;
                while i < aa.len()
                    invariant
                        i <= aa@.len(),
                        aa@.len() == ab@.len(),
                        ia@ == ib@,
                        self@ == (SegModel::Function { ident: ia@, args: args_view(aa@) }),
                        other@ == (SegModel::Function { ident: ib@, args: args_view(ab@) }),
                        forall|j: int| 0 <= j < i ==> aa@[j]@ == ab@[j]@,
                    decreases aa@.len() - i,
                {
                    if !(&aa[i] == &ab[i]) {
                        proof {
                            assert(aa@[i as int]@ != ab@[i as int]@);
                            assert(args_view(aa@)[i as int] != args_view(ab@)[i as int]);
                        }
                        return false;
                    }
                    i += 1;
                }
                proof {
                    assert(args_view(aa@) =~= args_view(ab@));
                }
                true
            },
            _ => {
                proof {
                    assert(self@ != other@);
                }
                false
            },
        }
    }
}

impl vstd::std_specs::cmp::PartialEqSpecImpl for Segment {
    open spec fn obeys_eq_spec() -> bool {
        true
    }

    open spec fn eq_spec(&self, other: &Self) -> bool {
        self@ == other@
    }
}

impl Eq for Segment {

}

} // verus!
