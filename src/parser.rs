use vstd::prelude::*;
use vstd::string::StringSliceAdditionalSpecFns;

use crate::frontend::{all_well_formed, well_formed, Expr, Parameter, Span, Type};

verus! {

/// Where parsing stopped and what was expected there.
#[derive(Debug, PartialEq, Eq)]
pub struct ParseError {
    pub offset: usize,
    pub expected: &'static str,
    /// The text at `offset` is an identifier that names no type.
    pub unknown_type_name: bool,
}

/// Relies on `String::from_utf8_lossy`: valid UTF-8 is kept as it is, so ASCII bytes come
/// back as the same characters.
#[verifier::external_body]
fn text_of(b: &Vec<u8>, start: usize, end: usize) -> (r: String)
    requires
        start <= end <= b@.len(),
    ensures
        (forall|i: int| start <= i < end ==> b@[i] < 128) ==> r@ == b@.subrange(
            start as int,
            end as int,
        ).map_values(|c: u8| c as char),
{
    String::from_utf8_lossy(&b[start..end]).into_owned()
}

fn fail<T>(offset: usize, expected: &'static str) -> (r: Result<T, ParseError>)
    ensures
        r == Err::<T, ParseError>(ParseError { offset, expected, unknown_type_name: false }),
{
    Err(ParseError { offset, expected, unknown_type_name: false })
}

/// A blank, tab, line feed or carriage return.
pub open spec fn space_byte(c: u8) -> bool {
    c == 32 || c == 9 || c == 10 || c == 13
}

/// A letter, a digit or an underscore.
pub open spec fn ident_byte(c: u8) -> bool {
    (97 <= c && c <= 122) || (65 <= c && c <= 90) || c == 95 || (48 <= c && c <= 57)
}

/// The source is whitespace only.
pub open spec fn blank(src: Seq<u8>) -> bool {
    forall|i: int| 0 <= i < src.len() ==> space_byte(#[trigger] src[i])
}

/// The ASCII text that a span covers.
pub open spec fn text_at(src: Seq<u8>, s: Span) -> Seq<char> {
    src.subrange(s.start as int, s.end as int).map_values(|c: u8| c as char)
}

/// A letter or an underscore: what an identifier starts with.
pub open spec fn ident_start_byte(c: u8) -> bool {
    (97 <= c && c <= 122) || (65 <= c && c <= 90) || c == 95
}

/// The position of the first non-whitespace byte at or after `pos`.
pub open spec fn ws_end(src: Seq<u8>, pos: int) -> int
    decreases src.len() - pos,
{
    if 0 <= pos < src.len() && space_byte(src[pos]) {
        ws_end(src, pos + 1)
    } else {
        pos
    }
}

/// The position after the text `s`, if it stands at `pos`; the empty text never does.
pub open spec fn lit_end(src: Seq<u8>, pos: int, s: &str) -> Option<int> {
    let t = s.spec_bytes();
    if t.len() > 0 && 0 <= pos && pos + t.len() <= src.len() && src.subrange(pos, pos + t.len()) == t {
        Some(pos + t.len())
    } else {
        None
    }
}

/// The position after the keyword `s`, if it stands at `pos` as a whole word.
pub open spec fn keyword_end(src: Seq<u8>, pos: int, s: &str) -> Option<int> {
    match lit_end(src, pos, s) {
        Some(e) => if e >= src.len() || !ident_byte(src[e]) {
            Some(e)
        } else {
            None
        },
        None => None,
    }
}

/// A reserved word stands at `pos`.
pub open spec fn keyword_at(src: Seq<u8>, pos: int) -> bool {
    ||| keyword_end(src, pos, "let") is Some
    ||| keyword_end(src, pos, "if") is Some
    ||| keyword_end(src, pos, "elif") is Some
    ||| keyword_end(src, pos, "else") is Some
    ||| keyword_end(src, pos, "while") is Some
    ||| keyword_end(src, pos, "is") is Some
    ||| keyword_end(src, pos, "not") is Some
    ||| keyword_end(src, pos, "fn") is Some
}

/// The end of the run of identifier bytes from `pos`.
pub open spec fn ident_run_end(src: Seq<u8>, pos: int) -> int
    decreases src.len() - pos,
{
    if 0 <= pos < src.len() && ident_byte(src[pos]) {
        ident_run_end(src, pos + 1)
    } else {
        pos
    }
}

/// The end of the identifier at `pos`, if one stands there.
pub open spec fn ident_end(src: Seq<u8>, pos: int) -> Option<int> {
    if 0 <= pos < src.len() && ident_start_byte(src[pos]) && !keyword_at(src, pos) {
        Some(ident_run_end(src, pos + 1))
    } else {
        None
    }
}

/// The type whose name stands at `pos`, and the end of the name.
pub open spec fn type_at(src: Seq<u8>, pos: int) -> Option<(Type, int)> {
    match ident_end(src, pos) {
        Some(e) => match Type::named(text_at(src, Span { start: pos as usize, end: e as usize })) {
            Some(t) => Some((t, e)),
            None => None,
        },
        None => None,
    }
}

/// The position after the words, each preceded by optional whitespace.
pub open spec fn phrase_end(src: Seq<u8>, pos: int, words: Seq<&str>) -> Option<int>
    decreases words.len(),
{
    if words.len() == 0 {
        Some(pos)
    } else {
        match phrase_end(src, pos, words.drop_last()) {
            Some(p) => lit_end(src, ws_end(src, p), words.last()),
            None => None,
        }
    }
}

/// A parameter line starts at `pos`: `//`, then `'`.
pub open spec fn parameter_line_at(src: Seq<u8>, pos: int) -> bool {
    match lit_end(src, ws_end(src, pos), "//") {
        Some(q) => lit_end(src, ws_end(src, q), "'") is Some,
        None => false,
    }
}

/// The parameter line `// 'name' is of type Type.` at `pos`: the name, the type, the span of
/// the type's name, and the end of the line.
#[verifier::opaque]
pub open spec fn parameter_at(src: Seq<u8>, pos: int) -> Option<(Seq<char>, Type, Span, int)> {
    match lit_end(src, ws_end(src, pos), "//") {
        Some(p1) => match lit_end(src, ws_end(src, p1), "'") {
            Some(p2) => match ident_end(src, p2) {
                Some(q) => match lit_end(src, q, "'") {
                    Some(p3) => match phrase_end(src, p3, seq!["is", "of", "type"]) {
                        Some(p4) => match type_at(src, ws_end(src, p4)) {
                            Some((t, q2)) => match lit_end(src, q2, ".") {
                                Some(end) => Some(
                                    (
                                        text_at(src, Span { start: p2 as usize, end: q as usize }),
                                        t,
                                        Span { start: ws_end(src, p4) as usize, end: q2 as usize },
                                        end,
                                    ),
                                ),
                                None => None,
                            },
                            None => None,
                        },
                        None => None,
                    },
                    None => None,
                },
                None => None,
            },
            None => None,
        },
        None => None,
    }
}

/// The parameter lines from `pos` on, and the position after the last one.
pub open spec fn parameters_from(src: Seq<u8>, pos: int) -> Option<(Seq<(Seq<char>, Type, Span)>, int)>
    decreases src.len() - pos,
{
    if parameter_line_at(src, pos) {
        match parameter_at(src, pos) {
            Some((n, t, sp, e)) => if pos < e <= src.len() {
                match parameters_from(src, e) {
                    Some((ps, f)) => Some((seq![(n, t, sp)] + ps, f)),
                    None => None,
                }
            } else {
                None
            },
            None => None,
        }
    } else {
        Some((Seq::empty(), pos))
    }
}

/// A declaration whose body is empty, as written in the source.
pub struct DeclView {
    pub name: Seq<char>,
    pub name_span: Span,
    pub params: Seq<(Seq<char>, Type, Span)>,
    pub ret: Type,
    pub end: int,
}

/// The declaration with an empty body that stands at `pos`, if one does:
/// `// name is a function.`, `// Params:`, its parameter lines, `// Returns: Type`, then
/// `fn { }`, with any whitespace between.
pub open spec fn empty_declaration_at(src: Seq<u8>, pos: int) -> Option<DeclView> {
    match lit_end(src, ws_end(src, pos), "//") {
        Some(p) => {
            let start = ws_end(src, p);
            match ident_end(src, start) {
                Some(ne) => match phrase_end(src, ne, seq!["is", "a", "function.", "//", "Params:"]) {
                    Some(q) => match parameters_from(src, q) {
                        Some((ps, q1)) => match phrase_end(src, q1, seq!["//", "Returns:"]) {
                            Some(q2) => match type_at(src, ws_end(src, q2)) {
                                Some((ret, q3)) => match phrase_end(src, q3, seq!["fn"]) {
                                    Some(q4) => match lit_end(src, ws_end(src, q4), "{") {
                                        Some(q5) => match lit_end(src, ws_end(src, q5), "}") {
                                            Some(end) => Some(
                                                DeclView {
                                                    name: text_at(src, Span { start: start as usize, end: ne as usize }),
                                                    name_span: Span { start: start as usize, end: ne as usize },
                                                    params: ps,
                                                    ret,
                                                    end,
                                                },
                                            ),
                                            None => None,
                                        },
                                        None => None,
                                    },
                                    None => None,
                                },
                                None => None,
                            },
                            None => None,
                        },
                        None => None,
                    },
                    None => None,
                },
                None => None,
            }
        },
        None => None,
    }
}

/// The declarations with empty bodies that the source consists of from `pos` on, separated
/// by whitespace, if it consists of such declarations only.
pub open spec fn empty_declarations_from(src: Seq<u8>, pos: int) -> Option<Seq<DeclView>>
    decreases src.len() - pos,
{
    let p = ws_end(src, pos);
    if p >= src.len() || p < 0 {
        Some(Seq::empty())
    } else {
        match empty_declaration_at(src, p) {
            Some(d) => if pos < d.end && p < d.end <= src.len() {
                match empty_declarations_from(src, d.end) {
                    Some(ds) => Some(seq![d] + ds),
                    None => None,
                }
            } else {
                None
            },
            None => None,
        }
    }
}

/// A parameter as a mathematical value: its name, its type and the span of its type name.
pub open spec fn parameter_views(params: Seq<(Parameter, Span)>) -> Seq<(Seq<char>, Type, Span)> {
    params.map_values(|p: (Parameter, Span)| (p.0.name@, p.0.typename, p.1))
}

/// The parsed function is the declaration as written, with an empty body.
pub open spec fn parsed_as(e: Expr, d: DeclView) -> bool {
    match e {
        Expr::Function(name, params, ret, body, span) => {
            &&& name@ == d.name
            &&& span == d.name_span
            &&& parameter_views(params@) == d.params
            &&& ret == d.ret
            &&& body@.len() == 0
        },
        _ => false,
    }
}

/// What an error about a type name reports: an identifier at its offset that names no type.
pub open spec fn type_error_ok(src: Seq<u8>, e: ParseError) -> bool {
    e.unknown_type_name ==> match ident_end(src, e.offset as int) {
        Some(end) => Type::named(text_at(src, Span { start: e.offset, end: end as usize })) is None,
        None => false,
    }
}

/// What a parse error at an unrecognized type name expects.
pub const TYPE_NAME_EXPECTED: &'static str = "a type name: Int, Float, String, Bool or Void";

fn is_space(c: u8) -> (r: bool)
    ensures
        r == space_byte(c),
{
    c == 32 || c == 9 || c == 10 || c == 13
}

fn is_ident_start(c: u8) -> (r: bool)
    ensures
        r == ident_start_byte(c),
        r ==> ident_byte(c),
{
    (97 <= c && c <= 122) || (65 <= c && c <= 90) || c == 95
}

fn is_ident_char(c: u8) -> (r: bool)
    ensures
        r == ident_byte(c),
{
    (97 <= c && c <= 122) || (65 <= c && c <= 90) || c == 95 || (48 <= c && c <= 57)
}

fn is_digit(c: u8) -> bool {
    48 <= c && c <= 57
}

/// The position after any whitespace at `pos`.
fn skip_ws(b: &Vec<u8>, pos: usize) -> (r: usize)
    requires
        pos <= b@.len(),
    ensures
        pos <= r <= b@.len(),
        forall|i: int| pos <= i < r ==> space_byte(#[trigger] b@[i]),
        r < b@.len() ==> !space_byte(b@[r as int]),
        r == ws_end(b@, pos as int),
{
    let mut p = pos;
    while p < b.len() && is_space(b[p])
        invariant
            pos <= p <= b@.len(),
            forall|i: int| pos <= i < p ==> space_byte(#[trigger] b@[i]),
            ws_end(b@, p as int) == ws_end(b@, pos as int),
        decreases b@.len() - p,
    {
        p = p + 1;
    }
    p
}

/// The position after the text `s`, if it stands at `pos`; the empty text never does.
fn after(b: &Vec<u8>, pos: usize, s: &str) -> (r: Option<usize>)
    requires
        pos <= b@.len(),
    ensures
        r matches Some(p) ==> pos < p <= b@.len(),
        r == (match lit_end(b@, pos as int, s) {
            Some(e) => Some(e as usize),
            None => None::<usize>,
        }),
{
    let t = s.as_bytes();
    if t.len() == 0 || t.len() > b.len() - pos {
        return None;
    }
    let end = pos + t.len();
    let mut i: usize = 0;
    while i < t.len()
        invariant
            i <= t@.len(),
            end == pos + t@.len(),
            end <= b@.len(),
            t@ == s.spec_bytes(),
            forall|j: int| 0 <= j < i ==> b@[pos + j] == t@[j],
        decreases t@.len() - i,
    {
        if b[pos + i] != t[i] {
            assert(b@.subrange(pos as int, end as int)[i as int] != t@[i as int]);
            return None;
        }
        i = i + 1;
    }
    assert(b@.subrange(pos as int, end as int) =~= t@);
    Some(end)
}

/// The position after the text `s`, which must stand at `pos`.
fn expect(b: &Vec<u8>, pos: usize, s: &str, what: &'static str) -> (r: Result<usize, ParseError>)
    requires
        pos <= b@.len(),
    ensures
        r matches Err(e) ==> e.offset <= b@.len(),
        r matches Ok(p) ==> pos < p <= b@.len(),
        r matches Err(e) ==> !e.unknown_type_name,
        r is Ok == lit_end(b@, pos as int, s) is Some,
        r matches Ok(p) ==> lit_end(b@, pos as int, s) == Some(p as int),
{
    let n = b.len();
    match after(b, pos, s) {
        Some(p) => {
            assert(p <= n);
            Ok(p)
        },
        None => fail(pos, what),
    }
}

/// The position after the keyword `s`, if it stands at `pos` as a whole word.
fn keyword(b: &Vec<u8>, pos: usize, s: &str) -> (r: Option<usize>)
    requires
        pos <= b@.len(),
    ensures
        r matches Some(p) ==> pos < p <= b@.len(),
        r == (match keyword_end(b@, pos as int, s) {
            Some(e) => Some(e as usize),
            None => None::<usize>,
        }),
{
    match after(b, pos, s) {
        Some(end) => if end >= b.len() || !is_ident_char(b[end]) {
            Some(end)
        } else {
            None
        },
        None => None,
    }
}

fn is_keyword(b: &Vec<u8>, pos: usize) -> (r: bool)
    requires
        pos <= b@.len(),
    ensures
        r == keyword_at(b@, pos as int),
{
    keyword(b, pos, "let").is_some() || keyword(b, pos, "if").is_some() || keyword(b, pos, "elif").is_some()
        || keyword(b, pos, "else").is_some() || keyword(b, pos, "while").is_some()
        || keyword(b, pos, "is").is_some() || keyword(b, pos, "not").is_some() || keyword(b, pos, "fn").is_some()
}

/// An identifier at `pos` and the position after it.
fn identifier(b: &Vec<u8>, pos: usize) -> (r: Result<(String, usize), ParseError>)
    requires
        pos <= b@.len(),
    ensures
        r matches Err(e) ==> e.offset <= b@.len(),
        r matches Ok((_, p)) ==> pos < p <= b@.len(),
        r matches Ok((name, p)) ==> name@ == text_at(b@, Span { start: pos, end: p }),
        r is Ok == ident_end(b@, pos as int) is Some,
        r matches Ok((_, p)) ==> ident_end(b@, pos as int) == Some(p as int),
        r matches Err(e) ==> e.offset == pos && !e.unknown_type_name,
{
    if pos >= b.len() || !is_ident_start(b[pos]) || is_keyword(b, pos) {
        return fail(pos, "an identifier");
    }
    let mut p = pos + 1;
    while p < b.len() && is_ident_char(b[p])
        invariant
            pos < p <= b@.len(),
            forall|i: int| pos <= i < p ==> ident_byte(#[trigger] b@[i]),
            ident_run_end(b@, p as int) == ident_run_end(b@, pos + 1),
        decreases b@.len() - p,
    {
        p = p + 1;
    }
    assert forall|i: int| pos <= i < p implies b@[i] < 128 by {
        assert(ident_byte(b@[i]));
    }
    Ok((text_of(b, pos, p), p))
}

/// A type name at `pos`, its span, and the position after it.
fn type_annotation(b: &Vec<u8>, pos: usize) -> (r: Result<(Type, Span, usize), ParseError>)
    requires
        pos <= b@.len(),
    ensures
        r matches Err(e) ==> e.offset <= b@.len(),
        r matches Ok((_, _, p)) ==> pos < p <= b@.len(),
        r matches Ok((t, span, p)) ==> span == (Span { start: pos, end: p }) && Type::named(
            text_at(b@, span),
        ) == Some(t),
        r is Ok == type_at(b@, pos as int) is Some,
        r matches Ok((t, _, p)) ==> type_at(b@, pos as int) == Some((t, p as int)),
        r matches Err(e) ==> type_error_ok(b@, e),
{
    match identifier(b, pos) {
        Ok((name, p)) => match Type::from_name(name.as_str()) {
            Some(t) => Ok((t, Span { start: pos, end: p }, p)),
            None => Err(ParseError { offset: pos, expected: TYPE_NAME_EXPECTED, unknown_type_name: true }),
        },
        Err(e) => Err(e),
    }
}

/// A number literal at `pos` and the position after it.
fn number(b: &Vec<u8>, pos: usize) -> (r: Result<(Expr, usize), ParseError>)
    requires
        pos <= b@.len(),
    ensures
        r matches Err(e) ==> !e.unknown_type_name,
        r matches Err(e) ==> e.offset <= b@.len(),
        r matches Ok((e, p)) ==> pos < p <= b@.len() && well_formed(e),
{
    let mut value: u64 = 0;
    let mut p = pos;
    while p < b.len() && 48 <= b[p] && b[p] <= 57
        invariant
            pos <= p <= b@.len(),
        decreases b@.len() - p,
    {
        let d = (b[p] - 48) as u64;
        if value > (u64::MAX - d) / 10 {
            return fail(pos, "an integer that fits in 64 bits");
        }
        value = value * 10 + d;
        p = p + 1;
    }
    if p == pos {
        return fail(pos, "a digit");
    }
    Ok((Expr::Number(value, Span { start: pos, end: p }), p))
}

/// A string literal at `pos` and the position after it.
fn string_literal(b: &Vec<u8>, pos: usize) -> (r: Result<(Expr, usize), ParseError>)
    requires
        pos <= b@.len(),
    ensures
        r matches Err(e) ==> !e.unknown_type_name,
        r matches Err(e) ==> e.offset <= b@.len(),
        r matches Ok((e, p)) ==> pos < p <= b@.len() && well_formed(e),
{
    if pos >= b.len() || b[pos] != 34 {
        return fail(pos, "\"");
    }
    let mut p = pos + 1;
    while p < b.len() && b[p] != 34
        invariant
            pos < p <= b@.len(),
        decreases b@.len() - p,
    {
        p = p + 1;
    }
    if p >= b.len() {
        return fail(p, "a closing \"");
    }
    let s = text_of(b, pos + 1, p);
    Ok((Expr::String(s, Span { start: pos, end: p + 1 }), p + 1))
}

/// The binary operator that stands at `pos` at precedence level `level`, if any: its
/// index among the level's operators and the position after it.
fn operator_at(b: &Vec<u8>, pos: usize, level: usize) -> (r: Option<(usize, usize)>)
    requires
        pos <= b@.len(),
    ensures
        r matches Some((_, p)) ==> pos < p <= b@.len(),
{
    let table: [(&str, usize, usize); 9] = [
        ("<=", 0, 4),
        (">=", 0, 5),
        ("<", 0, 3),
        (">", 0, 2),
        ("+", 1, 0),
        ("-", 1, 1),
        ("*", 2, 0),
        ("/", 2, 1),
        ("^", 3, 0),
    ];
    if level == 0 {
        match keyword(b, pos, "is") {
            Some(q) => {
                let q2 = skip_ws(b, q);
                if q2 > q {
                    match keyword(b, q2, "not") {
                        Some(q3) => {
                            return Some((1, q3));
                        },
                        None => {},
                    }
                }
                return Some((0, q));
            },
            None => {},
        }
    }
    let mut i: usize = 0;
    while i < 9
        invariant
            pos <= b@.len(),
        decreases 9 - i,
    {
        let (text, lvl, op) = table[i];
        if lvl == level {
            match after(b, pos, text) {
                Some(p) => {
                    return Some((op, p));
                },
                None => {},
            }
        }
        i = i + 1;
    }
    None
}

/// The node for operator `op` of precedence level `level`.
fn combine(level: usize, op: usize, l: Expr, r: Expr) -> (e: Expr)
    requires
        well_formed(l),
        well_formed(r),
    ensures
        well_formed(e),
{
    let (l, r) = (Box::new(l), Box::new(r));
    if level == 0 {
        if op == 0 {
            Expr::Equality(l, r)
        } else if op == 1 {
            Expr::NotEqual(l, r)
        } else if op == 2 {
            Expr::GreaterThan(l, r)
        } else if op == 3 {
            Expr::LessThan(l, r)
        } else if op == 4 {
            Expr::LessThanEqual(l, r)
        } else {
            Expr::GreaterThanEqual(l, r)
        }
    } else if level == 1 {
        if op == 0 {
            Expr::Addition(l, r)
        } else {
            Expr::Subtraction(l, r)
        }
    } else if level == 2 {
        if op == 0 {
            Expr::Multiplication(l, r)
        } else {
            Expr::Division(l, r)
        }
    } else {
        Expr::Power(l, r)
    }
}

/// Skipping whitespace twice is skipping it once.
proof fn lemma_ws_end_idempotent(src: Seq<u8>, pos: int)
    requires
        0 <= pos <= src.len(),
    ensures
        pos <= ws_end(src, pos) <= src.len(),
        ws_end(src, ws_end(src, pos)) == ws_end(src, pos),
    decreases src.len() - pos,
{
    if pos < src.len() && space_byte(src[pos]) {
        lemma_ws_end_idempotent(src, pos + 1);
    }
}

proof fn lemma_phrase_prefix_fault(src: Seq<u8>, pos: int, words: Seq<&str>, k: int)
    requires
        0 <= k <= words.len(),
        phrase_end(src, pos, words.take(k)) is None,
    ensures
        phrase_end(src, pos, words) is None,
    decreases words.len(),
{
    if words.len() > k {
        assert(words.drop_last().take(k) =~= words.take(k));
        lemma_phrase_prefix_fault(src, pos, words.drop_last(), k);
    } else {
        assert(words.take(k) =~= words);
    }
}

/// The position after the words, each preceded by optional whitespace.
fn phrase(b: &Vec<u8>, pos: usize, words: &[&str], what: &'static str) -> (r: Result<usize, ParseError>)
    requires
        pos <= b@.len(),
    ensures
        r matches Err(e) ==> e.offset <= b@.len(),
        r matches Ok(p) ==> pos <= p <= b@.len(),
        r is Ok == phrase_end(b@, pos as int, words@) is Some,
        r matches Ok(p) ==> phrase_end(b@, pos as int, words@) == Some(p as int),
        r matches Err(e) ==> type_error_ok(b@, e),
{
    let mut p = pos;
    let mut i: usize = 0;
    while i < words.len()
        invariant
            pos <= p <= b@.len(),
            i <= words@.len(),
            phrase_end(b@, pos as int, words@.take(i as int)) == Some(p as int),
        decreases words@.len() - i,
    {
        p = match expect(b, skip_ws(b, p), words[i], what) {
            Ok(x) => x,
            Err(e) => {
                proof {
                    assert(words@.take(i + 1).drop_last() =~= words@.take(i as int));
                    assert(words@.take(i + 1).last() == words@[i as int]);
                    lemma_phrase_prefix_fault(b@, pos as int, words@, i + 1);
                }
                return Err(e);
            },
        };
        assert(words@.take(i + 1).drop_last() =~= words@.take(i as int));
        assert(words@.take(i + 1).last() == words@[i as int]);
        i = i + 1;
    }
    assert(words@.take(i as int) =~= words@);
    Ok(p)
}

/// Appends a well-formed statement to a well-formed sequence.
fn push_statement(v: &mut Vec<Expr>, e: Expr)
    requires
        all_well_formed(old(v)@),
        well_formed(e),
    ensures
        all_well_formed(final(v)@),
        final(v)@ == old(v)@.push(e),
{
    let ghost before = v@;
    v.push(e);
    assert(v@.subrange(0, v@.len() - 1) =~= before);
}

/// Statements up to the closing brace of a body: the statements and the position of the
/// brace.
fn statements(b: &Vec<u8>, pos: usize) -> (r: Result<(Vec<Expr>, usize), ParseError>)
    requires
        pos <= b@.len(),
    ensures
        r matches Err(e) ==> e.offset <= b@.len(),
        r matches Ok((v, p)) ==> pos <= p <= b@.len() && all_well_formed(v@),
        r matches Err(e) ==> !e.unknown_type_name,
        lit_end(b@, ws_end(b@, pos as int), "}") is Some ==> ({
            &&& r matches Ok((v, p))
            &&& v@.len() == 0
            &&& p == ws_end(b@, pos as int)
        }),
    decreases b@.len() - pos, 8usize,
{
    let mut out: Vec<Expr> = Vec::new();
    assert(out@ =~= Seq::<Expr>::empty());
    let mut p = skip_ws(b, pos);
    while p < b.len() && after(b, p, "}").is_none()
        invariant
            pos <= p <= b@.len(),
            all_well_formed(out@),
            lit_end(b@, ws_end(b@, pos as int), "}") is Some ==> p == ws_end(b@, pos as int) && out@.len() == 0,
        decreases b@.len() - p,
    {
        match statement(b, p) {
            Ok((e, q)) => {
                push_statement(&mut out, e);
                p = skip_ws(b, q);
            },
            Err(err) => {
                return Err(err);
            },
        }
    }
    Ok((out, p))
}

/// `{ statements }` at `pos`.
fn braced_body(b: &Vec<u8>, pos: usize) -> (r: Result<(Vec<Expr>, usize), ParseError>)
    requires
        pos <= b@.len(),
    ensures
        r matches Err(e) ==> e.offset <= b@.len(),
        r matches Ok((v, p)) ==> pos < p <= b@.len() && all_well_formed(v@),
        r matches Err(e) ==> !e.unknown_type_name,
        lit_end(b@, ws_end(b@, pos as int), "{") matches Some(q) ==> (lit_end(b@, ws_end(b@, q), "}") matches Some(
            e,
        ) ==> ({
            &&& r matches Ok((v, p))
            &&& v@.len() == 0
            &&& p == e
        })),
    decreases b@.len() - pos, 9usize,
{
    let p = match expect(b, skip_ws(b, pos), "{", "{") {
        Ok(p) => p,
        Err(e) => {
            return Err(e);
        },
    };
    proof {
        lemma_ws_end_idempotent(b@, p as int);
    }
    match statements(b, p) {
        Ok((body, q)) => match expect(b, skip_ws(b, q), "}", "}") {
            Ok(end) => Ok((body, end)),
            Err(e) => Err(e),
        },
        Err(e) => Err(e),
    }
}

/// One statement: `let name = value`, `name = value`, or an expression.
fn statement(b: &Vec<u8>, pos: usize) -> (r: Result<(Expr, usize), ParseError>)
    requires
        pos <= b@.len(),
    ensures
        r matches Err(e) ==> !e.unknown_type_name,
        r matches Err(e) ==> e.offset <= b@.len(),
        r matches Ok((e, p)) ==> pos < p <= b@.len() && well_formed(e),
    decreases b@.len() - pos, 7usize,
{
    match keyword(b, pos, "let") {
        Some(q) => {
            let (name, q2) = match identifier(b, skip_ws(b, q)) {
                Ok(x) => x,
                Err(e) => {
                    return Err(e);
                },
            };
            let q3 = match expect(b, skip_ws(b, q2), "=", "=") {
                Ok(x) => x,
                Err(e) => {
                    return Err(e);
                },
            };
            let start = skip_ws(b, q);
            return match expression(b, skip_ws(b, q3)) {
                Ok((value, end)) => Ok(
                    (Expr::Assign(name, Box::new(value), Span { start, end: q2 }), end),
                ),
                Err(e) => Err(e),
            };
        },
        None => {},
    }
    match identifier(b, pos) {
        Ok((name, q)) => {
            let q2 = skip_ws(b, q);
            match after(b, q2, "=") {
                Some(q3) => if q3 >= b.len() || b[q3] != 61 {
                    return match expression(b, skip_ws(b, q3)) {
                        Ok((value, end)) => Ok(
                            (Expr::Reassign(name, Box::new(value), Span { start: pos, end: q }), end),
                        ),
                        Err(e) => Err(e),
                    };
                },
                None => {},
            }
        },
        Err(_) => {},
    }
    expression(b, pos)
}

/// An `if`, a `while`, or an operator expression.
fn expression(b: &Vec<u8>, pos: usize) -> (r: Result<(Expr, usize), ParseError>)
    requires
        pos <= b@.len(),
    ensures
        r matches Err(e) ==> !e.unknown_type_name,
        r matches Err(e) ==> e.offset <= b@.len(),
        r matches Ok((e, p)) ==> pos < p <= b@.len() && well_formed(e),
    decreases b@.len() - pos, 6usize,
{
    match keyword(b, pos, "if") {
        Some(q) => {
            let (cond, q2) = match binary(b, skip_ws(b, q), 0) {
                Ok(x) => x,
                Err(e) => {
                    return Err(e);
                },
            };
            let (body, q3) = match braced_body(b, q2) {
                Ok(x) => x,
                Err(e) => {
                    return Err(e);
                },
            };
            let mut p = q3;
            let mut elifs: Vec<Expr> = Vec::new();
            assert(elifs@ =~= Seq::<Expr>::empty());
            loop
                invariant
                    pos < p <= b@.len(),
                    all_well_formed(elifs@),
                ensures
                    pos < p <= b@.len(),
                    all_well_formed(elifs@),
                decreases b@.len() - p,
            {
                let s = skip_ws(b, p);
                match keyword(b, s, "elif") {
                    Some(k) => {
                        let (c, k2) = match binary(b, skip_ws(b, k), 0) {
                            Ok(x) => x,
                            Err(e) => {
                                return Err(e);
                            },
                        };
                        let (eb, k3) = match braced_body(b, k2) {
                            Ok(x) => x,
                            Err(e) => {
                                return Err(e);
                            },
                        };
                        push_statement(&mut elifs, Expr::Elif(Box::new(c), eb, Span { start: s, end: k3 }));
                        p = k3;
                    },
                    None => {
                        break;
                    },
                }
            }
            let s = skip_ws(b, p);
            let els = match keyword(b, s, "else") {
                Some(k) => {
                    let (eb, k2) = match braced_body(b, k) {
                        Ok(x) => x,
                        Err(e) => {
                            return Err(e);
                        },
                    };
                    p = k2;
                    Some(Box::new(Expr::Else(eb, Span { start: s, end: k2 })))
                },
                None => None,
            };
            let elifs = if elifs.len() == 0 {
                None
            } else {
                Some(elifs)
            };
            assert(well_formed(cond));
            assert(all_well_formed(body@));
            assert(elifs matches Some(es) ==> all_well_formed(es@));
            assert(els matches Some(x) ==> well_formed(*x));
            assert(pos < p <= b@.len());
            return Ok((Expr::If(Box::new(cond), body, elifs, els, Span { start: pos, end: q3 }), p));
        },
        None => {},
    }
    match keyword(b, pos, "while") {
        Some(q) => {
            let (cond, q2) = match binary(b, skip_ws(b, q), 0) {
                Ok(x) => x,
                Err(e) => {
                    return Err(e);
                },
            };
            return match braced_body(b, q2) {
                Ok((body, q3)) => Ok((Expr::While(Box::new(cond), body, Span { start: pos, end: q3 }), q3)),
                Err(e) => Err(e),
            };
        },
        None => {},
    }
    binary(b, pos, 0)
}

/// An operator expression of precedence `level` or tighter: comparisons, then `+ -`, then
/// `* /`, all left-associative, then `^`, right-associative.
fn binary(b: &Vec<u8>, pos: usize, level: usize) -> (r: Result<(Expr, usize), ParseError>)
    requires
        pos <= b@.len(),
        level <= 3,
    ensures
        r matches Err(e) ==> !e.unknown_type_name,
        r matches Err(e) ==> e.offset <= b@.len(),
        r matches Ok((e, p)) ==> pos < p <= b@.len() && well_formed(e),
    decreases b@.len() - pos, 5 - level,
{
    let first = if level == 3 {
        atom(b, pos)
    } else {
        binary(b, pos, level + 1)
    };
    let (mut left, mut p) = match first {
        Ok(x) => x,
        Err(e) => {
            return Err(e);
        },
    };
    loop
        invariant
            pos < p <= b@.len(),
            well_formed(left),
            level <= 3,
        ensures
            pos < p <= b@.len(),
            well_formed(left),
        decreases b@.len() - p,
    {
        let s = skip_ws(b, p);
        match operator_at(b, s, level) {
            Some((op, q)) => {
                let next = if level == 3 {
                    3
                } else {
                    level + 1
                };
                let (right, q2) = match binary(b, skip_ws(b, q), next) {
                    Ok(x) => x,
                    Err(e) => {
                        return Err(e);
                    },
                };
                left = combine(level, op, left, right);
                p = q2;
            },
            None => {
                break;
            },
        }
    }
    Ok((left, p))
}

/// A call, a parenthesized expression, a literal, a list, or a variable.
fn atom(b: &Vec<u8>, pos: usize) -> (r: Result<(Expr, usize), ParseError>)
    requires
        pos <= b@.len(),
    ensures
        r matches Err(e) ==> !e.unknown_type_name,
        r matches Err(e) ==> e.offset <= b@.len(),
        r matches Ok((e, p)) ==> pos < p <= b@.len() && well_formed(e),
    decreases b@.len() - pos, 1usize,
{
    if pos >= b.len() {
        return fail(pos, "an expression");
    }
    let c = b[pos];
    if c == 40 {
        let (e, q) = match expression(b, skip_ws(b, pos + 1)) {
            Ok(x) => x,
            Err(e) => {
                return Err(e);
            },
        };
        return match expect(b, skip_ws(b, q), ")", ")") {
            Ok(end) => Ok((e, end)),
            Err(e) => Err(e),
        };
    }
    if is_digit(c) {
        return number(b, pos);
    }
    if c == 34 {
        return string_literal(b, pos);
    }
    if c == 91 {
        return match items(b, pos + 1, 93) {
            Ok((values, end)) => Ok((Expr::List(values, Span { start: pos, end }), end)),
            Err(e) => Err(e),
        };
    }
    let (name, q) = match identifier(b, pos) {
        Ok(x) => x,
        Err(e) => {
            return Err(e);
        },
    };
    let q2 = skip_ws(b, q);
    if q2 < b.len() && b[q2] == 40 {
        match items(b, q2 + 1, 41) {
            Ok((args, end)) => Ok(
                (Expr::Call(name, args, Span { start: pos, end: q }, Span { start: q2 + 1, end: end - 1 }), end),
            ),
            Err(e) => Err(e),
        }
    } else {
        Ok((Expr::Var(name, Span { start: pos, end: q }), q))
    }
}

/// Comma-separated expressions up to the byte `close`: the expressions and the position
/// after `close`.
fn items(b: &Vec<u8>, pos: usize, close: u8) -> (r: Result<(Vec<Expr>, usize), ParseError>)
    requires
        pos <= b@.len(),
    ensures
        r matches Err(e) ==> !e.unknown_type_name,
        r matches Err(e) ==> e.offset <= b@.len(),
        r matches Ok((v, p)) ==> pos < p <= b@.len() && all_well_formed(v@),
    decreases b@.len() - pos, 10usize,
{
    let mut out: Vec<Expr> = Vec::new();
    assert(out@ =~= Seq::<Expr>::empty());
    let mut p = skip_ws(b, pos);
    if p < b.len() && b[p] == close {
        return Ok((out, p + 1));
    }
    loop
        invariant
            pos <= p <= b@.len(),
            all_well_formed(out@),
        decreases b@.len() - p,
    {
        let (e, q) = match expression(b, p) {
            Ok(x) => x,
            Err(err) => {
                return Err(err);
            },
        };
        push_statement(&mut out, e);
        let q2 = skip_ws(b, q);
        if q2 < b.len() && b[q2] == close {
            return Ok((out, q2 + 1));
        }
        if q2 < b.len() && b[q2] == 44 {
            p = skip_ws(b, q2 + 1);
        } else {
            return fail(q2, "`,` or a closing bracket");
        }
    }
}

/// One parameter line: `// 'name' is of type Type.`
fn parameter(b: &Vec<u8>, pos: usize) -> (r: Result<((Parameter, Span), usize), ParseError>)
    requires
        pos <= b@.len(),
    ensures
        r matches Err(e) ==> e.offset <= b@.len(),
        r matches Ok((_, p)) ==> pos < p <= b@.len(),
        r matches Ok((param, p)) ==> param.1.end <= b@.len() && Type::named(text_at(b@, param.1))
            == Some(param.0.typename),
        r is Ok == parameter_at(b@, pos as int) is Some,
        r matches Ok((param, p)) ==> parameter_at(b@, pos as int) == Some(
            (param.0.name@, param.0.typename, param.1, p as int),
        ),
        r matches Err(e) ==> type_error_ok(b@, e),
{
    proof {
        reveal(parameter_at);
    }
    let mut p = match expect(b, skip_ws(b, pos), "//", "//") {
        Ok(x) => x,
        Err(e) => {
            return Err(e);
        },
    };
    p = match expect(b, skip_ws(b, p), "'", "'") {
        Ok(x) => x,
        Err(e) => {
            return Err(e);
        },
    };
    let (name, q) = match identifier(b, p) {
        Ok(x) => x,
        Err(e) => {
            return Err(e);
        },
    };
    p = match expect(b, q, "'", "'") {
        Ok(x) => x,
        Err(e) => {
            return Err(e);
        },
    };
    let words: &[&str] = &["is", "of", "type"];
    assert(words@ == seq!["is", "of", "type"]);
    p = match phrase(b, p, words, "`is of type`") {
        Ok(x) => x,
        Err(e) => {
            return Err(e);
        },
    };
    let (t, span, q2) = match type_annotation(b, skip_ws(b, p)) {
        Ok(x) => x,
        Err(e) => {
            return Err(e);
        },
    };
    match expect(b, q2, ".", ".") {
        Ok(end) => Ok(((Parameter { name, typename: t }, span), end)),
        Err(e) => Err(e),
    }
}

/// Whether a parameter line starts at `pos`: `//`, then `'`.
fn at_parameter(b: &Vec<u8>, pos: usize) -> (r: bool)
    requires
        pos <= b@.len(),
    ensures
        r == parameter_line_at(b@, pos as int),
{
    let n = b.len();
    match after(b, skip_ws(b, pos), "//") {
        Some(q) => {
            assert(q <= n);
            after(b, skip_ws(b, q), "'").is_some()
        },
        None => false,
    }
}

/// What the parser guarantees of a parsed function: its name is the text under its name
/// span, and each parameter's type is the one named by the text under its type span.
pub open spec fn declared_as_written(e: Expr, src: Seq<u8>) -> bool {
    match e {
        Expr::Function(name, params, _, _, span) => {
            &&& span.end <= src.len()
            &&& name@ == text_at(src, span)
            &&& forall|i: int|
                0 <= i < params.len() ==> #[trigger] params[i].1.end <= src.len() && Type::named(
                    text_at(src, params[i].1),
                ) == Some(params[i].0.typename)
        },
        _ => false,
    }
}

/// The parameter lines from `pos` on, and the position after the last one.
fn parameters(b: &Vec<u8>, pos: usize) -> (r: Result<(Vec<(Parameter, Span)>, usize), ParseError>)
    requires
        pos <= b@.len(),
    ensures
        r matches Err(e) ==> e.offset <= b@.len(),
        r matches Err(e) ==> type_error_ok(b@, e),
        r matches Ok((params, p)) ==> pos <= p <= b@.len() && forall|i: int|
            0 <= i < params@.len() ==> #[trigger] params@[i].1.end <= b@.len() && Type::named(
                text_at(b@, params@[i].1),
            ) == Some(params@[i].0.typename),
        parameters_from(b@, pos as int) matches Some((ps, f)) ==> ({
            &&& r matches Ok((params, p))
            &&& parameter_views(params@) == ps
            &&& p == f
        }),
{
    let mut q = pos;
    let mut params: Vec<(Parameter, Span)> = Vec::new();
    let ghost q0 = pos as int;
    assert(parameter_views(params@) =~= Seq::empty());
    assert(Seq::<(Seq<char>, Type, Span)>::empty() + parameters_from(b@, q0).unwrap().0 =~= parameters_from(
        b@,
        q0,
    ).unwrap().0);
    while at_parameter(b, q)
        invariant
            q0 == pos as int,
            pos <= q <= b@.len(),
            parameters_from(b@, q0) is Some ==> ({
                &&& parameters_from(b@, q as int) is Some
                &&& parameters_from(b@, q0) == Some(
                    (
                        parameter_views(params@) + parameters_from(b@, q as int).unwrap().0,
                        parameters_from(b@, q as int).unwrap().1,
                    ),
                )
            }),
            forall|i: int|
                0 <= i < params@.len() ==> #[trigger] params@[i].1.end <= b@.len() && Type::named(
                    text_at(b@, params@[i].1),
                ) == Some(params@[i].0.typename),
        decreases b@.len() - q,
    {
        match parameter(b, q) {
            Ok((param, q2)) => {
                let ghost before = params@;
                let ghost view = (param.0.name@, param.0.typename, param.1);
                params.push(param);
                proof {
                    assert(parameter_at(b@, q as int) == Some((view.0, view.1, view.2, q2 as int)));
                    assert(parameter_views(params@) =~= parameter_views(before).push(view));
                    if parameters_from(b@, q0) is Some {
                        let rest = parameters_from(b@, q2 as int).unwrap().0;
                        assert(parameter_views(before) + (seq![view] + rest) =~= parameter_views(params@) + rest);
                    }
                }
                q = q2;
            },
            Err(e) => {
                return Err(e);
            },
        }
    }
    proof {
        if parameters_from(b@, q0) is Some {
            assert(parameters_from(b@, q as int) == Some((Seq::<(Seq<char>, Type, Span)>::empty(), q as int)));
            assert(parameter_views(params@) + Seq::<(Seq<char>, Type, Span)>::empty() =~= parameter_views(params@));
        }
    }
    Ok((params, q))
}

/// One function declaration: the comment header with name, parameters and return type,
/// then `fn` and the body in braces.
fn function(b: &Vec<u8>, pos: usize) -> (r: Result<(Expr, usize), ParseError>)
    requires
        pos <= b@.len(),
    ensures
        r matches Ok((e, p)) ==> pos < p <= b@.len() && well_formed(e) && declared_as_written(e, b@),
        r matches Err(e) ==> e.offset <= b@.len(),
        r matches Err(e) ==> type_error_ok(b@, e),
        empty_declaration_at(b@, pos as int) matches Some(d) ==> ({
            &&& r matches Ok((e, end))
            &&& parsed_as(e, d)
            &&& end == d.end
        }),
{
    let p = match expect(b, skip_ws(b, pos), "//", "//") {
        Ok(x) => x,
        Err(e) => {
            return Err(e);
        },
    };
    let start = skip_ws(b, p);
    let (name, name_end) = match identifier(b, start) {
        Ok(x) => x,
        Err(e) => {
            return Err(e);
        },
    };
    let header: &[&str] = &["is", "a", "function.", "//", "Params:"];
    assert(header@ == seq!["is", "a", "function.", "//", "Params:"]);
    let mut q = match phrase(b, name_end, header, "`is a function.` and `// Params:`") {
        Ok(x) => x,
        Err(e) => {
            return Err(e);
        },
    };
    let (params, q1) = match parameters(b, q) {
        Ok(x) => x,
        Err(e) => {
            return Err(e);
        },
    };
    q = q1;
    let return_line: &[&str] = &["//", "Returns:"];
    assert(return_line@ == seq!["//", "Returns:"]);
    q = match phrase(b, q, return_line, "`// Returns:`") {
        Ok(x) => x,
        Err(e) => {
            return Err(e);
        },
    };
    let (ret, _, q2) = match type_annotation(b, skip_ws(b, q)) {
        Ok(x) => x,
        Err(e) => {
            return Err(e);
        },
    };
    let fn_word: &[&str] = &["fn"];
    assert(fn_word@ == seq!["fn"]);
    let q3 = match phrase(b, q2, fn_word, "fn") {
        Ok(x) => x,
        Err(e) => {
            return Err(e);
        },
    };
    match braced_body(b, q3) {
        Ok((body, end)) => Ok((Expr::Function(name, params, ret, body, Span { start, end: name_end }), end)),
        Err(e) => Err(e),
    }
}

/// Parses a source text: any number of function declarations, separated by whitespace.
/// Every tree it returns is well formed, so it can be handed to the analyzer and to
/// lowering as it is.
pub fn parse_program(source: &str) -> (r: Result<Vec<Expr>, ParseError>)
    ensures
        r matches Ok(program) ==> all_well_formed(program@) && forall|i: int|
            0 <= i < program@.len() ==> declared_as_written(#[trigger] program@[i], source.spec_bytes()),
        r matches Ok(program) ==> (program@.len() == 0 <==> blank(source.spec_bytes())),
        blank(source.spec_bytes()) ==> r is Ok,
        r matches Err(e) ==> e.offset <= source.spec_bytes().len(),
        r matches Err(e) ==> type_error_ok(source.spec_bytes(), e),
        empty_declarations_from(source.spec_bytes(), 0) matches Some(ds) ==> ({
            &&& r matches Ok(program)
            &&& program@.len() == ds.len()
            &&& forall|i: int| 0 <= i < ds.len() ==> parsed_as(#[trigger] program@[i], ds[i])
        }),
{
    let bytes = source.as_bytes();
    let mut b: Vec<u8> = Vec::new();
    let mut i: usize = 0;
    while i < bytes.len()
        invariant
            i <= bytes@.len(),
            b@ == bytes@.subrange(0, i as int),
        decreases bytes@.len() - i,
    {
        b.push(bytes[i]);
        i = i + 1;
        assert(b@ =~= bytes@.subrange(0, i as int));
    }
    assert(b@ =~= source.spec_bytes());
    let mut out: Vec<Expr> = Vec::new();
    assert(out@ =~= Seq::<Expr>::empty());
    let mut p = skip_ws(&b, 0);
    let ghost mut done: Seq<DeclView> = Seq::empty();
    proof {
        lemma_ws_end_idempotent(b@, 0);
        if empty_declarations_from(b@, 0) is Some {
            assert(empty_declarations_from(b@, 0) == empty_declarations_from(b@, p as int));
            assert(done + empty_declarations_from(b@, p as int).unwrap() =~= empty_declarations_from(b@, p as int).unwrap());
        }
    }
    while p < b.len()
        invariant
            p <= b@.len(),
            p == ws_end(b@, p as int),
            b@ == source.spec_bytes(),
            empty_declarations_from(b@, 0) is Some ==> ({
                &&& empty_declarations_from(b@, p as int) is Some
                &&& empty_declarations_from(b@, 0) == Some(done + empty_declarations_from(b@, p as int).unwrap())
                &&& out@.len() == done.len()
                &&& forall|i: int| 0 <= i < done.len() ==> parsed_as(#[trigger] out@[i], done[i])
            }),
            all_well_formed(out@),
            forall|k: int| 0 <= k < out@.len() ==> declared_as_written(#[trigger] out@[k], b@),
            out@.len() == 0 ==> forall|i: int| 0 <= i < p ==> space_byte(#[trigger] b@[i]),
            p < b@.len() ==> !space_byte(b@[p as int]),
            out@.len() > 0 ==> !blank(b@),
        decreases b@.len() - p,
    {
        assert(!blank(b@)) by {
            assert(!space_byte(b@[p as int]));
        }
        match function(&b, p) {
            Ok((f, q)) => {
                let ghost before = out@;
                let ghost d = empty_declaration_at(b@, p as int);
                let ghost fv = f;
                push_statement(&mut out, f);
                assert(forall|k: int| 0 <= k < before.len() ==> out@[k] == before[k]);
                p = skip_ws(&b, q);
                proof {
                    lemma_ws_end_idempotent(b@, q as int);
                    if empty_declarations_from(b@, 0) is Some {
                        let dd = d.unwrap();
                        let rest = empty_declarations_from(b@, q as int).unwrap();
                        assert(empty_declarations_from(b@, q as int) == empty_declarations_from(b@, p as int));
                        assert(done + (seq![dd] + rest) =~= done.push(dd) + rest);
                        done = done.push(dd);
                        assert(out@[out@.len() - 1] == fv);
                    }
                }
            },
            Err(e) => {
                return Err(e);
            },
        }
    }
    proof {
        if empty_declarations_from(b@, 0) is Some {
            assert(done + Seq::<DeclView>::empty() =~= done);
        }
    }
    Ok(out)
}

} // verus!
