//! The line lexer of the IR text format.
use crate::ir::ast::{number_literal, scale_by_unit, scale_spec, unit_of, CmpOp, Unit};
use crate::text::{chars_of, is_ws, push_char, push_str, string_from_chars};
use vstd::prelude::*;

verus! {

/// What `char::is_alphanumeric` answers for a character (the Unicode
/// `Alphabetic` or `Numeric` property).
pub uninterp spec fn alphanumeric(c: char) -> bool;

/// `char::is_alphanumeric`.
#[verifier::external_body]
fn is_alphanumeric(c: char) -> (r: bool)
    ensures
        r == alphanumeric(c),
{
    c.is_alphanumeric()
}

/// One token of a line.
#[derive(Debug)]
pub enum Tok {
    Ident(String),
    Str(String),
    Num(String),
    /// A number with a unit suffix (`40s`, `1.5h`).
    UnitNum(String, Unit),
    Colon,
    Dot,
    Comma,
    Arrow,
    LArrow,
    Eq,
    LParen,
    RParen,
    LBrace,
    RBrace,
    /// A comparison operator.
    Cmp(CmpOp),
}

pub enum STok {
    Ident(Seq<char>),
    Str(Seq<char>),
    Num(Seq<char>),
    UnitNum(Seq<char>, Unit),
    Colon,
    Dot,
    Comma,
    Arrow,
    LArrow,
    Eq,
    LParen,
    RParen,
    LBrace,
    RBrace,
    Cmp(CmpOp),
}

impl View for Tok {
    type V = STok;

    open spec fn view(&self) -> STok {
        match self {
            Tok::Ident(s) => STok::Ident(s@),
            Tok::Str(s) => STok::Str(s@),
            Tok::Num(s) => STok::Num(s@),
            Tok::UnitNum(s, u) => STok::UnitNum(s@, *u),
            Tok::Colon => STok::Colon,
            Tok::Dot => STok::Dot,
            Tok::Comma => STok::Comma,
            Tok::Arrow => STok::Arrow,
            Tok::LArrow => STok::LArrow,
            Tok::Eq => STok::Eq,
            Tok::LParen => STok::LParen,
            Tok::RParen => STok::RParen,
            Tok::LBrace => STok::LBrace,
            Tok::RBrace => STok::RBrace,
            Tok::Cmp(op) => STok::Cmp(*op),
        }
    }
}

pub open spec fn toks_view(v: Seq<Tok>) -> Seq<STok> {
    v.map_values(|t: Tok| t@)
}

pub open spec fn is_ascii_digit(c: char) -> bool {
    '0' <= c && c <= '9'
}

pub open spec fn is_ascii_alpha(c: char) -> bool {
    ('a' <= c && c <= 'z') || ('A' <= c && c <= 'Z')
}

/// The end of the run of digits and dots from `i`.
pub open spec fn num_run_end(cs: Seq<char>, i: int) -> int
    decreases cs.len() - i,
{
    if i < 0 || i >= cs.len() || !(is_ascii_digit(cs[i]) || cs[i] == '.') {
        i
    } else {
        num_run_end(cs, i + 1)
    }
}

/// The end of the run of ASCII letters from `i`.
pub open spec fn alpha_run_end(cs: Seq<char>, i: int) -> int
    decreases cs.len() - i,
{
    if i < 0 || i >= cs.len() || !is_ascii_alpha(cs[i]) {
        i
    } else {
        alpha_run_end(cs, i + 1)
    }
}

/// The end of the run of identifier characters from `i`.
pub open spec fn ident_run_end(cs: Seq<char>, i: int) -> int
    decreases cs.len() - i,
{
    if i < 0 || i >= cs.len() || !(alphanumeric(cs[i]) || cs[i] == '_') {
        i
    } else {
        ident_run_end(cs, i + 1)
    }
}

/// A number literal `s` (its digits ending at `j`) with its unit suffix:
/// the token and where lexing goes on, or the message.
pub open spec fn number_tok(cs: Seq<char>, s: Seq<char>, j: int) -> Result<(STok, int), Seq<char>> {
    if !number_literal(s) {
        Err("invalid number literal `"@ + s + "` (expected digits with at most one `.`)"@)
    } else {
        let k = if 0 <= j < cs.len() && cs[j] == '%' {
            j + 1
        } else {
            alpha_run_end(cs, j)
        };
        let suffix = cs.subrange(j, k);
        if suffix.len() == 0 {
            Ok((STok::Num(s), k))
        } else {
            match unit_of(suffix) {
                None => Err(
                    "unknown unit `"@ + suffix + "` on `"@ + s + suffix
                        + "` (known units: ms, s, min, h, K, %)"@,
                ),
                Some(u) => if scale_spec(s, u) is None {
                    Err("`"@ + s + suffix + "` is too large to scale exactly"@)
                } else {
                    Ok((STok::UnitNum(s, u), k))
                },
            }
        }
    }
}

/// A quoted string's content from `j` (after the opening quote) with the
/// escapes `\"`, `\\` and `\n`: the content and where lexing goes on.
pub open spec fn string_scan(cs: Seq<char>, j: int, acc: Seq<char>) -> Result<(Seq<char>, int), Seq<char>>
    decreases cs.len() - j,
{
    if j < 0 || j >= cs.len() {
        Err("unterminated string"@)
    } else if cs[j] == '"' {
        Ok((acc, j + 1))
    } else if cs[j] == '\\' {
        if j + 1 >= cs.len() {
            Err("invalid escape `\\<eol>`"@)
        } else if cs[j + 1] == '"' {
            string_scan(cs, j + 2, acc.push('"'))
        } else if cs[j + 1] == '\\' {
            string_scan(cs, j + 2, acc.push('\\'))
        } else if cs[j + 1] == 'n' {
            string_scan(cs, j + 2, acc.push('\n'))
        } else {
            Err("invalid escape `\\"@ + seq![cs[j + 1]] + "`"@)
        }
    } else {
        string_scan(cs, j + 1, acc.push(cs[j]))
    }
}

/// One token before the rest of the line.
pub open spec fn prepend(t: STok, r: Result<(Seq<STok>, Option<Seq<char>>), Seq<char>>) -> Result<
    (Seq<STok>, Option<Seq<char>>),
    Seq<char>,
> {
    match r {
        Ok((ts, c)) => Ok((seq![t] + ts, c)),
        Err(m) => Err(m),
    }
}

/// Tokens before the rest of the line.
pub open spec fn with_prefix(p: Seq<STok>, r: Result<(Seq<STok>, Option<Seq<char>>), Seq<char>>) -> Result<
    (Seq<STok>, Option<Seq<char>>),
    Seq<char>,
> {
    match r {
        Ok((ts, c)) => Ok((p + ts, c)),
        Err(m) => Err(m),
    }
}

/// The tokens of a line from `i` on, and its trailing `#` comment; or the
/// message of the first lexical error.
pub open spec fn lex_at(cs: Seq<char>, i: int) -> Result<(Seq<STok>, Option<Seq<char>>), Seq<char>>
    decreases cs.len() - i, 1int,
{
    if i < 0 || i >= cs.len() {
        Ok((seq![], None))
    } else {
        let c = cs[i];
        let next = if i + 1 < cs.len() {
            Some(cs[i + 1])
        } else {
            None
        };
        if c == '#' {
            Ok((seq![], Some(cs.subrange(i + 1, cs.len() as int))))
        } else if is_ws(c) {
            lex_at(cs, i + 1)
        } else if c == ':' {
            prepend(STok::Colon, lex_at(cs, i + 1))
        } else if c == '.' {
            prepend(STok::Dot, lex_at(cs, i + 1))
        } else if c == ',' {
            prepend(STok::Comma, lex_at(cs, i + 1))
        } else if c == '=' {
            if next == Some('=') {
                prepend(STok::Cmp(CmpOp::Eq), lex_at(cs, i + 2))
            } else {
                prepend(STok::Eq, lex_at(cs, i + 1))
            }
        } else if c == '>' {
            if next == Some('=') {
                prepend(STok::Cmp(CmpOp::Ge), lex_at(cs, i + 2))
            } else {
                prepend(STok::Cmp(CmpOp::Gt), lex_at(cs, i + 1))
            }
        } else if c == '!' {
            if next == Some('=') {
                prepend(STok::Cmp(CmpOp::Ne), lex_at(cs, i + 2))
            } else {
                Err("unexpected `!` (not-equal is `!=`)"@)
            }
        } else if c == '(' {
            prepend(STok::LParen, lex_at(cs, i + 1))
        } else if c == ')' {
            prepend(STok::RParen, lex_at(cs, i + 1))
        } else if c == '{' {
            prepend(STok::LBrace, lex_at(cs, i + 1))
        } else if c == '}' {
            prepend(STok::RBrace, lex_at(cs, i + 1))
        } else if c == '<' {
            if next == Some('-') {
                prepend(STok::LArrow, lex_at(cs, i + 2))
            } else if next == Some('=') {
                prepend(STok::Cmp(CmpOp::Le), lex_at(cs, i + 2))
            } else {
                prepend(STok::Cmp(CmpOp::Lt), lex_at(cs, i + 1))
            }
        } else if c == '-' {
            if next == Some('>') {
                prepend(STok::Arrow, lex_at(cs, i + 2))
            } else {
                let j = num_run_end(cs, i + 1);
                if j <= i + 1 {
                    Err("unexpected `-`"@)
                } else if j > cs.len() {
                    Err(seq![])
                } else {
                    lex_number(cs, cs.subrange(i, j), j)
                }
            }
        } else if c == '"' {
            match string_scan(cs, i + 1, seq![]) {
                Err(m) => Err(m),
                Ok((s, j)) => if i < j <= cs.len() {
                    prepend(STok::Str(s), lex_at(cs, j))
                } else {
                    Err(seq![])
                },
            }
        } else if is_ascii_digit(c) {
            let j = num_run_end(cs, i);
            if i < j <= cs.len() {
                lex_number(cs, cs.subrange(i, j), j)
            } else {
                Err(seq![])
            }
        } else if alphanumeric(c) || c == '_' {
            let j = ident_run_end(cs, i);
            if i < j <= cs.len() {
                prepend(STok::Ident(cs.subrange(i, j)), lex_at(cs, j))
            } else {
                Err(seq![])
            }
        } else {
            Err("unexpected character `"@ + seq![c] + "`"@)
        }
    }
}

/// A number token, then the rest of the line.
pub open spec fn lex_number(cs: Seq<char>, s: Seq<char>, j: int) -> Result<
    (Seq<STok>, Option<Seq<char>>),
    Seq<char>,
>
    decreases cs.len() - j + 1, 0int,
{
    match number_tok(cs, s, j) {
        Err(m) => Err(m),
        Ok((t, k)) => if j <= k <= cs.len() && j > 0 {
            prepend(t, lex_at(cs, k))
        } else {
            Err(seq![])
        },
    }
}

proof fn lemma_num_run(cs: Seq<char>, i: int)
    requires
        0 <= i <= cs.len(),
    ensures
        i <= num_run_end(cs, i) <= cs.len(),
    decreases cs.len() - i,
{
    if i < cs.len() && (is_ascii_digit(cs[i]) || cs[i] == '.') {
        lemma_num_run(cs, i + 1);
    }
}

proof fn lemma_alpha_run(cs: Seq<char>, i: int)
    requires
        0 <= i <= cs.len(),
    ensures
        i <= alpha_run_end(cs, i) <= cs.len(),
    decreases cs.len() - i,
{
    if i < cs.len() && is_ascii_alpha(cs[i]) {
        lemma_alpha_run(cs, i + 1);
    }
}

proof fn lemma_ident_run(cs: Seq<char>, i: int)
    requires
        0 <= i <= cs.len(),
    ensures
        i <= ident_run_end(cs, i) <= cs.len(),
    decreases cs.len() - i,
{
    if i < cs.len() && (alphanumeric(cs[i]) || cs[i] == '_') {
        lemma_ident_run(cs, i + 1);
    }
}

fn num_run_exec(cs: &Vec<char>, i: usize) -> (r: usize)
    requires
        i <= cs@.len(),
    ensures
        r == num_run_end(cs@, i as int),
        i <= r <= cs@.len(),
{
    proof {
        lemma_num_run(cs@, i as int);
    }
    let mut k = i;
    while k < cs.len() && (('0' <= cs[k] && cs[k] <= '9') || cs[k] == '.')
        invariant
            i <= k <= cs@.len(),
            num_run_end(cs@, i as int) == num_run_end(cs@, k as int),
        decreases cs@.len() - k,
    {
        k = k + 1;
    }
    k
}

fn alpha_run_exec(cs: &Vec<char>, i: usize) -> (r: usize)
    requires
        i <= cs@.len(),
    ensures
        r == alpha_run_end(cs@, i as int),
        i <= r <= cs@.len(),
{
    proof {
        lemma_alpha_run(cs@, i as int);
    }
    let mut k = i;
    while k < cs.len() && (('a' <= cs[k] && cs[k] <= 'z') || ('A' <= cs[k] && cs[k] <= 'Z'))
        invariant
            i <= k <= cs@.len(),
            alpha_run_end(cs@, i as int) == alpha_run_end(cs@, k as int),
        decreases cs@.len() - k,
    {
        k = k + 1;
    }
    k
}

fn ident_run_exec(cs: &Vec<char>, i: usize) -> (r: usize)
    requires
        i <= cs@.len(),
    ensures
        r == ident_run_end(cs@, i as int),
        i <= r <= cs@.len(),
{
    proof {
        lemma_ident_run(cs@, i as int);
    }
    let mut k = i;
    while k < cs.len() && (is_alphanumeric(cs[k]) || cs[k] == '_')
        invariant
            i <= k <= cs@.len(),
            ident_run_end(cs@, i as int) == ident_run_end(cs@, k as int),
        decreases cs@.len() - k,
    {
        k = k + 1;
    }
    k
}

fn number_exec(cs: &Vec<char>, s: String, j: usize) -> (r: Result<(Tok, usize), String>)
    requires
        j <= cs@.len(),
        s@.len() <= cs@.len(),
        cs@.len() + 3 <= u32::MAX,
    ensures
        match r {
            Ok((t, k)) => number_tok(cs@, s@, j as int) == Ok::<(STok, int), Seq<char>>((t@, k as int)) && j <= k <= cs@.len(),
            Err(m) => number_tok(cs@, s@, j as int) == Err::<(STok, int), Seq<char>>(m@),
        },
{
    if !crate::ir::ast::is_number_literal(s.as_str()) {
        let mut m = String::new();
        push_str(&mut m, "invalid number literal `");
        push_str(&mut m, s.as_str());
        push_str(&mut m, "` (expected digits with at most one `.`)");
        return Err(m);
    }
    let k = if j < cs.len() && cs[j] == '%' {
        j + 1
    } else {
        alpha_run_exec(cs, j)
    };
    let suffix = crate::text::string_from_range(cs, j, k);
    if k == j {
        assert(suffix@.len() == 0);
        return Ok((Tok::Num(s), k));
    }
    match crate::ir::ast::Unit::parse(suffix.as_str()) {
        None => {
            let mut m = String::new();
            push_str(&mut m, "unknown unit `");
            push_str(&mut m, suffix.as_str());
            push_str(&mut m, "` on `");
            push_str(&mut m, s.as_str());
            push_str(&mut m, suffix.as_str());
            push_str(&mut m, "` (known units: ms, s, min, h, K, %)");
            Err(m)
        },
        Some(u) => {
            if scale_by_unit(s.as_str(), u).is_none() {
                let mut m = String::new();
                push_str(&mut m, "`");
                push_str(&mut m, s.as_str());
                push_str(&mut m, suffix.as_str());
                push_str(&mut m, "` is too large to scale exactly");
                Err(m)
            } else {
                Ok((Tok::UnitNum(s, u), k))
            }
        },
    }
}

fn string_exec(cs: &Vec<char>, j0: usize) -> (r: Result<(String, usize), String>)
    requires
        j0 <= cs@.len(),
    ensures
        match r {
            Ok((t, k)) => string_scan(cs@, j0 as int, seq![]) == Ok::<(Seq<char>, int), Seq<char>>((t@, k as int)) && j0 < k <= cs@.len(),
            Err(m) => string_scan(cs@, j0 as int, seq![]) == Err::<(Seq<char>, int), Seq<char>>(m@),
        },
{
    let mut acc = String::new();
    let mut j = j0;
    while j < cs.len()
        invariant
            j0 <= j <= cs@.len(),
            string_scan(cs@, j0 as int, seq![]) == string_scan(cs@, j as int, acc@),
        decreases cs@.len() - j,
    {
        let c = cs[j];
        if c == '"' {
            return Ok((acc, j + 1));
        } else if c == '\\' {
            if j + 1 >= cs.len() {
                return Err(crate::text::string_of("invalid escape `\\<eol>`"));
            }
            let e = cs[j + 1];
            if e == '"' {
                push_char(&mut acc, '"');
            } else if e == '\\' {
                push_char(&mut acc, '\\');
            } else if e == 'n' {
                push_char(&mut acc, '\n');
            } else {
                let mut m = String::new();
                push_str(&mut m, "invalid escape `\\");
                push_char(&mut m, e);
                push_str(&mut m, "`");
                assert(m@ =~= "invalid escape `\\"@ + seq![e] + "`"@);
                return Err(m);
            }
            j = j + 2;
        } else {
            push_char(&mut acc, c);
            j = j + 1;
        }
    }
    Err(crate::text::string_of("unterminated string"))
}

proof fn lemma_with_prefix_push(p: Seq<STok>, t: STok, r: Result<(Seq<STok>, Option<Seq<char>>), Seq<char>>)
    ensures
        with_prefix(p, prepend(t, r)) == with_prefix(p.push(t), r),
{
    match r {
        Ok((ts, c)) => {
            assert(p + (seq![t] + ts) =~= p.push(t) + ts);
        },
        Err(_) => {},
    }
}

/// The lexer's outcome as the library reports it: the tokens and the
/// trailing comment, or an error on line `lineno`.
pub open spec fn lexed(
    r: crate::error::Result<(Vec<Tok>, Option<String>)>,
    lineno: usize,
    s: Result<(Seq<STok>, Option<Seq<char>>), Seq<char>>,
) -> bool {
    match r {
        Ok((ts, c)) => s == Ok::<(Seq<STok>, Option<Seq<char>>), Seq<char>>((toks_view(ts@), crate::doc::opt_view(c))),
        Err(e) => s is Err && (e matches crate::error::Error::IrParse { line, msg } && line == lineno
            && s == Err::<(Seq<STok>, Option<Seq<char>>), Seq<char>>(msg@)),
    }
}

/// The token at `i` (not a comment): the token, or `None` for white
/// space, and where lexing goes on.
#[verifier::rlimit(40)]
fn lex_one(cs: &Vec<char>, i: usize) -> (r: Result<(Option<Tok>, usize), String>)
    requires
        i < cs@.len(),
        cs@[i as int] != '#',
        cs@.len() + 3 <= u32::MAX,
    ensures
        match r {
            Ok((Some(t), k)) => i < k <= cs@.len() && lex_at(cs@, i as int) == prepend(t@, lex_at(cs@, k as int)),
            Ok((None, k)) => i < k <= cs@.len() && lex_at(cs@, i as int) == lex_at(cs@, k as int),
            Err(m) => lex_at(cs@, i as int) == Err::<(Seq<STok>, Option<Seq<char>>), Seq<char>>(m@),
        },
{
    let c = cs[i];
    let next: Option<char> = if i + 1 < cs.len() {
        Some(cs[i + 1])
    } else {
        None
    };
    if crate::text::is_whitespace(c) {
        return Ok((None, i + 1));
    }
    if c == ':' {
        return Ok((Some(Tok::Colon), i + 1));
    }
    if c == '.' {
        return Ok((Some(Tok::Dot), i + 1));
    }
    if c == ',' {
        return Ok((Some(Tok::Comma), i + 1));
    }
    if c == '=' {
        if next == Some('=') {
            return Ok((Some(Tok::Cmp(CmpOp::Eq)), i + 2));
        }
        return Ok((Some(Tok::Eq), i + 1));
    }
    if c == '>' {
        if next == Some('=') {
            return Ok((Some(Tok::Cmp(CmpOp::Ge)), i + 2));
        }
        return Ok((Some(Tok::Cmp(CmpOp::Gt)), i + 1));
    }
    if c == '!' {
        if next == Some('=') {
            return Ok((Some(Tok::Cmp(CmpOp::Ne)), i + 2));
        }
        return Err(crate::text::string_of("unexpected `!` (not-equal is `!=`)"));
    }
    if c == '(' {
        return Ok((Some(Tok::LParen), i + 1));
    }
    if c == ')' {
        return Ok((Some(Tok::RParen), i + 1));
    }
    if c == '{' {
        return Ok((Some(Tok::LBrace), i + 1));
    }
    if c == '}' {
        return Ok((Some(Tok::RBrace), i + 1));
    }
    if c == '<' {
        if next == Some('-') {
            return Ok((Some(Tok::LArrow), i + 2));
        }
        if next == Some('=') {
            return Ok((Some(Tok::Cmp(CmpOp::Le)), i + 2));
        }
        return Ok((Some(Tok::Cmp(CmpOp::Lt)), i + 1));
    }
    if c == '-' {
        if next == Some('>') {
            return Ok((Some(Tok::Arrow), i + 2));
        }
        let j = num_run_exec(cs, i + 1);
        if j <= i + 1 {
            return Err(crate::text::string_of("unexpected `-`"));
        }
        let s = crate::text::string_from_range(cs, i, j);
        return match number_exec(cs, s, j) {
            Err(m) => {
                assert(lex_number(cs@, s@, j as int) == Err::<(Seq<STok>, Option<Seq<char>>), Seq<char>>(m@));
                Err(m)
            },
            Ok((t, k)) => {
                assert(lex_number(cs@, s@, j as int) == prepend(t@, lex_at(cs@, k as int)));
                Ok((Some(t), k))
            },
        };
    }
    if c == '"' {
        return match string_exec(cs, i + 1) {
            Err(m) => Err(m),
            Ok((t, k)) => Ok((Some(Tok::Str(t)), k)),
        };
    }
    if '0' <= c && c <= '9' {
        let j = num_run_exec(cs, i);
        proof {
            lemma_num_run(cs@, i + 1);
        }
        let s = crate::text::string_from_range(cs, i, j);
        return match number_exec(cs, s, j) {
            Err(m) => {
                assert(lex_number(cs@, s@, j as int) == Err::<(Seq<STok>, Option<Seq<char>>), Seq<char>>(m@));
                Err(m)
            },
            Ok((t, k)) => {
                assert(lex_number(cs@, s@, j as int) == prepend(t@, lex_at(cs@, k as int)));
                Ok((Some(t), k))
            },
        };
    }
    if is_alphanumeric(c) || c == '_' {
        let j = ident_run_exec(cs, i);
        proof {
            lemma_ident_run(cs@, i + 1);
        }
        return Ok((Some(Tok::Ident(crate::text::string_from_range(cs, i, j))), j));
    }
    let mut m = String::new();
    push_str(&mut m, "unexpected character `");
    push_char(&mut m, c);
    push_str(&mut m, "`");
    assert(m@ =~= "unexpected character `"@ + seq![c] + "`"@);
    Err(m)
}

/// Split one line into tokens and its trailing `#` comment.
pub fn lex(line: &str, lineno: usize) -> (r: crate::error::Result<(Vec<Tok>, Option<String>)>)
    requires
        line@.len() + 3 <= u32::MAX,
    ensures
        lexed(r, lineno, lex_at(line@, 0)),
{
    let cs = chars_of(line);
    let mut toks: Vec<Tok> = Vec::new();
    let mut i: usize = 0;
    assert(toks_view(toks@) =~= Seq::<STok>::empty());
    assert(with_prefix(seq![], lex_at(cs@, 0)) == lex_at(cs@, 0)) by {
        match lex_at(cs@, 0) {
            Ok((ts, c)) => {
                assert(Seq::<STok>::empty() + ts =~= ts);
            },
            Err(_) => {},
        }
    }
    while i < cs.len()
        invariant
            i <= cs@.len(),
            cs@ == line@,
            line@.len() + 3 <= u32::MAX,
            lex_at(cs@, 0) == with_prefix(toks_view(toks@), lex_at(cs@, i as int)),
        decreases cs@.len() - i,
    {
        let ghost p = toks_view(toks@);
        if cs[i] == '#' {
            let text = crate::text::string_from_range(&cs, i + 1, cs.len());
            assert(toks_view(toks@) + Seq::<STok>::empty() =~= toks_view(toks@));
            return Ok((toks, Some(text)));
        }
        match lex_one(&cs, i) {
            Err(m) => {
                return Err(crate::error::Error::IrParse { line: lineno, msg: m });
            },
            Ok((Some(t), k)) => {
                proof {
                    lemma_with_prefix_push(p, t@, lex_at(cs@, k as int));
                }
                toks.push(t);
                assert(toks_view(toks@) =~= p.push(t@));
                i = k;
            },
            Ok((None, k)) => {
                i = k;
            },
        }
    }
    assert(toks_view(toks@) + Seq::<STok>::empty() =~= toks_view(toks@));
    Ok((toks, None))
}

} // verus!
