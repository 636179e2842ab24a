//! Splits query text into tokens.

use vstd::prelude::*;

use crate::number::{Number, MANTISSA_LIMIT};
use crate::text::{
    char_is_alnum, char_is_digit, char_is_space, chars_of, is_alnum, is_digit, is_space,
    slice_chars,
};

verus! {

/// Bound on the digits of an exponent, and on the digits after a decimal
/// point.
pub const DIGITS_LIMIT: u64 = 1_000_000;

/// The three kinds of named lookup.
#[derive(Clone, Copy, Debug, PartialEq, Eq, Structural)]
pub enum LookupKind {
    Parameter,
    This,
    Environment,
}

/// A token of query text.
#[derive(Debug)]
pub enum TokenKind {
    LParen,
    RParen,
    Not,
    And,
    Or,
    Op(Vec<char>),
    Str(Vec<char>),
    Num(Number),
    Word(Vec<char>),
    Lookup(LookupKind, Vec<char>),
}

/// A token and the character position where it starts.
#[derive(Debug)]
pub struct Token {
    pub kind: TokenKind,
    pub pos: usize,
}

pub enum SKind {
    LParen,
    RParen,
    Not,
    And,
    Or,
    Op(Seq<char>),
    Str(Seq<char>),
    Num(Number),
    Word(Seq<char>),
    Lookup(LookupKind, Seq<char>),
}

pub struct SToken {
    pub kind: SKind,
    pub pos: nat,
}

impl View for TokenKind {
    type V = SKind;

    open spec fn view(&self) -> SKind {
        match self {
            TokenKind::LParen => SKind::LParen,
            TokenKind::RParen => SKind::RParen,
            TokenKind::Not => SKind::Not,
            TokenKind::And => SKind::And,
            TokenKind::Or => SKind::Or,
            TokenKind::Op(o) => SKind::Op(o@),
            TokenKind::Str(s) => SKind::Str(s@),
            TokenKind::Num(n) => SKind::Num(*n),
            TokenKind::Word(w) => SKind::Word(w@),
            TokenKind::Lookup(k, n) => SKind::Lookup(*k, n@),
        }
    }
}

impl View for Token {
    type V = SToken;

    open spec fn view(&self) -> SToken {
        SToken { kind: self.kind@, pos: self.pos as nat }
    }
}

/// What went wrong while reading a query.
#[derive(Debug, Clone)]
pub enum ParseErrorKind {
    UnexpectedCharacter,
    UnterminatedString,
    NumberOutOfRange,
    ExpectedLookupName,
    ExpectedBody,
    ExpectedLookupOrLiteral,
    ExpectedInfixOperator,
    UnknownInfixOperator(String),
    ExpectedCloseParen,
    ExpectedEnd,
}

pub enum SErrKind {
    UnexpectedCharacter,
    UnterminatedString,
    NumberOutOfRange,
    ExpectedLookupName,
    ExpectedBody,
    ExpectedLookupOrLiteral,
    ExpectedInfixOperator,
    UnknownInfixOperator(Seq<char>),
    ExpectedCloseParen,
    ExpectedEnd,
}

/// A query that could not be read: where, and why.
#[derive(Debug, Clone)]
pub struct ParseError {
    pub position: usize,
    pub kind: ParseErrorKind,
}

pub struct SErr {
    pub pos: nat,
    pub kind: SErrKind,
}

impl View for ParseErrorKind {
    type V = SErrKind;

    open spec fn view(&self) -> SErrKind {
        match self {
            ParseErrorKind::UnexpectedCharacter => SErrKind::UnexpectedCharacter,
            ParseErrorKind::UnterminatedString => SErrKind::UnterminatedString,
            ParseErrorKind::NumberOutOfRange => SErrKind::NumberOutOfRange,
            ParseErrorKind::ExpectedLookupName => SErrKind::ExpectedLookupName,
            ParseErrorKind::ExpectedBody => SErrKind::ExpectedBody,
            ParseErrorKind::ExpectedLookupOrLiteral => SErrKind::ExpectedLookupOrLiteral,
            ParseErrorKind::ExpectedInfixOperator => SErrKind::ExpectedInfixOperator,
            ParseErrorKind::UnknownInfixOperator(o) => SErrKind::UnknownInfixOperator(o@),
            ParseErrorKind::ExpectedCloseParen => SErrKind::ExpectedCloseParen,
            ParseErrorKind::ExpectedEnd => SErrKind::ExpectedEnd,
        }
    }
}

impl View for ParseError {
    type V = SErr;

    open spec fn view(&self) -> SErr {
        SErr { pos: self.position as nat, kind: self.kind@ }
    }
}

pub open spec fn serr(pos: int, kind: SErrKind) -> SErr {
    SErr { pos: pos as nat, kind }
}

/// Characters that may appear in a word.
pub open spec fn is_word_char(c: char) -> bool {
    is_alnum(c) || c == '_'
}

/// Characters that make up a comparison operator.
pub open spec fn is_op_char(c: char) -> bool {
    c == '=' || c == '!' || c == '<' || c == '>'
}

/// Classes of characters that a run is made of.
#[derive(Clone, Copy)]
pub enum Run {
    Word,
    Digit,
    Op,
    Other(char),
}

pub open spec fn in_run(k: Run, c: char) -> bool {
    match k {
        Run::Word => is_word_char(c),
        Run::Digit => is_digit(c),
        Run::Op => is_op_char(c),
        Run::Other(q) => c != q,
    }
}

/// The end of the longest run of class `k` that starts at `i`.
pub open spec fn run_end(s: Seq<char>, i: int, k: Run) -> int
    decreases s.len() - i,
{
    if 0 <= i < s.len() && in_run(k, s[i]) {
        run_end(s, i + 1, k)
    } else {
        i
    }
}

pub proof fn lemma_run_end(s: Seq<char>, i: int, k: Run)
    requires
        0 <= i <= s.len(),
    ensures
        i <= run_end(s, i, k) <= s.len(),
        forall|j: int| i <= j < run_end(s, i, k) ==> in_run(k, #[trigger] s[j]),
        run_end(s, i, k) == s.len() || !in_run(k, s[run_end(s, i, k)]),
    decreases s.len() - i,
{
    if i < s.len() && in_run(k, s[i]) {
        lemma_run_end(s, i + 1, k);
    }
}

/// The value of a character that is a decimal digit.
pub open spec fn digit_val(c: char) -> int {
    (c as u32) as int - 48
}

/// The value of a string of decimal digits.
pub open spec fn digits_val(d: Seq<char>) -> int
    decreases d.len(),
{
    if d.len() == 0 {
        0
    } else {
        digits_val(d.drop_last()) * 10 + digit_val(d.last())
    }
}

pub proof fn lemma_digits_val_nonneg(d: Seq<char>)
    requires
        forall|i: int| 0 <= i < d.len() ==> is_digit(#[trigger] d[i]),
    ensures
        digits_val(d) >= 0,
    decreases d.len(),
{
    if d.len() > 0 {
        lemma_digits_val_nonneg(d.drop_last());
        assert(is_digit(d[d.len() - 1]));
    }
}

/// The name `parameter`, `this` or `environment` of a named lookup.
pub open spec fn lookup_kind_named(w: Seq<char>) -> Option<LookupKind> {
    if w == seq!['p', 'a', 'r', 'a', 'm', 'e', 't', 'e', 'r'] {
        Some(LookupKind::Parameter)
    } else if w == seq!['t', 'h', 'i', 's'] {
        Some(LookupKind::This)
    } else if w == seq!['e', 'n', 'v', 'i', 'r', 'o', 'n', 'm', 'e', 'n', 't'] {
        Some(LookupKind::Environment)
    } else {
        None
    }
}

/// Reads a number that starts at `i`: an optional sign, digits, an optional
/// fraction and an optional exponent.
pub open spec fn scan_number(s: Seq<char>, i: int) -> Result<(SKind, int), SErr> {
    let neg = s[i] == '-';
    let ds = if s[i] == '+' || s[i] == '-' {
        i + 1
    } else {
        i
    };
    let ie = run_end(s, ds, Run::Digit);
    let has_dot = ie < s.len() && s[ie] == '.';
    let fs = if has_dot {
        ie + 1
    } else {
        ie
    };
    let fe = if has_dot {
        run_end(s, fs, Run::Digit)
    } else {
        ie
    };
    let has_e = fe + 1 < s.len() && (s[fe] == 'e' || s[fe] == 'E');
    let esign = has_e && (s[fe + 1] == '-' || s[fe + 1] == '+');
    let eneg = has_e && s[fe + 1] == '-';
    let eds = if esign {
        fe + 2
    } else if has_e {
        fe + 1
    } else {
        fe
    };
    let ee = if has_e {
        run_end(s, eds, Run::Digit)
    } else {
        fe
    };
    let exp_ok = has_e && ee > eds;
    let end = if exp_ok {
        ee
    } else {
        fe
    };
    let m = digits_val(s.subrange(ds, ie) + s.subrange(fs, fe));
    let ev = if exp_ok {
        digits_val(s.subrange(eds, ee))
    } else {
        0
    };
    let flen = fe - fs;
    if m >= MANTISSA_LIMIT || ev > DIGITS_LIMIT || flen > DIGITS_LIMIT {
        Err(serr(i, SErrKind::NumberOutOfRange))
    } else {
        let mantissa = if neg {
            -m
        } else {
            m
        };
        let e = if eneg {
            -ev
        } else {
            ev
        };
        Ok((SKind::Num(Number { mantissa: mantissa as i64, exponent: (e - flen) as i64 }), end))
    }
}

/// Reads the token that starts at `i`, a character that is not white space:
/// the token and the position after it.
pub open spec fn scan(s: Seq<char>, i: int) -> Result<(SKind, int), SErr> {
    let c = s[i];
    let has_next = i + 1 < s.len();
    if c == '(' {
        Ok((SKind::LParen, i + 1))
    } else if c == ')' {
        Ok((SKind::RParen, i + 1))
    } else if c == '&' {
        if has_next && s[i + 1] == '&' {
            Ok((SKind::And, i + 2))
        } else {
            Err(serr(i, SErrKind::UnexpectedCharacter))
        }
    } else if c == '|' {
        if has_next && s[i + 1] == '|' {
            Ok((SKind::Or, i + 2))
        } else {
            Err(serr(i, SErrKind::UnexpectedCharacter))
        }
    } else if c == '!' && !(has_next && s[i + 1] == '=') {
        Ok((SKind::Not, i + 1))
    } else if is_op_char(c) {
        let e = run_end(s, i, Run::Op);
        Ok((SKind::Op(s.subrange(i, e)), e))
    } else if c == '"' || c == '\'' {
        let e = run_end(s, i + 1, Run::Other(c));
        if e < s.len() {
            Ok((SKind::Str(s.subrange(i + 1, e)), e + 1))
        } else {
            Err(serr(i, SErrKind::UnterminatedString))
        }
    } else if is_digit(c) || ((c == '+' || c == '-') && has_next && is_digit(s[i + 1])) {
        scan_number(s, i)
    } else if is_word_char(c) {
        let e = run_end(s, i, Run::Word);
        let w = s.subrange(i, e);
        match lookup_kind_named(w) {
            Some(k) => if e < s.len() && s[e] == ':' {
                let e2 = run_end(s, e + 1, Run::Word);
                if e2 > e + 1 {
                    Ok((SKind::Lookup(k, s.subrange(e + 1, e2)), e2))
                } else {
                    Err(serr(e + 1, SErrKind::ExpectedLookupName))
                }
            } else {
                Ok((SKind::Word(w), e))
            },
            None => Ok((SKind::Word(w), e)),
        }
    } else {
        Err(serr(i, SErrKind::UnexpectedCharacter))
    }
}

/// The tokens of `s` from position `i` on.
pub open spec fn lex_from(s: Seq<char>, i: int) -> Result<Seq<SToken>, SErr>
    decreases s.len() - i,
{
    if i < 0 || i >= s.len() {
        Ok(Seq::empty())
    } else if is_space(s[i]) {
        lex_from(s, i + 1)
    } else {
        match scan(s, i) {
            Ok((k, e)) => if e <= i || e > s.len() {
                Err(serr(i, SErrKind::UnexpectedCharacter))
            } else {
                match lex_from(s, e) {
                    Ok(rest) => Ok(seq![SToken { kind: k, pos: i as nat }] + rest),
                    Err(err) => Err(err),
                }
            },
            Err(err) => Err(err),
        }
    }
}

/// The tokens of `s`.
pub open spec fn lex_spec(s: Seq<char>) -> Result<Seq<SToken>, SErr> {
    lex_from(s, 0)
}


fn in_run_exec(k: Run, c: char) -> (r: bool)
    ensures
        r == in_run(k, c),
{
    match k {
        Run::Word => char_is_alnum(c) || c == '_',
        Run::Digit => char_is_digit(c),
        Run::Op => c == '=' || c == '!' || c == '<' || c == '>',
        Run::Other(q) => c != q,
    }
}

fn run_end_exec(cs: &Vec<char>, i: usize, k: Run) -> (r: usize)
    requires
        i <= cs@.len(),
    ensures
        r == run_end(cs@, i as int, k),
        i <= r <= cs@.len(),
{
    let mut j = i;
    while j < cs.len() && in_run_exec(k, cs[j])
        invariant
            i <= j <= cs@.len(),
            run_end(cs@, i as int, k) == run_end(cs@, j as int, k),
        decreases cs@.len() - j,
    {
        j = j + 1;
    }
    j
}

/// The value of the digits `d`, or `cap` if that is less.
fn digits_value(d: &Vec<char>, cap: u64) -> (r: u64)
    requires
        forall|i: int| 0 <= i < d@.len() ==> is_digit(#[trigger] d@[i]),
        cap <= MANTISSA_LIMIT,
    ensures
        r == (if digits_val(d@) >= cap {
            cap as int
        } else {
            digits_val(d@)
        }),
{
    let mut v: u64 = 0;
    let mut i: usize = 0;
    while i < d.len()
        invariant
            i <= d@.len(),
            cap <= MANTISSA_LIMIT,
            forall|j: int| 0 <= j < d@.len() ==> is_digit(#[trigger] d@[j]),
            v == (if digits_val(d@.subrange(0, i as int)) >= cap {
                cap as int
            } else {
                digits_val(d@.subrange(0, i as int))
            }),
        decreases d@.len() - i,
    {
        let ghost pre = d@.subrange(0, i as int);
        let ghost next = d@.subrange(0, i as int + 1);
        proof {
            assert(next.drop_last() =~= pre);
            assert(next.last() == d@[i as int]);
            assert(is_digit(d@[i as int]));
            assert(forall|j: int| 0 <= j < pre.len() ==> is_digit(#[trigger] pre[j]));
            lemma_digits_val_nonneg(pre);
        }
        let c = d[i];
        let dig: u64 = (c as u32 - 48) as u64;
        if v < cap {
            let w = v * 10 + dig;
            if w >= cap {
                v = cap;
            } else {
                v = w;
            }
        }
        i = i + 1;
    }
    proof {
        assert(d@.subrange(0, d@.len() as int) =~= d@);
    }
    v
}

fn lookup_kind_of(w: &Vec<char>) -> (r: Option<LookupKind>)
    ensures
        r == lookup_kind_named(w@),
{
    let p = vec!['p', 'a', 'r', 'a', 'm', 'e', 't', 'e', 'r'];
    let t = vec!['t', 'h', 'i', 's'];
    let e = vec!['e', 'n', 'v', 'i', 'r', 'o', 'n', 'm', 'e', 'n', 't'];
    proof {
        assert(p@ =~= seq!['p', 'a', 'r', 'a', 'm', 'e', 't', 'e', 'r']);
        assert(t@ =~= seq!['t', 'h', 'i', 's']);
        assert(e@ =~= seq!['e', 'n', 'v', 'i', 'r', 'o', 'n', 'm', 'e', 'n', 't']);
    }
    if crate::text::chars_eq(w, &p) {
        Some(LookupKind::Parameter)
    } else if crate::text::chars_eq(w, &t) {
        Some(LookupKind::This)
    } else if crate::text::chars_eq(w, &e) {
        Some(LookupKind::Environment)
    } else {
        None
    }
}

pub open spec fn scan_result_view(r: Result<(TokenKind, usize), ParseError>) -> Result<(SKind, int), SErr> {
    match r {
        Ok((k, e)) => Ok((k@, e as int)),
        Err(e) => Err(e@),
    }
}

#[verifier::rlimit(40)]
fn scan_number_exec(cs: &Vec<char>, i: usize) -> (r: Result<(TokenKind, usize), ParseError>)
    requires
        i < cs@.len(),
        is_digit(cs@[i as int]) || ((cs@[i as int] == '+' || cs@[i as int] == '-') && i + 1
            < cs@.len() && is_digit(cs@[i + 1])),
    ensures
        scan_result_view(r) == scan_number(cs@, i as int),
        r is Ok ==> i < r->Ok_0.1 <= cs@.len(),
{
    let ghost s = cs@;
    let n = cs.len();
    let neg = cs[i] == '-';
    let ds = if cs[i] == '+' || cs[i] == '-' {
        i + 1
    } else {
        i
    };
    let ie = run_end_exec(cs, ds, Run::Digit);
    proof {
        lemma_run_end(s, ds as int, Run::Digit);
    }
    let has_dot = ie < n && cs[ie] == '.';
    let fs = if has_dot {
        ie + 1
    } else {
        ie
    };
    let fe = if has_dot {
        run_end_exec(cs, fs, Run::Digit)
    } else {
        ie
    };
    proof {
        lemma_run_end(s, fs as int, Run::Digit);
    }
    let has_e = fe < n - 1 && (cs[fe] == 'e' || cs[fe] == 'E');
    let esign = has_e && (cs[fe + 1] == '-' || cs[fe + 1] == '+');
    let eneg = has_e && cs[fe + 1] == '-';
    let eds = if esign {
        fe + 2
    } else if has_e {
        fe + 1
    } else {
        fe
    };
    let ee = if has_e {
        run_end_exec(cs, eds, Run::Digit)
    } else {
        fe
    };
    proof {
        if has_e {
            lemma_run_end(s, eds as int, Run::Digit);
        }
    }
    let exp_ok = has_e && ee > eds;
    let end = if exp_ok {
        ee
    } else {
        fe
    };
    let mut md = slice_chars(cs, ds, ie);
    let mut frac = slice_chars(cs, fs, fe);
    md.append(&mut frac);
    let ghost mseq = s.subrange(ds as int, ie as int) + s.subrange(fs as int, fe as int);
    proof {
        assert(md@ =~= mseq);
        assert forall|j: int| 0 <= j < md@.len() implies is_digit(#[trigger] md@[j]) by {
            if j < ie - ds {
                assert(md@[j] == s[ds + j]);
            } else {
                assert(md@[j] == s[fs + j - (ie - ds)]);
            }
        }
    }
    let m = digits_value(&md, MANTISSA_LIMIT as u64);
    let ev: u64 = if exp_ok {
        let ed = slice_chars(cs, eds, ee);
        proof {
            assert forall|j: int| 0 <= j < ed@.len() implies is_digit(#[trigger] ed@[j]) by {
                assert(ed@[j] == s[eds + j]);
            }
        }
        digits_value(&ed, DIGITS_LIMIT + 1)
    } else {
        0
    };
    let flen = fe - fs;
    if m >= MANTISSA_LIMIT as u64 || ev > DIGITS_LIMIT || flen as u64 > DIGITS_LIMIT {
        return Err(ParseError { position: i, kind: ParseErrorKind::NumberOutOfRange });
    }
    let mantissa: i64 = if neg {
        -(m as i64)
    } else {
        m as i64
    };
    let e: i64 = if eneg {
        -(ev as i64)
    } else {
        ev as i64
    };
    let exponent: i64 = e - flen as i64;
    proof {
        assert(end > i);
    }
    Ok((TokenKind::Num(Number { mantissa, exponent }), end))
}


#[verifier::rlimit(40)]
fn scan_exec(cs: &Vec<char>, i: usize) -> (r: Result<(TokenKind, usize), ParseError>)
    requires
        i < cs@.len(),
    ensures
        scan_result_view(r) == scan(cs@, i as int),
        r is Ok ==> i < r->Ok_0.1 <= cs@.len(),
{
    let ghost s = cs@;
    let n = cs.len();
    let c = cs[i];
    let has_next = i < n - 1;
    if c == '(' {
        Ok((TokenKind::LParen, i + 1))
    } else if c == ')' {
        Ok((TokenKind::RParen, i + 1))
    } else if c == '&' {
        if has_next && cs[i + 1] == '&' {
            Ok((TokenKind::And, i + 2))
        } else {
            Err(ParseError { position: i, kind: ParseErrorKind::UnexpectedCharacter })
        }
    } else if c == '|' {
        if has_next && cs[i + 1] == '|' {
            Ok((TokenKind::Or, i + 2))
        } else {
            Err(ParseError { position: i, kind: ParseErrorKind::UnexpectedCharacter })
        }
    } else if c == '!' && !(has_next && cs[i + 1] == '=') {
        Ok((TokenKind::Not, i + 1))
    } else if c == '=' || c == '!' || c == '<' || c == '>' {
        let e = run_end_exec(cs, i, Run::Op);
        proof {
            lemma_run_end(s, i as int, Run::Op);
        }
        Ok((TokenKind::Op(slice_chars(cs, i, e)), e))
    } else if c == '"' || c == '\'' {
        let e = run_end_exec(cs, i + 1, Run::Other(c));
        if e < n {
            Ok((TokenKind::Str(slice_chars(cs, i + 1, e)), e + 1))
        } else {
            Err(ParseError { position: i, kind: ParseErrorKind::UnterminatedString })
        }
    } else if char_is_digit(c) || ((c == '+' || c == '-') && has_next && char_is_digit(cs[i + 1])) {
        scan_number_exec(cs, i)
    } else if char_is_alnum(c) || c == '_' {
        let e = run_end_exec(cs, i, Run::Word);
        proof {
            lemma_run_end(s, i as int, Run::Word);
        }
        let w = slice_chars(cs, i, e);
        match lookup_kind_of(&w) {
            Some(k) => if e < n && cs[e] == ':' {
                let e2 = run_end_exec(cs, e + 1, Run::Word);
                if e2 > e + 1 {
                    Ok((TokenKind::Lookup(k, slice_chars(cs, e + 1, e2)), e2))
                } else {
                    Err(ParseError { position: e + 1, kind: ParseErrorKind::ExpectedLookupName })
                }
            } else {
                Ok((TokenKind::Word(w), e))
            },
            None => Ok((TokenKind::Word(w), e)),
        }
    } else {
        Err(ParseError { position: i, kind: ParseErrorKind::UnexpectedCharacter })
    }
}

pub open spec fn tokens_view(t: Seq<Token>) -> Seq<SToken> {
    t.map_values(|x: Token| x@)
}

/// Splits query text into tokens.
pub fn lex(cs: &Vec<char>) -> (r: Result<Vec<Token>, ParseError>)
    ensures
        match r {
            Ok(t) => lex_spec(cs@) == Ok::<Seq<SToken>, SErr>(tokens_view(t@)),
            Err(e) => lex_spec(cs@) == Err::<Seq<SToken>, SErr>(e@),
        },
        r is Ok ==> forall|j: int| 0 <= j < r->Ok_0@.len() ==> #[trigger] r->Ok_0@[j].pos < cs@.len(),
{
    let ghost s = cs@;
    let n = cs.len();
    let mut toks: Vec<Token> = Vec::new();
    let mut i: usize = 0;
    while i < n
        invariant
            n == s.len(),
            s == cs@,
            i <= n,
            forall|j: int| 0 <= j < toks@.len() ==> #[trigger] toks@[j].pos < n,
            lex_from(s, 0) == match lex_from(s, i as int) {
                Ok(rest) => Ok(tokens_view(toks@) + rest),
                Err(e) => Err::<Seq<SToken>, SErr>(e),
            },
        decreases n - i,
    {
        if char_is_space(cs[i]) {
            i = i + 1;
        } else {
            match scan_exec(cs, i) {
                Ok((kind, e)) => {
                    let ghost k = kind@;
                    let ghost before = tokens_view(toks@);
                    toks.push(Token { kind, pos: i });
                    proof {
                        assert(tokens_view(toks@) =~= before + seq![SToken { kind: k, pos: i as nat }]);
                        match lex_from(s, e as int) {
                            Ok(rest) => {
                                assert(before + seq![SToken { kind: k, pos: i as nat }] + rest
                                    =~= before + (seq![SToken { kind: k, pos: i as nat }] + rest));
                            },
                            Err(_) => {},
                        }
                    }
                    i = e;
                },
                Err(e) => {
                    return Err(e);
                },
            }
        }
    }
    proof {
        assert(tokens_view(toks@) + Seq::<SToken>::empty() =~= tokens_view(toks@));
    }
    Ok(toks)
}

/// `s` is exactly one number, as a query writes it, with value `n`.
pub open spec fn number_text(s: Seq<char>, n: Number) -> bool {
    &&& s.len() > 0
    &&& (is_digit(s[0]) || ((s[0] == '+' || s[0] == '-') && 1 < s.len() && is_digit(s[1])))
    &&& scan_number(s, 0) == Ok::<(SKind, int), SErr>((SKind::Num(n), s.len() as int))
}

/// Reads a whole text as a number written as a query writes it (sign,
/// digits, fraction, exponent); `None` if it is not exactly one such number
/// in range.
pub fn number_from_text(s: &str) -> (r: Option<Number>)
    ensures
        match r {
            Some(n) => number_text(s@, n),
            None => forall|n: Number| !number_text(s@, n),
        },
{
    let cs = chars_of(s);
    let n = cs.len();
    if n == 0 {
        return None;
    }
    let starts = char_is_digit(cs[0]) || ((cs[0] == '+' || cs[0] == '-') && 1 < n && char_is_digit(cs[1]));
    if !starts {
        return None;
    }
    match scan_number_exec(&cs, 0) {
        Ok((TokenKind::Num(m), e)) => if e == n {
            Some(m)
        } else {
            None
        },
        _ => None,
    }
}

} // verus!
