//! Reads query text into a syntax tree: `||` binds loosest, then `&&`, then
//! prefix `!`; `latest(...)` and `single(...)` are calls, and a test compares
//! two values.

use vstd::prelude::*;

use crate::query_lex::{
    lex, lex_spec, serr, tokens_view, LookupKind, ParseError, ParseErrorKind, SErr, SErrKind,
    SKind, SToken, Token, TokenKind,
};
use crate::query_types::{
    Literal, Lookup, Operator, QueryNode, SLiteral, SLookup, SNode, SValue, Test, TestValue,
};
use crate::text::{chars_eq, chars_of, push_str, slice_chars, string_of};

verus! {

/// The character position of token `i`, or the end of the text.
pub open spec fn at(toks: Seq<SToken>, n: int, i: int) -> int {
    if 0 <= i < toks.len() {
        toks[i].pos as int
    } else {
        n
    }
}

/// The uppercase form of the letters of `true` and `false`.
pub open spec fn upper_of(c: char) -> char {
    if c == 't' {
        'T'
    } else if c == 'r' {
        'R'
    } else if c == 'u' {
        'U'
    } else if c == 'e' {
        'E'
    } else if c == 'f' {
        'F'
    } else if c == 'a' {
        'A'
    } else if c == 'l' {
        'L'
    } else if c == 's' {
        'S'
    } else {
        c
    }
}

/// `w` spells `lower` in any mix of case.
pub open spec fn same_word_any_case(w: Seq<char>, lower: Seq<char>) -> bool {
    &&& w.len() == lower.len()
    &&& forall|i: int| 0 <= i < w.len() ==> (#[trigger] w[i] == lower[i] || w[i] == upper_of(lower[i]))
}

pub open spec fn word_id() -> Seq<char> {
    seq!['i', 'd']
}

pub open spec fn word_name() -> Seq<char> {
    seq!['n', 'a', 'm', 'e']
}

pub open spec fn word_true() -> Seq<char> {
    seq!['t', 'r', 'u', 'e']
}

pub open spec fn word_false() -> Seq<char> {
    seq!['f', 'a', 'l', 's', 'e']
}

pub open spec fn word_latest() -> Seq<char> {
    seq!['l', 'a', 't', 'e', 's', 't']
}

pub open spec fn word_single() -> Seq<char> {
    seq!['s', 'i', 'n', 'g', 'l', 'e']
}

/// The value that a token stands for, if it stands for one.
pub open spec fn value_of_token(k: SKind) -> Option<SValue> {
    match k {
        SKind::Word(w) => if w == word_id() {
            Some(SValue::Lookup(SLookup::Id))
        } else if w == word_name() {
            Some(SValue::Lookup(SLookup::Name))
        } else if same_word_any_case(w, word_true()) {
            Some(SValue::Literal(SLiteral::Bool(true)))
        } else if same_word_any_case(w, word_false()) {
            Some(SValue::Literal(SLiteral::Bool(false)))
        } else {
            None
        },
        SKind::Lookup(LookupKind::Parameter, x) => Some(SValue::Lookup(SLookup::Parameter(x))),
        SKind::Lookup(LookupKind::This, x) => Some(SValue::Lookup(SLookup::This(x))),
        SKind::Lookup(LookupKind::Environment, x) => Some(SValue::Lookup(SLookup::Environment(x))),
        SKind::Str(x) => Some(SValue::Literal(SLiteral::Str(x))),
        SKind::Num(m) => Some(SValue::Literal(SLiteral::Num(m))),
        _ => None,
    }
}

/// The comparison an operator token names.
pub open spec fn test_named(o: Seq<char>) -> Option<Test> {
    if o == seq!['=', '='] {
        Some(Test::Equal)
    } else if o == seq!['!', '='] {
        Some(Test::NotEqual)
    } else if o == seq!['<'] {
        Some(Test::LessThan)
    } else if o == seq!['<', '='] {
        Some(Test::LessThanOrEqual)
    } else if o == seq!['>'] {
        Some(Test::GreaterThan)
    } else if o == seq!['>', '='] {
        Some(Test::GreaterThanOrEqual)
    } else {
        None
    }
}

/// The comparison with its sides exchanged.
pub open spec fn flip(t: Test) -> Test {
    match t {
        Test::LessThan => Test::GreaterThan,
        Test::LessThanOrEqual => Test::GreaterThanOrEqual,
        Test::GreaterThan => Test::LessThan,
        Test::GreaterThanOrEqual => Test::LessThanOrEqual,
        _ => t,
    }
}

/// A test, with a literal on the left moved to the right when the right is a
/// lookup.
pub open spec fn make_test(t: Test, l: SValue, r: SValue) -> SNode {
    if l is Literal && r is Lookup {
        SNode::Test(flip(t), r, l)
    } else {
        SNode::Test(t, l, r)
    }
}

pub open spec fn p_value(toks: Seq<SToken>, n: int, i: int) -> Result<(SValue, int), SErr> {
    if 0 <= i < toks.len() {
        match value_of_token(toks[i].kind) {
            Some(v) => Ok((v, i + 1)),
            None => Err(serr(toks[i].pos as int, SErrKind::ExpectedLookupOrLiteral)),
        }
    } else {
        Err(serr(n, SErrKind::ExpectedLookupOrLiteral))
    }
}

pub open spec fn p_test(toks: Seq<SToken>, n: int, i: int) -> Result<(SNode, int), SErr> {
    match p_value(toks, n, i) {
        Ok((l, j)) => if 0 <= j < toks.len() && toks[j].kind is Op {
            let o = toks[j].kind->Op_0;
            match test_named(o) {
                Some(t) => match p_value(toks, n, j + 1) {
                    Ok((r, k)) => Ok((make_test(t, l, r), k)),
                    Err(e) => Err(e),
                },
                None => Err(serr(toks[j].pos as int, SErrKind::UnknownInfixOperator(o))),
            }
        } else {
            Err(serr(at(toks, n, j), SErrKind::ExpectedInfixOperator))
        },
        Err(e) => Err(e),
    }
}

/// Whether a token may begin a test.
pub open spec fn starts_value(k: SKind) -> bool {
    k is Word || k is Lookup || k is Str || k is Num
}

/// The function name of a call: `Some(true)` for `latest`, `Some(false)` for
/// `single`.
pub open spec fn call_named(k: SKind) -> Option<bool> {
    match k {
        SKind::Word(w) => if w == word_latest() {
            Some(true)
        } else if w == word_single() {
            Some(false)
        } else {
            None
        },
        _ => None,
    }
}

/// Expects a closing parenthesis at `j` after the body `b`.
pub open spec fn close(toks: Seq<SToken>, n: int, j: int, node: SNode) -> Result<(SNode, int), SErr> {
    if 0 <= j < toks.len() && toks[j].kind is RParen {
        Ok((node, j + 1))
    } else {
        Err(serr(at(toks, n, j), SErrKind::ExpectedCloseParen))
    }
}

pub open spec fn p_primary(toks: Seq<SToken>, n: int, i: int) -> Result<(SNode, int), SErr>
    decreases toks.len() - i, 0nat,
{
    if i < 0 || i >= toks.len() {
        Err(serr(n, SErrKind::ExpectedBody))
    } else {
        let k = toks[i].kind;
        if k is LParen {
            match p_or(toks, n, i + 1) {
                Ok((b, j)) => close(toks, n, j, SNode::Brackets(Box::new(b))),
                Err(e) => Err(e),
            }
        } else if call_named(k) is Some && i + 1 < toks.len() && toks[i + 1].kind is LParen {
            let latest = call_named(k)->Some_0;
            if i + 2 < toks.len() && toks[i + 2].kind is RParen {
                if latest {
                    Ok((SNode::Latest(None), i + 3))
                } else {
                    Err(serr(toks[i + 2].pos as int, SErrKind::ExpectedBody))
                }
            } else {
                match p_or(toks, n, i + 2) {
                    Ok((b, j)) => close(
                        toks,
                        n,
                        j,
                        if latest {
                            SNode::Latest(Some(Box::new(b)))
                        } else {
                            SNode::Single(Box::new(b))
                        },
                    ),
                    Err(e) => Err(e),
                }
            }
        } else if starts_value(k) {
            p_test(toks, n, i)
        } else {
            Err(serr(toks[i].pos as int, SErrKind::ExpectedBody))
        }
    }
}

pub open spec fn p_unary(toks: Seq<SToken>, n: int, i: int) -> Result<(SNode, int), SErr>
    decreases toks.len() - i, 1nat,
{
    if 0 <= i < toks.len() && toks[i].kind is Not {
        match p_unary(toks, n, i + 1) {
            Ok((b, j)) => Ok((SNode::Negation(Box::new(b)), j)),
            Err(e) => Err(e),
        }
    } else {
        p_primary(toks, n, i)
    }
}

/// The rest of a chain of `&&` after the operand `acc`, from `j`.
pub open spec fn p_and_rest(toks: Seq<SToken>, n: int, j: int, acc: SNode) -> Result<(SNode, int), SErr>
    decreases toks.len() - j, 2nat,
{
    if 0 <= j < toks.len() && toks[j].kind is And {
        match p_unary(toks, n, j + 1) {
            Ok((r, k)) => if k <= j || k > toks.len() {
                Err(serr(at(toks, n, j), SErrKind::ExpectedBody))
            } else {
                p_and_rest(
                    toks,
                    n,
                    k,
                    SNode::BooleanOperator(Operator::And, Box::new(acc), Box::new(r)),
                )
            },
            Err(e) => Err(e),
        }
    } else {
        Ok((acc, j))
    }
}

pub open spec fn p_and(toks: Seq<SToken>, n: int, i: int) -> Result<(SNode, int), SErr>
    decreases toks.len() - i, 3nat,
{
    match p_unary(toks, n, i) {
        Ok((l, j)) => if j < i || j > toks.len() {
            Err(serr(at(toks, n, i), SErrKind::ExpectedBody))
        } else {
            p_and_rest(toks, n, j, l)
        },
        Err(e) => Err(e),
    }
}

/// The rest of a chain of `||` after the operand `acc`, from `j`.
pub open spec fn p_or_rest(toks: Seq<SToken>, n: int, j: int, acc: SNode) -> Result<(SNode, int), SErr>
    decreases toks.len() - j, 4nat,
{
    if 0 <= j < toks.len() && toks[j].kind is Or {
        match p_and(toks, n, j + 1) {
            Ok((r, k)) => if k <= j || k > toks.len() {
                Err(serr(at(toks, n, j), SErrKind::ExpectedBody))
            } else {
                p_or_rest(
                    toks,
                    n,
                    k,
                    SNode::BooleanOperator(Operator::Or, Box::new(acc), Box::new(r)),
                )
            },
            Err(e) => Err(e),
        }
    } else {
        Ok((acc, j))
    }
}

pub open spec fn p_or(toks: Seq<SToken>, n: int, i: int) -> Result<(SNode, int), SErr>
    decreases toks.len() - i, 5nat,
{
    match p_and(toks, n, i) {
        Ok((l, j)) => if j < i || j > toks.len() {
            Err(serr(at(toks, n, i), SErrKind::ExpectedBody))
        } else {
            p_or_rest(toks, n, j, l)
        },
        Err(e) => Err(e),
    }
}

/// Every rule that succeeds from token `i` stops after it, within the
/// tokens; the chains of `&&` and `||` never move back.
pub proof fn lemma_primary_advances(toks: Seq<SToken>, n: int, i: int)
    requires
        0 <= i,
    ensures
        p_primary(toks, n, i) is Ok ==> i < p_primary(toks, n, i)->Ok_0.1 <= toks.len(),
    decreases toks.len() - i, 0nat,
{
    if i < toks.len() {
        let k = toks[i].kind;
        if k is LParen {
            lemma_or_advances(toks, n, i + 1);
        } else if call_named(k) is Some && i + 1 < toks.len() && toks[i + 1].kind is LParen {
            if !(i + 2 < toks.len() && toks[i + 2].kind is RParen) {
                lemma_or_advances(toks, n, i + 2);
            }
        }
    }
}

pub proof fn lemma_unary_advances(toks: Seq<SToken>, n: int, i: int)
    requires
        0 <= i,
    ensures
        p_unary(toks, n, i) is Ok ==> i < p_unary(toks, n, i)->Ok_0.1 <= toks.len(),
    decreases toks.len() - i, 1nat,
{
    if 0 <= i < toks.len() && toks[i].kind is Not {
        lemma_unary_advances(toks, n, i + 1);
    } else {
        lemma_primary_advances(toks, n, i);
    }
}

pub proof fn lemma_and_rest_advances(toks: Seq<SToken>, n: int, j: int, acc: SNode)
    requires
        0 <= j <= toks.len(),
    ensures
        p_and_rest(toks, n, j, acc) is Ok ==> j <= p_and_rest(toks, n, j, acc)->Ok_0.1 <= toks.len(),
    decreases toks.len() - j, 2nat,
{
    if 0 <= j < toks.len() && toks[j].kind is And {
        lemma_unary_advances(toks, n, j + 1);
        match p_unary(toks, n, j + 1) {
            Ok((r, k)) => lemma_and_rest_advances(
                toks,
                n,
                k,
                SNode::BooleanOperator(Operator::And, Box::new(acc), Box::new(r)),
            ),
            Err(_) => {},
        }
    }
}

pub proof fn lemma_and_advances(toks: Seq<SToken>, n: int, i: int)
    requires
        0 <= i,
    ensures
        p_and(toks, n, i) is Ok ==> i < p_and(toks, n, i)->Ok_0.1 <= toks.len(),
    decreases toks.len() - i, 3nat,
{
    lemma_unary_advances(toks, n, i);
    match p_unary(toks, n, i) {
        Ok((l, j)) => lemma_and_rest_advances(toks, n, j, l),
        Err(_) => {},
    }
}

pub proof fn lemma_or_rest_advances(toks: Seq<SToken>, n: int, j: int, acc: SNode)
    requires
        0 <= j <= toks.len(),
    ensures
        p_or_rest(toks, n, j, acc) is Ok ==> j <= p_or_rest(toks, n, j, acc)->Ok_0.1 <= toks.len(),
    decreases toks.len() - j, 4nat,
{
    if 0 <= j < toks.len() && toks[j].kind is Or {
        lemma_and_advances(toks, n, j + 1);
        match p_and(toks, n, j + 1) {
            Ok((r, k)) => lemma_or_rest_advances(
                toks,
                n,
                k,
                SNode::BooleanOperator(Operator::Or, Box::new(acc), Box::new(r)),
            ),
            Err(_) => {},
        }
    }
}

pub proof fn lemma_or_advances(toks: Seq<SToken>, n: int, i: int)
    requires
        0 <= i,
    ensures
        p_or(toks, n, i) is Ok ==> i < p_or(toks, n, i)->Ok_0.1 <= toks.len(),
    decreases toks.len() - i, 5nat,
{
    lemma_and_advances(toks, n, i);
    match p_and(toks, n, i) {
        Ok((l, j)) => lemma_or_rest_advances(toks, n, j, l),
        Err(_) => {},
    }
}

/// A whole query: a body that uses every token.
pub open spec fn p_query(toks: Seq<SToken>, n: int) -> Result<SNode, SErr> {
    match p_or(toks, n, 0) {
        Ok((t, j)) => if j == toks.len() {
            Ok(t)
        } else {
            Err(serr(at(toks, n, j), SErrKind::ExpectedEnd))
        },
        Err(e) => Err(e),
    }
}

/// The tree that query text (after its shorthand is expanded) reads as.
pub open spec fn parse_text(s: Seq<char>) -> Result<SNode, SErr> {
    match lex_spec(s) {
        Ok(toks) => p_query(toks, s.len() as int),
        Err(e) => Err(e),
    }
}

pub open spec fn node_result_view(r: Result<(QueryNode, usize), ParseError>) -> Result<(SNode, int), SErr> {
    match r {
        Ok((t, j)) => Ok((t@, j as int)),
        Err(e) => Err(e@),
    }
}

pub open spec fn value_result_view(r: Result<(TestValue, usize), ParseError>) -> Result<(SValue, int), SErr> {
    match r {
        Ok((v, j)) => Ok((v@, j as int)),
        Err(e) => Err(e@),
    }
}

fn at_exec(toks: &Vec<Token>, n: usize, i: usize) -> (r: usize)
    ensures
        r == at(tokens_view(toks@), n as int, i as int),
{
    if i < toks.len() {
        toks[i].pos
    } else {
        n
    }
}

fn upper_of_exec(c: char) -> (r: char)
    ensures
        r == upper_of(c),
{
    if c == 't' {
        'T'
    } else if c == 'r' {
        'R'
    } else if c == 'u' {
        'U'
    } else if c == 'e' {
        'E'
    } else if c == 'f' {
        'F'
    } else if c == 'a' {
        'A'
    } else if c == 'l' {
        'L'
    } else if c == 's' {
        'S'
    } else {
        c
    }
}

fn same_word_any_case_exec(w: &Vec<char>, lower: &Vec<char>) -> (r: bool)
    ensures
        r == same_word_any_case(w@, lower@),
{
    if w.len() != lower.len() {
        return false;
    }
    let mut i: usize = 0;
    while i < w.len()
        invariant
            w@.len() == lower@.len(),
            i <= w@.len(),
            forall|j: int| 0 <= j < i ==> (#[trigger] w@[j] == lower@[j] || w@[j] == upper_of(lower@[j])),
        decreases w@.len() - i,
    {
        if w[i] != lower[i] && w[i] != upper_of_exec(lower[i]) {
            return false;
        }
        i = i + 1;
    }
    true
}

fn value_of_token_exec(k: &TokenKind) -> (r: Option<TestValue>)
    ensures
        match r {
            Some(v) => value_of_token(k@) == Some(v@),
            None => value_of_token(k@) is None,
        },
{
    match k {
        TokenKind::Word(w) => {
            let id = vec!['i', 'd'];
            let name = vec!['n', 'a', 'm', 'e'];
            let t = vec!['t', 'r', 'u', 'e'];
            let f = vec!['f', 'a', 'l', 's', 'e'];
            proof {
                assert(id@ =~= word_id());
                assert(name@ =~= word_name());
                assert(t@ =~= word_true());
                assert(f@ =~= word_false());
            }
            if chars_eq(w, &id) {
                Some(TestValue::Lookup(Lookup::Id))
            } else if chars_eq(w, &name) {
                Some(TestValue::Lookup(Lookup::Name))
            } else if same_word_any_case_exec(w, &t) {
                Some(TestValue::Literal(Literal::Bool(true)))
            } else if same_word_any_case_exec(w, &f) {
                Some(TestValue::Literal(Literal::Bool(false)))
            } else {
                None
            }
        },
        TokenKind::Lookup(LookupKind::Parameter, x) => Some(
            TestValue::Lookup(Lookup::Parameter(string_of(x))),
        ),
        TokenKind::Lookup(LookupKind::This, x) => Some(TestValue::Lookup(Lookup::This(string_of(x)))),
        TokenKind::Lookup(LookupKind::Environment, x) => Some(
            TestValue::Lookup(Lookup::Environment(string_of(x))),
        ),
        TokenKind::Str(x) => Some(TestValue::Literal(Literal::String(string_of(x)))),
        TokenKind::Num(m) => Some(TestValue::Literal(Literal::Number(*m))),
        _ => None,
    }
}

fn test_named_exec(o: &Vec<char>) -> (r: Option<Test>)
    ensures
        r == test_named(o@),
{
    let eq = vec!['=', '='];
    let ne = vec!['!', '='];
    let lt = vec!['<'];
    let le = vec!['<', '='];
    let gt = vec!['>'];
    let ge = vec!['>', '='];
    proof {
        assert(eq@ =~= seq!['=', '=']);
        assert(ne@ =~= seq!['!', '=']);
        assert(lt@ =~= seq!['<']);
        assert(le@ =~= seq!['<', '=']);
        assert(gt@ =~= seq!['>']);
        assert(ge@ =~= seq!['>', '=']);
    }
    if chars_eq(o, &eq) {
        Some(Test::Equal)
    } else if chars_eq(o, &ne) {
        Some(Test::NotEqual)
    } else if chars_eq(o, &lt) {
        Some(Test::LessThan)
    } else if chars_eq(o, &le) {
        Some(Test::LessThanOrEqual)
    } else if chars_eq(o, &gt) {
        Some(Test::GreaterThan)
    } else if chars_eq(o, &ge) {
        Some(Test::GreaterThanOrEqual)
    } else {
        None
    }
}

fn flip_exec(t: Test) -> (r: Test)
    ensures
        r == flip(t),
{
    match t {
        Test::LessThan => Test::GreaterThan,
        Test::LessThanOrEqual => Test::GreaterThanOrEqual,
        Test::GreaterThan => Test::LessThan,
        Test::GreaterThanOrEqual => Test::LessThanOrEqual,
        _ => t,
    }
}

fn make_test_exec(t: Test, l: TestValue, r: TestValue) -> (node: QueryNode)
    ensures
        node@ == make_test(t, l@, r@),
{
    let swap = match (&l, &r) {
        (TestValue::Literal(_), TestValue::Lookup(_)) => true,
        _ => false,
    };
    if swap {
        QueryNode::Test(flip_exec(t), r, l)
    } else {
        QueryNode::Test(t, l, r)
    }
}

fn parse_value(toks: &Vec<Token>, n: usize, i: usize) -> (r: Result<(TestValue, usize), ParseError>)
    ensures
        value_result_view(r) == p_value(tokens_view(toks@), n as int, i as int),
{
    if i < toks.len() {
        match value_of_token_exec(&toks[i].kind) {
            Some(v) => Ok((v, i + 1)),
            None => Err(ParseError { position: toks[i].pos, kind: ParseErrorKind::ExpectedLookupOrLiteral }),
        }
    } else {
        Err(ParseError { position: n, kind: ParseErrorKind::ExpectedLookupOrLiteral })
    }
}

fn parse_test(toks: &Vec<Token>, n: usize, i: usize) -> (r: Result<(QueryNode, usize), ParseError>)
    ensures
        node_result_view(r) == p_test(tokens_view(toks@), n as int, i as int),
{
    let ghost tv = tokens_view(toks@);
    match parse_value(toks, n, i) {
        Ok((l, j)) => {
            if j < toks.len() {
                match &toks[j].kind {
                    TokenKind::Op(o) => {
                        match test_named_exec(o) {
                            Some(t) => match parse_value(toks, n, j + 1) {
                                Ok((r, k)) => Ok((make_test_exec(t, l, r), k)),
                                Err(e) => Err(e),
                            },
                            None => Err(
                                ParseError {
                                    position: toks[j].pos,
                                    kind: ParseErrorKind::UnknownInfixOperator(string_of(o)),
                                },
                            ),
                        }
                    },
                    _ => Err(ParseError { position: toks[j].pos, kind: ParseErrorKind::ExpectedInfixOperator }),
                }
            } else {
                Err(ParseError { position: n, kind: ParseErrorKind::ExpectedInfixOperator })
            }
        },
        Err(e) => Err(e),
    }
}

fn call_named_exec(k: &TokenKind) -> (r: Option<bool>)
    ensures
        r == call_named(k@),
{
    match k {
        TokenKind::Word(w) => {
            let l = vec!['l', 'a', 't', 'e', 's', 't'];
            let s = vec!['s', 'i', 'n', 'g', 'l', 'e'];
            proof {
                assert(l@ =~= word_latest());
                assert(s@ =~= word_single());
            }
            if chars_eq(w, &l) {
                Some(true)
            } else if chars_eq(w, &s) {
                Some(false)
            } else {
                None
            }
        },
        _ => None,
    }
}

fn close_exec(toks: &Vec<Token>, n: usize, j: usize, node: QueryNode) -> (r: Result<(QueryNode, usize), ParseError>)
    ensures
        node_result_view(r) == close(tokens_view(toks@), n as int, j as int, node@),
{
    if j < toks.len() && matches!(toks[j].kind, TokenKind::RParen) {
        Ok((node, j + 1))
    } else {
        Err(ParseError { position: at_exec(toks, n, j), kind: ParseErrorKind::ExpectedCloseParen })
    }
}

fn parse_primary(toks: &Vec<Token>, n: usize, i: usize) -> (r: Result<(QueryNode, usize), ParseError>)
    ensures
        node_result_view(r) == p_primary(tokens_view(toks@), n as int, i as int),
    decreases toks@.len() - i, 0nat,
{
    let ghost tv = tokens_view(toks@);
    if i >= toks.len() {
        return Err(ParseError { position: n, kind: ParseErrorKind::ExpectedBody });
    }
    let k = &toks[i].kind;
    let call = call_named_exec(k);
    if matches!(k, TokenKind::LParen) {
        match parse_body(toks, n, i + 1) {
            Ok((b, j)) => close_exec(toks, n, j, QueryNode::Brackets(Box::new(b))),
            Err(e) => Err(e),
        }
    } else if call.is_some() && i + 1 < toks.len() && matches!(toks[i + 1].kind, TokenKind::LParen) {
        let latest = call.unwrap();
        if i + 2 < toks.len() && matches!(toks[i + 2].kind, TokenKind::RParen) {
            if latest {
                Ok((QueryNode::Latest(None), i + 3))
            } else {
                Err(ParseError { position: toks[i + 2].pos, kind: ParseErrorKind::ExpectedBody })
            }
        } else {
            match parse_body(toks, n, i + 2) {
                Ok((b, j)) => {
                    let node = if latest {
                        QueryNode::Latest(Some(Box::new(b)))
                    } else {
                        QueryNode::Single(Box::new(b))
                    };
                    close_exec(toks, n, j, node)
                },
                Err(e) => Err(e),
            }
        }
    } else if matches!(k, TokenKind::Word(_)) || matches!(k, TokenKind::Lookup(_, _)) || matches!(
        k,
        TokenKind::Str(_)
    ) || matches!(k, TokenKind::Num(_)) {
        parse_test(toks, n, i)
    } else {
        Err(ParseError { position: toks[i].pos, kind: ParseErrorKind::ExpectedBody })
    }
}

fn parse_unary(toks: &Vec<Token>, n: usize, i: usize) -> (r: Result<(QueryNode, usize), ParseError>)
    ensures
        node_result_view(r) == p_unary(tokens_view(toks@), n as int, i as int),
    decreases toks@.len() - i, 1nat,
{
    if i < toks.len() && matches!(toks[i].kind, TokenKind::Not) {
        match parse_unary(toks, n, i + 1) {
            Ok((b, j)) => Ok((QueryNode::Negation(Box::new(b)), j)),
            Err(e) => Err(e),
        }
    } else {
        parse_primary(toks, n, i)
    }
}

fn parse_and_rest(toks: &Vec<Token>, n: usize, j: usize, acc: QueryNode) -> (r: Result<(QueryNode, usize), ParseError>)
    ensures
        node_result_view(r) == p_and_rest(tokens_view(toks@), n as int, j as int, acc@),
    decreases toks@.len() - j, 2nat,
{
    if j < toks.len() && matches!(toks[j].kind, TokenKind::And) {
        proof {
            lemma_unary_advances(tokens_view(toks@), n as int, j + 1);
        }
        match parse_unary(toks, n, j + 1) {
            Ok((r, k)) => parse_and_rest(
                toks,
                n,
                k,
                QueryNode::BooleanOperator(Operator::And, Box::new(acc), Box::new(r)),
            ),
            Err(e) => Err(e),
        }
    } else {
        Ok((acc, j))
    }
}

fn parse_and(toks: &Vec<Token>, n: usize, i: usize) -> (r: Result<(QueryNode, usize), ParseError>)
    ensures
        node_result_view(r) == p_and(tokens_view(toks@), n as int, i as int),
    decreases toks@.len() - i, 3nat,
{
    proof {
        lemma_unary_advances(tokens_view(toks@), n as int, i as int);
    }
    match parse_unary(toks, n, i) {
        Ok((l, j)) => parse_and_rest(toks, n, j, l),
        Err(e) => Err(e),
    }
}

fn parse_or_rest(toks: &Vec<Token>, n: usize, j: usize, acc: QueryNode) -> (r: Result<(QueryNode, usize), ParseError>)
    ensures
        node_result_view(r) == p_or_rest(tokens_view(toks@), n as int, j as int, acc@),
    decreases toks@.len() - j, 4nat,
{
    if j < toks.len() && matches!(toks[j].kind, TokenKind::Or) {
        proof {
            lemma_and_advances(tokens_view(toks@), n as int, j + 1);
        }
        match parse_and(toks, n, j + 1) {
            Ok((r, k)) => parse_or_rest(
                toks,
                n,
                k,
                QueryNode::BooleanOperator(Operator::Or, Box::new(acc), Box::new(r)),
            ),
            Err(e) => Err(e),
        }
    } else {
        Ok((acc, j))
    }
}

/// Reads a body (`||` of `&&` of possibly negated primaries) from token
/// `i` on; `n` is the length of the text.
pub fn parse_body(toks: &Vec<Token>, n: usize, i: usize) -> (r: Result<(QueryNode, usize), ParseError>)
    ensures
        node_result_view(r) == p_or(tokens_view(toks@), n as int, i as int),
    decreases toks@.len() - i, 5nat,
{
    proof {
        lemma_and_advances(tokens_view(toks@), n as int, i as int);
    }
    match parse_and(toks, n, i) {
        Ok((l, j)) => parse_or_rest(toks, n, j, l),
        Err(e) => Err(e),
    }
}

/// `q` is a double-quoted run of letters and digits.
pub open spec fn is_quoted_word(q: Seq<char>) -> bool {
    &&& q.len() >= 2
    &&& q[0] == '"'
    &&& q[q.len() - 1] == '"'
    &&& forall|i: int| 1 <= i < q.len() - 1 ==> crate::text::is_alnum(#[trigger] q[i])
}

/// The shorthand forms of a query written out: a bare `latest` is
/// `latest()`, and a bare quoted id `"X"` is `id == "X"`.
pub open spec fn preparse_spec(q: Seq<char>) -> Seq<char> {
    if q == word_latest() {
        word_latest() + seq!['(', ')']
    } else if is_quoted_word(q) {
        seq!['i', 'd', ' ', '=', '=', ' '] + q
    } else {
        q
    }
}

fn preparse_chars(q: &Vec<char>) -> (r: Vec<char>)
    ensures
        r@ == preparse_spec(q@),
{
    let latest = vec!['l', 'a', 't', 'e', 's', 't'];
    proof {
        assert(latest@ =~= word_latest());
    }
    if chars_eq(q, &latest) {
        let r = vec!['l', 'a', 't', 'e', 's', 't', '(', ')'];
        proof {
            assert(r@ =~= word_latest() + seq!['(', ')']);
        }
        return r;
    }
    let n = q.len();
    let mut quoted = n >= 2 && q[0] == '"' && q[n - 1] == '"';
    if quoted {
        let mut i: usize = 1;
        while i < n - 1
            invariant
                n == q@.len(),
                n >= 2,
                1 <= i <= n - 1,
                quoted == forall|j: int| 1 <= j < i ==> crate::text::is_alnum(#[trigger] q@[j]),
            decreases n - 1 - i,
        {
            if !crate::text::char_is_alnum(q[i]) {
                quoted = false;
            }
            i = i + 1;
        }
    }
    if quoted {
        let mut r = vec!['i', 'd', ' ', '=', '=', ' '];
        let mut rest = slice_chars(q, 0, n);
        r.append(&mut rest);
        proof {
            assert(q@.subrange(0, n as int) =~= q@);
        }
        r
    } else {
        slice_chars(q, 0, n)
    }
}

/// Writes out the shorthand forms of a query.
pub fn preparse_query(query: &str) -> (r: String)
    ensures
        r@ == preparse_spec(query@),
{
    let q = chars_of(query);
    string_of(&preparse_chars(&q))
}

/// Reads a query, after writing out its shorthand forms.
pub fn parse_query(query: &str) -> (r: Result<QueryNode, ParseError>)
    ensures
        match r {
            Ok(t) => parse_text(preparse_spec(query@)) == Ok::<SNode, SErr>(t@),
            Err(e) => parse_text(preparse_spec(query@)) == Err::<SNode, SErr>(e@),
        },
{
    let q = chars_of(query);
    let cs = preparse_chars(&q);
    let n = cs.len();
    match lex(&cs) {
        Ok(toks) => {
            match parse_body(&toks, n, 0) {
                Ok((t, j)) => if j == toks.len() {
                    Ok(t)
                } else {
                    Err(ParseError { position: at_exec(&toks, n, j), kind: ParseErrorKind::ExpectedEnd })
                },
                Err(e) => Err(e),
            }
        },
        Err(e) => Err(e),
    }
}

} // verus!
