//! Running a query: reading it, evaluating it against an index, and writing
//! the result.

use vstd::prelude::*;

use crate::index::{Index, SPacket};
use crate::query_eval::{denotes, eval_query, eval_spec, is_single_error};
use crate::query_lex::{ParseError, ParseErrorKind, SErr, SErrKind};
use crate::query_parse::{parse_query, parse_text, preparse_spec};
use crate::text::{chars_of, decimal, push_decimal, push_str, string_of};

verus! {

/// Why a query failed: it could not be read, or evaluating it failed.
#[derive(Debug, Clone)]
pub enum QueryError {
    ParseError(Box<ParseError>),
    EvalError(String),
}

/// Lines joined with a line break between each two.
pub open spec fn join_lines(ss: Seq<Seq<char>>) -> Seq<char>
    decreases ss.len(),
{
    if ss.len() == 0 {
        Seq::empty()
    } else if ss.len() == 1 {
        ss[0]
    } else {
        join_lines(ss.drop_last()) + seq!['\n'] + ss.last()
    }
}

/// Relies on `itertools::Itertools::intersperse`: the strings in order, with
/// a line break between each two.
#[verifier::external_body]
fn join_with_newlines(ss: Vec<String>) -> (r: String)
    ensures
        r@ == join_lines(ss@.map_values(|s: String| s@)),
{
    itertools::Itertools::intersperse(ss.into_iter(), String::from("\n")).collect()
}

/// The text written when a query selects nothing.
pub open spec fn no_packets_text() -> Seq<char> {
    "Found no packets"@
}

/// The ids at positions `v` of the index, one per line, or the text for no
/// packets.
pub open spec fn result_text(idx: Seq<SPacket>, v: Seq<usize>) -> Seq<char> {
    if v.len() == 0 {
        no_packets_text()
    } else {
        join_lines(v.map_values(|i: usize| idx[i as int].id))
    }
}

/// Writes a result: the ids of the selected packets, one per line, or
/// `Found no packets`; an error passes through.
pub fn format_query_result(index: &Index, packets: Result<Vec<usize>, QueryError>) -> (r: Result<String, QueryError>)
    requires
        packets is Ok ==> forall|i: int| 0 <= i < packets->Ok_0@.len() ==> #[trigger] packets->Ok_0@[i] < index@.len(),
    ensures
        match packets {
            Ok(v) => r is Ok && r->Ok_0@ == result_text(index@, v@),
            Err(e) => r == Err::<String, QueryError>(e),
        },
{
    let v = packets?;
    if v.len() == 0 {
        return Ok(String::from_str("Found no packets"));
    }
    let mut ids: Vec<String> = Vec::new();
    let mut i: usize = 0;
    while i < v.len()
        invariant
            i <= v@.len(),
            forall|k: int| 0 <= k < v@.len() ==> #[trigger] v@[k] < index@.len(),
            ids@.len() == i,
            forall|k: int| 0 <= k < i ==> #[trigger] ids@[k]@ == index@[v@[k] as int].id,
        decreases v@.len() - i,
    {
        let p = v[i];
        let cs = chars_of(index.packets[p].id.as_str());
        proof {
            assert(index@[p as int] == index.packets@[p as int]@);
        }
        ids.push(string_of(&cs));
        i = i + 1;
    }
    proof {
        assert(ids@.map_values(|s: String| s@) =~= v@.map_values(|j: usize| index@[j as int].id));
    }
    Ok(join_with_newlines(ids))
}

/// The text that explains a parse error.
pub open spec fn parse_error_text(e: SErr) -> Seq<char> {
    "at position "@ + decimal(e.pos) + ": "@ + match e.kind {
        SErrKind::UnexpectedCharacter => "unexpected character"@,
        SErrKind::UnterminatedString => "unterminated string"@,
        SErrKind::NumberOutOfRange => "number out of range"@,
        SErrKind::ExpectedLookupName => "expected lookup name"@,
        SErrKind::ExpectedBody => "expected body"@,
        SErrKind::ExpectedLookupOrLiteral => "expected lookup or literal"@,
        SErrKind::ExpectedInfixOperator => "expected infix operator"@,
        SErrKind::UnknownInfixOperator(o) => "Encountered unknown infix operator: "@ + o,
        SErrKind::ExpectedCloseParen => "expected closing parenthesis"@,
        SErrKind::ExpectedEnd => "expected end of query"@,
    }
}

impl ParseError {
    /// Where and why the query could not be read.
    pub fn message(&self) -> (r: String)
        ensures
            r@ == parse_error_text(self@),
    {
        let mut m: Vec<char> = Vec::new();
        push_str(&mut m, "at position ");
        push_decimal(&mut m, self.position);
        push_str(&mut m, ": ");
        match &self.kind {
            ParseErrorKind::UnexpectedCharacter => push_str(&mut m, "unexpected character"),
            ParseErrorKind::UnterminatedString => push_str(&mut m, "unterminated string"),
            ParseErrorKind::NumberOutOfRange => push_str(&mut m, "number out of range"),
            ParseErrorKind::ExpectedLookupName => push_str(&mut m, "expected lookup name"),
            ParseErrorKind::ExpectedBody => push_str(&mut m, "expected body"),
            ParseErrorKind::ExpectedLookupOrLiteral => push_str(&mut m, "expected lookup or literal"),
            ParseErrorKind::ExpectedInfixOperator => push_str(&mut m, "expected infix operator"),
            ParseErrorKind::UnknownInfixOperator(o) => {
                push_str(&mut m, "Encountered unknown infix operator: ");
                push_str(&mut m, o.as_str());
            },
            ParseErrorKind::ExpectedCloseParen => push_str(&mut m, "expected closing parenthesis"),
            ParseErrorKind::ExpectedEnd => push_str(&mut m, "expected end of query"),
        }
        proof {
            let head = "at position "@ + decimal(self.position as nat) + ": "@;
            match &self.kind {
                ParseErrorKind::UnknownInfixOperator(o) => {
                    assert(m@ =~= head + ("Encountered unknown infix operator: "@ + o@));
                },
                _ => {},
            }
        }
        string_of(&m)
    }
}

/// The text of a query error.
pub open spec fn query_error_text(e: QueryError) -> Seq<char> {
    match e {
        QueryError::ParseError(p) => "Failed to parse query\n"@ + parse_error_text((*p)@),
        QueryError::EvalError(m) => "Failed to evaluate query\n"@ + m@,
    }
}

impl QueryError {
    /// The text of the error: what failed, a line break, and the detail.
    pub fn to_string(&self) -> (r: String)
        ensures
            r@ == query_error_text(*self),
    {
        let mut m: Vec<char> = Vec::new();
        match self {
            QueryError::ParseError(p) => {
                push_str(&mut m, "Failed to parse query\n");
                let detail = p.message();
                push_str(&mut m, detail.as_str());
            },
            QueryError::EvalError(msg) => {
                push_str(&mut m, "Failed to evaluate query\n");
                push_str(&mut m, msg.as_str());
            },
        }
        string_of(&m)
    }
}

/// Reads `query`, evaluates it against `index` and writes the result.
pub fn run_query(index: &Index, query: &str) -> (r: Result<String, QueryError>)
    requires
        index.wf(),
    ensures
        match parse_text(preparse_spec(query@)) {
            Err(e) => r is Err && r->Err_0 is ParseError && (*r->Err_0->ParseError_0)@ == e,
            Ok(t) => match eval_spec(index@, t) {
                Ok(s) => r is Ok && exists|v: Seq<usize>|
                    denotes(v, s, index@.len() as int) && r->Ok_0@ == result_text(index@, v),
                Err(k) => r is Err && is_single_error(r->Err_0, k),
            },
        },
{
    let parsed = match parse_query(query) {
        Ok(t) => t,
        Err(e) => {
            return Err(QueryError::ParseError(Box::new(e)));
        },
    };
    let result = eval_query(index, &parsed);
    match result {
        Ok(v) => {
            let ghost vv = v@;
            let out = format_query_result(index, Ok(v));
            proof {
                assert(denotes(vv, eval_spec(index@, parsed@)->Ok_0, index@.len() as int));
            }
            out
        },
        Err(e) => Err(e),
    }
}

} // verus!
