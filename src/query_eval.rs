//! Evaluates a query against an index. A result is a set of positions in
//! the index, returned in index order.

use vstd::prelude::*;

use crate::index::{lookup_literal, Index, Packet, SPacket};
use crate::number::num_cmp;
use crate::query::QueryError;
use crate::query_types::{Literal, Operator, QueryNode, SLiteral, SNode, SValue, Test, TestValue};
use crate::text::{decimal, push_decimal, push_str, str_eq, string_of};

verus! {

/// Whether `t` holds between two literals. Numbers compare by value; two
/// booleans or two strings are only equal or unequal; anything else fails.
pub open spec fn compare_literals(t: Test, a: SLiteral, b: SLiteral) -> bool {
    match (a, b) {
        (SLiteral::Num(x), SLiteral::Num(y)) => {
            let c = num_cmp(x, y);
            match t {
                Test::Equal => c == 0,
                Test::NotEqual => c != 0,
                Test::LessThan => c < 0,
                Test::LessThanOrEqual => c <= 0,
                Test::GreaterThan => c > 0,
                Test::GreaterThanOrEqual => c >= 0,
            }
        },
        (SLiteral::Bool(x), SLiteral::Bool(y)) => match t {
            Test::Equal => x == y,
            Test::NotEqual => x != y,
            _ => false,
        },
        (SLiteral::Str(x), SLiteral::Str(y)) => match t {
            Test::Equal => x == y,
            Test::NotEqual => x != y,
            _ => false,
        },
        _ => false,
    }
}

/// A side of a test, read against a packet.
pub open spec fn resolve(p: SPacket, v: SValue) -> Option<SLiteral> {
    match v {
        SValue::Literal(l) => Some(l),
        SValue::Lookup(l) => lookup_literal(p, l),
    }
}

/// Whether packet `p` passes the test.
pub open spec fn test_holds(p: SPacket, t: Test, l: SValue, r: SValue) -> bool {
    match (resolve(p, l), resolve(p, r)) {
        (Some(a), Some(b)) => compare_literals(t, a, b),
        _ => false,
    }
}

/// The positions that a query selects from an index of packets, or, when a
/// `single(...)` finds other than one packet, how many it found.
pub open spec fn eval_spec(idx: Seq<SPacket>, q: SNode) -> Result<Set<int>, nat>
    decreases q,
{
    let n = idx.len() as int;
    match q {
        SNode::Latest(None) => Ok(
            if n == 0 {
                Set::empty()
            } else {
                set![n - 1]
            },
        ),
        SNode::Latest(Some(b)) => match eval_spec(idx, *b) {
            Ok(s) => Ok(Set::new(|x: int| s.contains(x) && forall|y: int| s.contains(y) ==> y <= x)),
            Err(k) => Err(k),
        },
        SNode::Single(b) => match eval_spec(idx, *b) {
            Ok(s) => if s.len() == 1 {
                Ok(s)
            } else {
                Err(s.len())
            },
            Err(k) => Err(k),
        },
        SNode::Test(t, l, r) => Ok(Set::new(|x: int| 0 <= x < n && test_holds(idx[x], t, l, r))),
        SNode::Negation(b) => match eval_spec(idx, *b) {
            Ok(s) => Ok(Set::new(|x: int| 0 <= x < n && !s.contains(x))),
            Err(k) => Err(k),
        },
        SNode::Brackets(b) => eval_spec(idx, *b),
        SNode::BooleanOperator(op, l, r) => match eval_spec(idx, *l) {
            Ok(a) => match eval_spec(idx, *r) {
                Ok(b) => Ok(
                    match op {
                        Operator::And => a.intersect(b),
                        Operator::Or => a.union(b),
                    },
                ),
                Err(k) => Err(k),
            },
            Err(k) => Err(k),
        },
    }
}

/// The message for a `single(...)` that found `k` packets.
pub open spec fn single_error_text(k: nat) -> Seq<char> {
    "Query found "@ + decimal(k) + " packets, but expected exactly one"@
}

/// Positions as integers.
pub open spec fn positions(v: Seq<usize>) -> Seq<int> {
    v.map_values(|x: usize| x as int)
}

/// `v` lists the members of `s`, all below `n`, in increasing order.
pub open spec fn denotes(v: Seq<usize>, s: Set<int>, n: int) -> bool {
    &&& forall|i: int, j: int| 0 <= i < j < v.len() ==> v[i] < v[j]
    &&& forall|i: int| 0 <= i < v.len() ==> v[i] < n
    &&& forall|x: int| s.contains(x) <==> positions(v).contains(x)
}

pub proof fn lemma_denotes_len(v: Seq<usize>, s: Set<int>, n: int)
    requires
        denotes(v, s, n),
    ensures
        s.finite(),
        s.len() == v.len(),
{
    let p = positions(v);
    assert(p.no_duplicates()) by {
        assert forall|i: int, j: int| 0 <= i < p.len() && 0 <= j < p.len() && i != j implies p[i] != p[j] by {
            if i < j {
                assert(v[i] < v[j]);
            } else {
                assert(v[j] < v[i]);
            }
        }
    }
    p.unique_seq_to_set();
    assert(s =~= p.to_set());
}

fn compare_exec(t: Test, a: &Literal, b: &Literal) -> (r: bool)
    ensures
        r == compare_literals(t, a@, b@),
{
    match (a, b) {
        (Literal::Number(x), Literal::Number(y)) => {
            let c = x.compare(y);
            match t {
                Test::Equal => c == 0,
                Test::NotEqual => c != 0,
                Test::LessThan => c < 0,
                Test::LessThanOrEqual => c <= 0,
                Test::GreaterThan => c > 0,
                Test::GreaterThanOrEqual => c >= 0,
            }
        },
        (Literal::Bool(x), Literal::Bool(y)) => match t {
            Test::Equal => *x == *y,
            Test::NotEqual => *x != *y,
            _ => false,
        },
        (Literal::String(x), Literal::String(y)) => match t {
            Test::Equal => str_eq(x.as_str(), y.as_str()),
            Test::NotEqual => !str_eq(x.as_str(), y.as_str()),
            _ => false,
        },
        _ => false,
    }
}

fn resolve_exec(p: &Packet, v: &TestValue) -> (r: Option<Literal>)
    ensures
        crate::index::literal_result_view(r) == resolve(p@, v@),
{
    match v {
        TestValue::Literal(l) => Some(
            match l {
                Literal::Bool(b) => Literal::Bool(*b),
                Literal::Number(n) => Literal::Number(*n),
                Literal::String(s) => {
                    let cs = crate::text::chars_of(s.as_str());
                    Literal::String(string_of(&cs))
                },
            },
        ),
        TestValue::Lookup(l) => p.lookup_value(l),
    }
}

/// Whether `packet` passes the test `lhs test rhs`.
pub fn lookup_filter(packet: &Packet, test: &Test, lhs: &TestValue, rhs: &TestValue) -> (r: bool)
    ensures
        r == test_holds(packet@, *test, lhs@, rhs@),
{
    let a = resolve_exec(packet, lhs);
    let b = resolve_exec(packet, rhs);
    match (&a, &b) {
        (Some(x), Some(y)) => compare_exec(*test, x, y),
        _ => false,
    }
}

fn contains_pos(v: &Vec<usize>, x: usize) -> (r: bool)
    ensures
        r == positions(v@).contains(x as int),
{
    let mut i: usize = 0;
    while i < v.len()
        invariant
            i <= v@.len(),
            forall|j: int| 0 <= j < i ==> v@[j] != x,
        decreases v@.len() - i,
    {
        if v[i] == x {
            assert(positions(v@)[i as int] == x as int);
            return true;
        }
        i = i + 1;
    }
    proof {
        if positions(v@).contains(x as int) {
            let j = choose|j: int| 0 <= j < positions(v@).len() && positions(v@)[j] == x as int;
            assert(v@[j] == x);
        }
    }
    false
}

/// How two results combine into one.
#[derive(Clone, Copy)]
pub enum Combine {
    Complement,
    Both,
    Either,
}

pub open spec fn combined(c: Combine, n: int, a: Set<int>, b: Set<int>) -> Set<int> {
    match c {
        Combine::Complement => Set::new(|x: int| 0 <= x < n && !a.contains(x)),
        Combine::Both => a.intersect(b),
        Combine::Either => a.union(b),
    }
}

fn combine(c: Combine, n: usize, a: &Vec<usize>, b: &Vec<usize>) -> (r: Vec<usize>)
    requires
        forall|i: int| 0 <= i < a@.len() ==> a@[i] < n,
        forall|i: int| 0 <= i < b@.len() ==> b@[i] < n,
    ensures
        denotes(
            r@,
            combined(c, n as int, positions(a@).to_set(), positions(b@).to_set()),
            n as int,
        ),
{
    let ghost sa = positions(a@).to_set();
    let ghost sb = positions(b@).to_set();
    let ghost target = combined(c, n as int, sa, sb);
    let mut r: Vec<usize> = Vec::new();
    let mut i: usize = 0;
    while i < n
        invariant
            i <= n,
            forall|k: int, j: int| 0 <= k < j < r@.len() ==> r@[k] < r@[j],
            forall|k: int| 0 <= k < r@.len() ==> r@[k] < i,
            forall|x: int| 0 <= x < i ==> (target.contains(x) <==> positions(r@).contains(x)),
            forall|x: int| positions(r@).contains(x) ==> 0 <= x < i,
            target == combined(c, n as int, sa, sb),
            sa == positions(a@).to_set(),
            sb == positions(b@).to_set(),
            forall|k: int| 0 <= k < a@.len() ==> a@[k] < n,
            forall|k: int| 0 <= k < b@.len() ==> b@[k] < n,
        decreases n - i,
    {
        let in_a = contains_pos(a, i);
        let in_b = contains_pos(b, i);
        let keep = match c {
            Combine::Complement => !in_a,
            Combine::Both => in_a && in_b,
            Combine::Either => in_a || in_b,
        };
        let ghost before = r@;
        if keep {
            r.push(i);
        }
        proof {
            assert(keep == target.contains(i as int));
            assert forall|x: int| positions(r@).contains(x) implies 0 <= x < i + 1 by {
                let j = choose|j: int| 0 <= j < positions(r@).len() && positions(r@)[j] == x;
                if j < before.len() {
                    assert(positions(before)[j] == x);
                }
            }
            assert forall|x: int| 0 <= x < i + 1 implies (target.contains(x) <==> positions(r@).contains(x)) by {
                if x < i {
                    if positions(before).contains(x) {
                        let j = choose|j: int| 0 <= j < positions(before).len() && positions(before)[j] == x;
                        assert(positions(r@)[j] == x);
                    }
                    if positions(r@).contains(x) {
                        let j = choose|j: int| 0 <= j < positions(r@).len() && positions(r@)[j] == x;
                        if j == before.len() {
                            assert(r@[j] == i);
                        } else {
                            assert(positions(before)[j] == x);
                        }
                    }
                } else {
                    if keep {
                        assert(positions(r@)[before.len() as int] == x);
                    } else {
                        assert(r@ == before);
                    }
                }
            }
        }
        i = i + 1;
    }
    proof {
        assert forall|x: int| target.contains(x) <==> positions(r@).contains(x) by {
            if target.contains(x) {
                match c {
                    Combine::Complement => {},
                    Combine::Both => {
                        assert(sa.contains(x));
                        let j = choose|j: int| 0 <= j < positions(a@).len() && positions(a@)[j] == x;
                        assert(a@[j] < n);
                    },
                    Combine::Either => {
                        if sa.contains(x) {
                            let j = choose|j: int| 0 <= j < positions(a@).len() && positions(a@)[j] == x;
                            assert(a@[j] < n);
                        } else {
                            let j = choose|j: int| 0 <= j < positions(b@).len() && positions(b@)[j] == x;
                            assert(b@[j] < n);
                        }
                    },
                }
            }
        }
    }
    r
}

pub proof fn lemma_denotes_set(v: Seq<usize>, s: Set<int>, n: int)
    requires
        denotes(v, s, n),
    ensures
        s == positions(v).to_set(),
{
    assert(s =~= positions(v).to_set());
}

/// The evaluation error for a `single(...)` that found `k` packets.
pub open spec fn is_single_error(e: QueryError, k: nat) -> bool {
    match e {
        QueryError::EvalError(m) => m@ == single_error_text(k),
        _ => false,
    }
}

fn single_error(k: usize) -> (e: QueryError)
    ensures
        is_single_error(e, k as nat),
{
    let mut m: Vec<char> = Vec::new();
    push_str(&mut m, "Query found ");
    push_decimal(&mut m, k);
    push_str(&mut m, " packets, but expected exactly one");
    QueryError::EvalError(string_of(&m))
}

fn eval_test(index: &Index, test: Test, lhs: &TestValue, rhs: &TestValue) -> (r: Vec<usize>)
    ensures
        denotes(
            r@,
            Set::new(|x: int| 0 <= x < index@.len() && test_holds(index@[x], test, lhs@, rhs@)),
            index@.len() as int,
        ),
{
    let ghost target = Set::new(
        |x: int| 0 <= x < index@.len() && test_holds(index@[x], test, lhs@, rhs@),
    );
    let n = index.packets.len();
    let mut r: Vec<usize> = Vec::new();
    let mut i: usize = 0;
    while i < n
        invariant
            i <= n == index@.len(),
            forall|k: int, j: int| 0 <= k < j < r@.len() ==> r@[k] < r@[j],
            forall|k: int| 0 <= k < r@.len() ==> r@[k] < i,
            forall|x: int| 0 <= x < i ==> (target.contains(x) <==> positions(r@).contains(x)),
            forall|x: int| positions(r@).contains(x) ==> 0 <= x < i,
            target == Set::new(
                |x: int| 0 <= x < index@.len() && test_holds(index@[x], test, lhs@, rhs@),
            ),
        decreases n - i,
    {
        let keep = lookup_filter(&index.packets[i], &test, lhs, rhs);
        let ghost before = r@;
        if keep {
            r.push(i);
        }
        proof {
            assert(index@[i as int] == index.packets@[i as int]@);
            assert(keep == target.contains(i as int));
            assert forall|x: int| positions(r@).contains(x) implies 0 <= x < i + 1 by {
                let j = choose|j: int| 0 <= j < positions(r@).len() && positions(r@)[j] == x;
                if j < before.len() {
                    assert(positions(before)[j] == x);
                }
            }
            assert forall|x: int| 0 <= x < i + 1 implies (target.contains(x) <==> positions(r@).contains(x)) by {
                if x < i {
                    if positions(before).contains(x) {
                        let j = choose|j: int| 0 <= j < positions(before).len() && positions(before)[j] == x;
                        assert(positions(r@)[j] == x);
                    }
                    if positions(r@).contains(x) {
                        let j = choose|j: int| 0 <= j < positions(r@).len() && positions(r@)[j] == x;
                        if j == before.len() {
                            assert(r@[j] == i);
                        } else {
                            assert(positions(before)[j] == x);
                        }
                    }
                } else {
                    if keep {
                        assert(positions(r@)[before.len() as int] == x);
                    } else {
                        assert(r@ == before);
                    }
                }
            }
        }
        i = i + 1;
    }
    r
}

/// Evaluates `query` against `index`: the positions of the packets it
/// selects, in index order, or the error of a `single(...)` that did not
/// find exactly one packet.
pub fn eval_query(index: &Index, query: &QueryNode) -> (r: Result<Vec<usize>, QueryError>)
    requires
        index.wf(),
    ensures
        match eval_spec(index@, query@) {
            Ok(s) => r is Ok && denotes(r->Ok_0@, s, index@.len() as int),
            Err(k) => r is Err && is_single_error(r->Err_0, k),
        },
    decreases query,
{
    let n = index.packets.len();
    match query {
        QueryNode::Latest(None) => {
            let mut v: Vec<usize> = Vec::new();
            if n > 0 {
                v.push(n - 1);
            }
            proof {
                let s = eval_spec(index@, query@)->Ok_0;
                if n > 0 {
                    assert(positions(v@)[0] == n - 1);
                    assert(s =~= set![n - 1]);
                } else {
                    assert(s =~= Set::<int>::empty());
                }
                assert forall|x: int| s.contains(x) <==> positions(v@).contains(x) by {
                    if positions(v@).contains(x) {
                        let j = choose|j: int| 0 <= j < positions(v@).len() && positions(v@)[j] == x;
                    }
                }
            }
            Ok(v)
        },
        QueryNode::Latest(Some(b)) => {
            let inner = eval_query(index, b)?;
            let ghost s = eval_spec(index@, b@)->Ok_0;
            let ghost target = Set::new(
                |x: int| s.contains(x) && forall|y: int| s.contains(y) ==> y <= x,
            );
            let mut v: Vec<usize> = Vec::new();
            if inner.len() > 0 {
                v.push(inner[inner.len() - 1]);
            }
            proof {
                assert(eval_spec(index@, query@) == Ok::<Set<int>, nat>(target));
                let m = inner@.len();
                assert forall|x: int| target.contains(x) <==> positions(v@).contains(x) by {
                    if m > 0 {
                        let last = inner@[m - 1] as int;
                        assert(positions(inner@)[m - 1] == last);
                        assert(s.contains(last));
                        assert forall|y: int| s.contains(y) implies y <= last by {
                            let j = choose|j: int| 0 <= j < positions(inner@).len() && positions(inner@)[j] == y;
                            if j < m - 1 {
                                assert(inner@[j] < inner@[m - 1]);
                            }
                        }
                        if target.contains(x) {
                            let j = choose|j: int| 0 <= j < positions(inner@).len() && positions(inner@)[j] == x;
                            assert(positions(v@)[0] == last);
                        }
                        if positions(v@).contains(x) {
                            let j = choose|j: int| 0 <= j < positions(v@).len() && positions(v@)[j] == x;
                            assert(x == last);
                        }
                    } else {
                        if s.contains(x) {
                            let j = choose|j: int| 0 <= j < positions(inner@).len() && positions(inner@)[j] == x;
                        }
                        if positions(v@).contains(x) {
                            let j = choose|j: int| 0 <= j < positions(v@).len() && positions(v@)[j] == x;
                        }
                    }
                }
            }
            Ok(v)
        },
        QueryNode::Single(b) => {
            let inner = eval_query(index, b)?;
            proof {
                lemma_denotes_len(inner@, eval_spec(index@, b@)->Ok_0, n as int);
            }
            if inner.len() != 1 {
                Err(single_error(inner.len()))
            } else {
                Ok(inner)
            }
        },
        QueryNode::Test(t, l, r) => Ok(eval_test(index, *t, l, r)),
        QueryNode::Negation(b) => {
            let inner = eval_query(index, b)?;
            proof {
                lemma_denotes_set(inner@, eval_spec(index@, b@)->Ok_0, n as int);
            }
            let v = combine(Combine::Complement, n, &inner, &inner);
            Ok(v)
        },
        QueryNode::Brackets(b) => eval_query(index, b),
        QueryNode::BooleanOperator(op, l, r) => {
            let a = eval_query(index, l)?;
            let b = eval_query(index, r)?;
            proof {
                lemma_denotes_set(a@, eval_spec(index@, l@)->Ok_0, n as int);
                lemma_denotes_set(b@, eval_spec(index@, r@)->Ok_0, n as int);
            }
            let c = match op {
                Operator::And => Combine::Both,
                Operator::Or => Combine::Either,
            };
            Ok(combine(c, n, &a, &b))
        },
    }
}

/// Every position a query selects is a position of the index.
pub proof fn lemma_eval_in_range(idx: Seq<SPacket>, q: SNode)
    ensures
        eval_spec(idx, q) is Ok ==> forall|x: int| #[trigger] eval_spec(idx, q)->Ok_0.contains(x) ==> 0 <= x < idx.len(),
    decreases q,
{
    match q {
        SNode::Latest(Some(b)) => lemma_eval_in_range(idx, *b),
        SNode::Single(b) => lemma_eval_in_range(idx, *b),
        SNode::Negation(b) => lemma_eval_in_range(idx, *b),
        SNode::Brackets(b) => lemma_eval_in_range(idx, *b),
        SNode::BooleanOperator(_, l, r) => {
            lemma_eval_in_range(idx, *l);
            lemma_eval_in_range(idx, *r);
        },
        _ => {},
    }
}

/// Negating a query twice selects what the query selects, and fails where
/// it fails.
pub proof fn lemma_double_negation(idx: Seq<SPacket>, t: SNode)
    ensures
        eval_spec(idx, SNode::Negation(Box::new(SNode::Negation(Box::new(t))))) == eval_spec(idx, t),
{
    lemma_eval_in_range(idx, t);
    let inner = SNode::Negation(Box::new(t));
    let outer = SNode::Negation(Box::new(inner));
    match eval_spec(idx, t) {
        Ok(s) => {
            let n = idx.len() as int;
            let once = Set::new(|x: int| 0 <= x < n && !s.contains(x));
            assert(eval_spec(idx, inner) == Ok::<Set<int>, nat>(once));
            let twice = Set::new(|x: int| 0 <= x < n && !once.contains(x));
            assert(eval_spec(idx, outer) == Ok::<Set<int>, nat>(twice));
            assert(twice =~= s);
        },
        Err(_) => {},
    }
}

/// What `l && r` selects lies within what `l` and `r` each select, and what
/// `l || r` selects includes both.
pub proof fn lemma_and_or_bounds(idx: Seq<SPacket>, l: SNode, r: SNode)
    requires
        eval_spec(idx, l) is Ok,
        eval_spec(idx, r) is Ok,
    ensures
        ({
            let a = eval_spec(idx, l)->Ok_0;
            let b = eval_spec(idx, r)->Ok_0;
            let and = eval_spec(idx, SNode::BooleanOperator(Operator::And, Box::new(l), Box::new(r)));
            let or = eval_spec(idx, SNode::BooleanOperator(Operator::Or, Box::new(l), Box::new(r)));
            &&& and is Ok
            &&& and->Ok_0.subset_of(a)
            &&& and->Ok_0.subset_of(b)
            &&& or is Ok
            &&& a.subset_of(or->Ok_0)
            &&& b.subset_of(or->Ok_0)
        }),
{
}

} // verus!
