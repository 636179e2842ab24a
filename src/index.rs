//! Packets as the query language sees them, and the ordered index of them.

use vstd::prelude::*;

use crate::number::Number;
use crate::query_types::{Literal, Lookup, SLiteral, SLookup};
use crate::text::{str_eq, string_of, chars_of};

verus! {

/// The value of a packet parameter as read from its metadata: a scalar, or
/// `Other` for any other kind of value.
#[derive(Debug, Clone)]
pub enum ParameterValue {
    Bool(bool),
    String(String),
    Number(Number),
    Other,
}

/// A named parameter of a packet.
#[derive(Debug, Clone)]
pub struct Parameter {
    pub name: String,
    pub value: ParameterValue,
}

/// An indexed packet: its id, its name and its parameters, if it has any.
#[derive(Debug, Clone)]
pub struct Packet {
    pub id: String,
    pub name: String,
    pub parameters: Option<Vec<Parameter>>,
}

/// The packets of a repository, in order.
#[derive(Debug, Clone)]
pub struct Index {
    pub packets: Vec<Packet>,
}

pub enum SParamValue {
    Bool(bool),
    Str(Seq<char>),
    Num(Number),
    Other,
}

pub struct SPacket {
    pub id: Seq<char>,
    pub name: Seq<char>,
    pub params: Option<Seq<(Seq<char>, SParamValue)>>,
}

impl View for ParameterValue {
    type V = SParamValue;

    open spec fn view(&self) -> SParamValue {
        match self {
            ParameterValue::Bool(b) => SParamValue::Bool(*b),
            ParameterValue::String(s) => SParamValue::Str(s@),
            ParameterValue::Number(n) => SParamValue::Num(*n),
            ParameterValue::Other => SParamValue::Other,
        }
    }
}

pub open spec fn params_view(ps: Seq<Parameter>) -> Seq<(Seq<char>, SParamValue)> {
    ps.map_values(|p: Parameter| (p.name@, p.value@))
}

impl View for Packet {
    type V = SPacket;

    open spec fn view(&self) -> SPacket {
        SPacket {
            id: self.id@,
            name: self.name@,
            params: if self.parameters is Some {
                Some(params_view(self.parameters->Some_0@))
            } else {
                None
            },
        }
    }
}

impl View for Index {
    type V = Seq<SPacket>;

    open spec fn view(&self) -> Seq<SPacket> {
        self.packets@.map_values(|p: Packet| p@)
    }
}

impl Packet {
    /// No two parameters share a name.
    pub open spec fn wf(&self) -> bool {
        self.parameters is Some ==> forall|i: int, j: int|
            0 <= i < j < self.parameters->Some_0@.len() ==> (#[trigger] self.parameters->Some_0@[i]).name@
                != (#[trigger] self.parameters->Some_0@[j]).name@
    }

    /// Whether no two parameters share a name.
    pub fn is_wf(&self) -> (r: bool)
        ensures
            r == self.wf(),
    {
        match &self.parameters {
            None => true,
            Some(ps) => {
                let mut j: usize = 0;
                while j < ps.len()
                    invariant
                        j <= ps@.len(),
                        self.parameters == Some(*ps),
                        forall|a: int, b: int| 0 <= a < b < j ==> (#[trigger] ps@[a]).name@ != (#[trigger] ps@[b]).name@,
                    decreases ps@.len() - j,
                {
                    let mut i: usize = 0;
                    while i < j
                        invariant
                            i <= j < ps@.len(),
                            self.parameters == Some(*ps),
                            forall|a: int| 0 <= a < i ==> (#[trigger] ps@[a]).name@ != ps@[j as int].name@,
                        decreases j - i,
                    {
                        if str_eq(ps[i].name.as_str(), ps[j].name.as_str()) {
                            assert(!self.wf()) by {
                                assert(ps@[i as int].name@ == ps@[j as int].name@);
                            }
                            return false;
                        }
                        i = i + 1;
                    }
                    j = j + 1;
                }
                true
            },
        }
    }
}

impl Index {
    /// Every packet is well formed.
    pub open spec fn wf(&self) -> bool {
        forall|i: int| 0 <= i < self.packets@.len() ==> (#[trigger] self.packets@[i]).wf()
    }

    /// Whether every packet is well formed.
    pub fn is_wf(&self) -> (r: bool)
        ensures
            r == self.wf(),
    {
        let mut i: usize = 0;
        while i < self.packets.len()
            invariant
                i <= self.packets@.len(),
                forall|k: int| 0 <= k < i ==> (#[trigger] self.packets@[k]).wf(),
            decreases self.packets@.len() - i,
        {
            if !self.packets[i].is_wf() {
                return false;
            }
            i = i + 1;
        }
        true
    }
}

/// The first value recorded under `k`, if any.
pub open spec fn param_lookup(ps: Seq<(Seq<char>, SParamValue)>, k: Seq<char>) -> Option<SParamValue>
    decreases ps.len(),
{
    if ps.len() == 0 {
        None
    } else if ps[0].0 == k {
        Some(ps[0].1)
    } else {
        param_lookup(ps.drop_first(), k)
    }
}

/// A scalar parameter value as a literal; `None` for any other value.
pub open spec fn scalar_literal(v: SParamValue) -> Option<SLiteral> {
    match v {
        SParamValue::Bool(b) => Some(SLiteral::Bool(b)),
        SParamValue::Str(s) => Some(SLiteral::Str(s)),
        SParamValue::Num(n) => Some(SLiteral::Num(n)),
        SParamValue::Other => None,
    }
}

/// The scalar value of parameter `k` of `p`, if it has one.
pub open spec fn param_literal(p: SPacket, k: Seq<char>) -> Option<SLiteral> {
    match p.params {
        Some(ps) => match param_lookup(ps, k) {
            Some(v) => scalar_literal(v),
            None => None,
        },
        None => None,
    }
}

/// What a lookup reads from a packet; `this:` and `environment:` have no
/// context to read from and are absent.
pub open spec fn lookup_literal(p: SPacket, l: SLookup) -> Option<SLiteral> {
    match l {
        SLookup::Id => Some(SLiteral::Str(p.id)),
        SLookup::Name => Some(SLiteral::Str(p.name)),
        SLookup::Parameter(k) => param_literal(p, k),
        SLookup::This(_) => None,
        SLookup::Environment(_) => None,
    }
}

pub open spec fn literal_result_view(r: Option<Literal>) -> Option<SLiteral> {
    match r {
        Some(l) => Some(l@),
        None => None,
    }
}

fn scalar_literal_exec(v: &ParameterValue) -> (r: Option<Literal>)
    ensures
        literal_result_view(r) == scalar_literal(v@),
{
    match v {
        ParameterValue::Bool(b) => Some(Literal::Bool(*b)),
        ParameterValue::String(s) => {
            let cs = chars_of(s.as_str());
            Some(Literal::String(string_of(&cs)))
        },
        ParameterValue::Number(n) => Some(Literal::Number(*n)),
        ParameterValue::Other => None,
    }
}

impl Packet {
    /// The scalar value of the parameter `param_name`, if the packet has it.
    pub fn get_parameter(&self, param_name: &str) -> (r: Option<Literal>)
        ensures
            literal_result_view(r) == param_literal(self@, param_name@),
    {
        match &self.parameters {
            None => None,
            Some(ps) => {
                let ghost sv = params_view(ps@);
                proof {
                    assert(sv.subrange(0, sv.len() as int) =~= sv);
                }
                let mut i: usize = 0;
                while i < ps.len()
                    invariant
                        i <= ps@.len(),
                        sv == params_view(ps@),
                        self@.params == Some(sv),
                        param_lookup(sv, param_name@) == param_lookup(sv.subrange(i as int, sv.len() as int), param_name@),
                    decreases ps@.len() - i,
                {
                    let ghost rest = sv.subrange(i as int, sv.len() as int);
                    proof {
                        assert(rest[0] == sv[i as int]);
                        assert(sv[i as int] == (ps@[i as int].name@, ps@[i as int].value@));
                        assert(rest.drop_first() =~= sv.subrange(i + 1, sv.len() as int));
                    }
                    if str_eq(ps[i].name.as_str(), param_name) {
                        proof {
                            assert(rest.len() > 0);
                            assert(rest[0].0 == param_name@);
                            assert(param_lookup(rest, param_name@) == Some(rest[0].1));
                        }
                        return scalar_literal_exec(&ps[i].value);
                    }
                    i = i + 1;
                }
                None
            },
        }
    }

    /// The value that `lookup` reads from this packet, if any.
    pub fn lookup_value(&self, lookup: &Lookup) -> (r: Option<Literal>)
        ensures
            literal_result_view(r) == lookup_literal(self@, lookup@),
    {
        match lookup {
            Lookup::Id => {
                let cs = chars_of(self.id.as_str());
                Some(Literal::String(string_of(&cs)))
            },
            Lookup::Name => {
                let cs = chars_of(self.name.as_str());
                Some(Literal::String(string_of(&cs)))
            },
            Lookup::Parameter(k) => self.get_parameter(k.as_str()),
            Lookup::This(_) => None,
            Lookup::Environment(_) => None,
        }
    }
}

/// A parameter holds exactly the value `v`: same kind, and equal (numbers by
/// value).
pub open spec fn param_equals(p: SPacket, k: Seq<char>, v: SParamValue) -> bool {
    match (param_literal(p, k), v) {
        (Some(SLiteral::Bool(a)), SParamValue::Bool(b)) => a == b,
        (Some(SLiteral::Str(a)), SParamValue::Str(b)) => a == b,
        (Some(SLiteral::Num(a)), SParamValue::Num(b)) => crate::number::num_cmp(a, b) == 0,
        _ => false,
    }
}

impl Packet {
    /// Whether parameter `param_name` holds exactly `value`.
    pub fn parameter_equals(&self, param_name: &str, value: &ParameterValue) -> (r: bool)
        ensures
            r == param_equals(self@, param_name@, value@),
    {
        match (self.get_parameter(param_name), value) {
            (Some(Literal::Bool(a)), ParameterValue::Bool(b)) => a == *b,
            (Some(Literal::String(a)), ParameterValue::String(b)) => str_eq(a.as_str(), b.as_str()),
            (Some(Literal::Number(a)), ParameterValue::Number(b)) => a.compare(b) == 0,
            _ => false,
        }
    }
}

} // verus!
