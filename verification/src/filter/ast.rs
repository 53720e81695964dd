//! Syntax tree of a display filter.
use vstd::prelude::*;
use crate::decode::dns::strings_view;
use crate::net::IpAddr;
use crate::text::{join_sep, push_sep_string};

verus! {

#[derive(Debug)]
pub enum FilterExpr {
    ProtocolPresent(ProtocolAtom),
    Comparison { field: FieldPath, op: CompareOp, value: FilterValue },
    Contains { field: FieldPath, pattern: String },
    And(Box<FilterExpr>, Box<FilterExpr>),
    Or(Box<FilterExpr>, Box<FilterExpr>),
    Not(Box<FilterExpr>),
}

#[derive(Debug, Clone, Copy, PartialEq, Eq)]
pub enum ProtocolAtom {
    Ethernet,
    Arp,
    Ip,
    Ipv4,
    Ipv6,
    Tcp,
    Udp,
    Icmp,
    Icmpv6,
    Dns,
    Tls,
}

/// A dotted field name such as `tcp.port`.
#[derive(Debug, Clone, PartialEq, Eq)]
pub struct FieldPath {
    pub segments: Vec<String>,
}

impl FieldPath {
    /// The segments joined with `.`.
    pub fn as_str(&self) -> (s: String)
        ensures
            s@ == join_sep(strings_view(self.segments@), "."@),
    {
        let mut s = String::new();
        let mut i: usize = 0;
        let ghost parts = strings_view(self.segments@);
        assert(parts.take(0) =~= Seq::<Seq<char>>::empty());
        assert(s@ =~= Seq::<char>::empty() + join_sep(parts.take(0), "."@));
        while i < self.segments.len()
            invariant
                i <= self.segments@.len(),
                parts == strings_view(self.segments@),
                s@ == Seq::<char>::empty() + join_sep(parts.take(i as int), "."@),
            decreases self.segments@.len() - i,
        {
            push_sep_string(
                &mut s,
                i,
                ".",
                &self.segments[i],
                Ghost(Seq::<char>::empty()),
                Ghost(parts.take(i as int)),
            );
            assert(parts.take(i as int).push(self.segments@[i as int]@) =~= parts.take(i + 1));
            i = i + 1;
        }
        assert(parts.take(i as int) =~= parts);
        assert(s@ =~= join_sep(parts, "."@));
        s
    }
}

#[derive(Debug, Clone, Copy, PartialEq, Eq)]
pub enum CompareOp {
    Eq,
    Ne,
}

#[derive(Debug, Clone, PartialEq)]
pub enum FilterValue {
    Integer(i64),
    IpAddr(IpAddr),
    Str(String),
}

/// Model of a [`FilterValue`].
pub enum FilterValueV {
    Integer(i64),
    /// An address by its family and its octets in network order.
    Ip { v6: bool, octets: Seq<u8> },
    Str(Seq<char>),
}

impl View for FilterValue {
    type V = FilterValueV;

    open spec fn view(&self) -> FilterValueV {
        match self {
            FilterValue::Integer(n) => FilterValueV::Integer(*n),
            FilterValue::IpAddr(IpAddr::V4(a)) => FilterValueV::Ip { v6: false, octets: a.0@ },
            FilterValue::IpAddr(IpAddr::V6(a)) => FilterValueV::Ip { v6: true, octets: a.0@ },
            FilterValue::Str(s) => FilterValueV::Str(s@),
        }
    }
}

/// Model of a [`FilterExpr`]; field paths are their segment lists.
pub enum FilterExprV {
    ProtocolPresent(ProtocolAtom),
    Comparison { field: Seq<Seq<char>>, op: CompareOp, value: FilterValueV },
    Contains { field: Seq<Seq<char>>, pattern: Seq<char> },
    And(Box<FilterExprV>, Box<FilterExprV>),
    Or(Box<FilterExprV>, Box<FilterExprV>),
    Not(Box<FilterExprV>),
}

pub open spec fn expr_view(e: FilterExpr) -> FilterExprV
    decreases e,
{
    match e {
        FilterExpr::ProtocolPresent(a) => FilterExprV::ProtocolPresent(a),
        FilterExpr::Comparison { field, op, value } => FilterExprV::Comparison {
            field: strings_view(field.segments@),
            op,
            value: value@,
        },
        FilterExpr::Contains { field, pattern } => FilterExprV::Contains {
            field: strings_view(field.segments@),
            pattern: pattern@,
        },
        FilterExpr::And(a, b) => FilterExprV::And(Box::new(expr_view(*a)), Box::new(expr_view(*b))),
        FilterExpr::Or(a, b) => FilterExprV::Or(Box::new(expr_view(*a)), Box::new(expr_view(*b))),
        FilterExpr::Not(a) => FilterExprV::Not(Box::new(expr_view(*a))),
    }
}

impl View for FilterExpr {
    type V = FilterExprV;

    open spec fn view(&self) -> FilterExprV {
        expr_view(*self)
    }
}

} // verus!
