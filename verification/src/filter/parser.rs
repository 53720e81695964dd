//! Parser for the display-filter language.
//!
//! ```text
//! expr    := and_term (("||" | "or") and_term)*
//! and_term:= unary (("&&" | "and") unary)*
//! unary   := ("not" | "!") unary | atom
//! atom    := "(" expr ")" | field "contains" word | field ("!=" | "==") value | protocol
//! field   := ident ("." ident)+        value := ipv4 | integer | word
//! ```
//!
//! Alternatives are tried in order and a failed alternative backtracks; a
//! repetition stops, without consuming anything, at the first operator that is
//! not followed by an operand. White space (space, tab, CR, LF) may surround
//! every token. Keywords need no word boundary.
use vstd::prelude::*;
use crate::decode::http::{all_digits, chars_eq, digits_value, parse_uint, parse_uint_exec, trim, trim_bounds};
use crate::decode::int_of;
use crate::net::{IpAddr, Ipv4Addr};
use crate::text::{chars_to_string, string_chars};
use super::ast::{CompareOp, FieldPath, FilterExpr, FilterExprV, FilterValue, FilterValueV, ProtocolAtom};

verus! {

broadcast use vstd::string::group_string_axioms;

// ---------------------------------------------------------------------------
// Tokens
// ---------------------------------------------------------------------------

/// The white space skipped around tokens.
pub open spec fn is_msp(c: char) -> bool {
    c == ' ' || c == '\t' || c == '\r' || c == '\n'
}

pub open spec fn skip_ws(s: Seq<char>, i: int) -> int
    decreases s.len() - i,
{
    if 0 <= i < s.len() && is_msp(s[i]) {
        skip_ws(s, i + 1)
    } else {
        i
    }
}

pub open spec fn is_ident_char(c: char) -> bool {
    ('a' <= c && c <= 'z') || ('A' <= c && c <= 'Z') || ('0' <= c && c <= '9') || c == '_'
}

pub open spec fn is_digit_char(c: char) -> bool {
    '0' <= c && c <= '9'
}

/// Characters that end a word: white space and `)`.
pub open spec fn is_word_char(c: char) -> bool {
    !(c == ' ' || c == '\t' || c == '\n' || c == '\r' || c == ')')
}

pub open spec fn ident_end(s: Seq<char>, i: int) -> int
    decreases s.len() - i,
{
    if 0 <= i < s.len() && is_ident_char(s[i]) {
        ident_end(s, i + 1)
    } else {
        i
    }
}

pub open spec fn digit_end(s: Seq<char>, i: int) -> int
    decreases s.len() - i,
{
    if 0 <= i < s.len() && is_digit_char(s[i]) {
        digit_end(s, i + 1)
    } else {
        i
    }
}

pub open spec fn word_end(s: Seq<char>, i: int) -> int
    decreases s.len() - i,
{
    if 0 <= i < s.len() && is_word_char(s[i]) {
        word_end(s, i + 1)
    } else {
        i
    }
}

pub proof fn lemma_ends(s: Seq<char>, i: int)
    requires
        0 <= i <= s.len(),
    ensures
        i <= skip_ws(s, i) <= s.len(),
        i <= ident_end(s, i) <= s.len(),
        i <= digit_end(s, i) <= s.len(),
        i <= word_end(s, i) <= s.len(),
    decreases s.len() - i,
{
    if i < s.len() {
        lemma_ends(s, i + 1);
    }
}

/// `t` occurs at position `i`.
pub open spec fn tag_at(s: Seq<char>, i: int, t: Seq<char>) -> bool {
    0 <= i && i + t.len() <= s.len() && s.subrange(i, i + t.len()) == t
}

// ---------------------------------------------------------------------------
// Fields and values
// ---------------------------------------------------------------------------

/// Further `.ident` segments from `i`.
pub open spec fn dotted_from(s: Seq<char>, i: int, segs: Seq<Seq<char>>) -> (Seq<Seq<char>>, int)
    decreases s.len() - i,
{
    if 0 <= i < s.len() && s[i] == '.' && ident_end(s, i + 1) > i + 1 {
        proof {
            lemma_ends(s, i + 1);
        }
        dotted_from(s, ident_end(s, i + 1), segs.push(s.subrange(i + 1, ident_end(s, i + 1))))
    } else {
        (segs, i)
    }
}

/// A field path of at least two identifiers.
pub open spec fn field_path(s: Seq<char>, i: int) -> Option<(Seq<Seq<char>>, int)> {
    let e = ident_end(s, i);
    if e == i {
        None
    } else {
        let (segs, j) = dotted_from(s, e, seq![s.subrange(i, e)]);
        if segs.len() < 2 {
            None
        } else {
            Some((segs, j))
        }
    }
}

/// An IPv4 octet as the address parser takes it: one to three digits, no
/// leading zero, at most 255.
pub open spec fn octet_ok(d: Seq<char>) -> bool {
    1 <= d.len() <= 3 && (d.len() == 1 || d[0] != '0') && digits_value(d) <= 255
}

/// `a.b.c.d` with four digit runs that are valid octets.
pub open spec fn ip_value(s: Seq<char>, i: int) -> Option<(FilterValueV, int)> {
    let e1 = digit_end(s, i);
    let e2 = digit_end(s, e1 + 1);
    let e3 = digit_end(s, e2 + 1);
    let e4 = digit_end(s, e3 + 1);
    if e1 > i && e1 < s.len() && s[e1] == '.' && e2 > e1 + 1 && e2 < s.len() && s[e2] == '.' && e3
        > e2 + 1 && e3 < s.len() && s[e3] == '.' && e4 > e3 + 1 {
        let o1 = s.subrange(i, e1);
        let o2 = s.subrange(e1 + 1, e2);
        let o3 = s.subrange(e2 + 1, e3);
        let o4 = s.subrange(e3 + 1, e4);
        if octet_ok(o1) && octet_ok(o2) && octet_ok(o3) && octet_ok(o4) {
            Some(
                (
                    FilterValueV::Ip {
                        v6: false,
                        octets: seq![
                            digits_value(o1) as u8,
                            digits_value(o2) as u8,
                            digits_value(o3) as u8,
                            digits_value(o4) as u8,
                        ],
                    },
                    e4,
                ),
            )
        } else {
            None
        }
    } else {
        None
    }
}

/// A digit run whose value fits an `i64`.
pub open spec fn int_value(s: Seq<char>, i: int) -> Option<(FilterValueV, int)> {
    let e = digit_end(s, i);
    if e > i && digits_value(s.subrange(i, e)) <= i64::MAX {
        Some((FilterValueV::Integer(digits_value(s.subrange(i, e)) as i64), e))
    } else {
        None
    }
}

pub open spec fn filter_value(s: Seq<char>, i: int) -> Option<(FilterValueV, int)> {
    match ip_value(s, i) {
        Some(x) => Some(x),
        None => match int_value(s, i) {
            Some(x) => Some(x),
            None => {
                let w = word_end(s, i);
                if w > i {
                    Some((FilterValueV::Str(s.subrange(i, w)), w))
                } else {
                    None
                }
            },
        },
    }
}

/// The protocol names, longer names before their prefixes.
pub open spec fn protocol_atom(s: Seq<char>, i: int) -> Option<(ProtocolAtom, int)> {
    if tag_at(s, i, "icmpv6"@) {
        Some((ProtocolAtom::Icmpv6, i + "icmpv6"@.len()))
    } else if tag_at(s, i, "icmp"@) {
        Some((ProtocolAtom::Icmp, i + "icmp"@.len()))
    } else if tag_at(s, i, "ipv6"@) {
        Some((ProtocolAtom::Ipv6, i + "ipv6"@.len()))
    } else if tag_at(s, i, "ipv4"@) {
        Some((ProtocolAtom::Ipv4, i + "ipv4"@.len()))
    } else if tag_at(s, i, "eth"@) {
        Some((ProtocolAtom::Ethernet, i + "eth"@.len()))
    } else if tag_at(s, i, "tcp"@) {
        Some((ProtocolAtom::Tcp, i + "tcp"@.len()))
    } else if tag_at(s, i, "udp"@) {
        Some((ProtocolAtom::Udp, i + "udp"@.len()))
    } else if tag_at(s, i, "arp"@) {
        Some((ProtocolAtom::Arp, i + "arp"@.len()))
    } else if tag_at(s, i, "dns"@) {
        Some((ProtocolAtom::Dns, i + "dns"@.len()))
    } else if tag_at(s, i, "tls"@) {
        Some((ProtocolAtom::Tls, i + "tls"@.len()))
    } else if tag_at(s, i, "ip"@) {
        Some((ProtocolAtom::Ip, i + "ip"@.len()))
    } else {
        None
    }
}

/// The keyword that names each protocol in a filter.
pub open spec fn atom_keyword(a: ProtocolAtom) -> Seq<char> {
    match a {
        ProtocolAtom::Ethernet => seq!['e', 't', 'h'],
        ProtocolAtom::Arp => seq!['a', 'r', 'p'],
        ProtocolAtom::Ip => seq!['i', 'p'],
        ProtocolAtom::Ipv4 => seq!['i', 'p', 'v', '4'],
        ProtocolAtom::Ipv6 => seq!['i', 'p', 'v', '6'],
        ProtocolAtom::Tcp => seq!['t', 'c', 'p'],
        ProtocolAtom::Udp => seq!['u', 'd', 'p'],
        ProtocolAtom::Icmp => seq!['i', 'c', 'm', 'p'],
        ProtocolAtom::Icmpv6 => seq!['i', 'c', 'm', 'p', 'v', '6'],
        ProtocolAtom::Dns => seq!['d', 'n', 's'],
        ProtocolAtom::Tls => seq!['t', 'l', 's'],
    }
}

proof fn lemma_keyword_literals()
    ensures
        "icmpv6"@ == atom_keyword(ProtocolAtom::Icmpv6),
        "icmp"@ == atom_keyword(ProtocolAtom::Icmp),
        "ipv6"@ == atom_keyword(ProtocolAtom::Ipv6),
        "ipv4"@ == atom_keyword(ProtocolAtom::Ipv4),
        "eth"@ == atom_keyword(ProtocolAtom::Ethernet),
        "tcp"@ == atom_keyword(ProtocolAtom::Tcp),
        "udp"@ == atom_keyword(ProtocolAtom::Udp),
        "arp"@ == atom_keyword(ProtocolAtom::Arp),
        "dns"@ == atom_keyword(ProtocolAtom::Dns),
        "tls"@ == atom_keyword(ProtocolAtom::Tls),
        "ip"@ == atom_keyword(ProtocolAtom::Ip),
{
    reveal_strlit("icmpv6");
    reveal_strlit("icmp");
    reveal_strlit("ipv6");
    reveal_strlit("ipv4");
    reveal_strlit("eth");
    reveal_strlit("tcp");
    reveal_strlit("udp");
    reveal_strlit("arp");
    reveal_strlit("dns");
    reveal_strlit("tls");
    reveal_strlit("ip");
    assert("icmpv6"@ =~= atom_keyword(ProtocolAtom::Icmpv6));
    assert("icmp"@ =~= atom_keyword(ProtocolAtom::Icmp));
    assert("ipv6"@ =~= atom_keyword(ProtocolAtom::Ipv6));
    assert("ipv4"@ =~= atom_keyword(ProtocolAtom::Ipv4));
    assert("eth"@ =~= atom_keyword(ProtocolAtom::Ethernet));
    assert("tcp"@ =~= atom_keyword(ProtocolAtom::Tcp));
    assert("udp"@ =~= atom_keyword(ProtocolAtom::Udp));
    assert("arp"@ =~= atom_keyword(ProtocolAtom::Arp));
    assert("dns"@ =~= atom_keyword(ProtocolAtom::Dns));
    assert("tls"@ =~= atom_keyword(ProtocolAtom::Tls));
    assert("ip"@ =~= atom_keyword(ProtocolAtom::Ip));
}

/// A protocol name read from a filter is exactly the keyword of the protocol
/// it stands for: the text consumed is that protocol's keyword, so each
/// keyword denotes its own protocol and no other.
pub proof fn law_protocol_keyword_names_its_atom(s: Seq<char>, i: int)
    ensures
        protocol_atom(s, i) matches Some((a, j)) ==> j == i + atom_keyword(a).len()
            && s.subrange(i, j) == atom_keyword(a),
{
    lemma_keyword_literals();
}

/// Every protocol keyword on its own reads as its protocol, consuming all of
/// it.
pub proof fn law_each_keyword_reads_as_its_atom(a: ProtocolAtom)
    ensures
        protocol_atom(atom_keyword(a), 0) matches Some((b, j)) && b == a && j == atom_keyword(
            a,
        ).len(),
{
    lemma_keyword_literals();
    let k = atom_keyword(a);
    assert(k.subrange(0, 0int + k.len()) =~= k);
    let ic6 = atom_keyword(ProtocolAtom::Icmpv6);
    let ic = atom_keyword(ProtocolAtom::Icmp);
    let i6 = atom_keyword(ProtocolAtom::Ipv6);
    let i4 = atom_keyword(ProtocolAtom::Ipv4);
    let et = atom_keyword(ProtocolAtom::Ethernet);
    let tc = atom_keyword(ProtocolAtom::Tcp);
    let ud = atom_keyword(ProtocolAtom::Udp);
    let ar = atom_keyword(ProtocolAtom::Arp);
    let dn = atom_keyword(ProtocolAtom::Dns);
    let tl = atom_keyword(ProtocolAtom::Tls);
    // A keyword differs from every earlier-tried keyword in a character they
    // share, or is shorter than it.
    if k.len() >= 4 {
        assert(k.subrange(0, 4)[1] == k[1]);
        assert(k.subrange(0, 4)[3] == k[3]);
    }
    if k.len() >= 3 {
        assert(k.subrange(0, 3)[0] == k[0]);
        assert(k.subrange(0, 3)[1] == k[1]);
        assert(k.subrange(0, 3)[2] == k[2]);
    }
    assert(ic6[1] == 'c' && ic[1] == 'c' && i6[1] == 'p' && i4[1] == 'p' && i6[3] == '6'
        && i4[3] == '4');
    assert(et[0] == 'e' && tc[0] == 't' && tc[1] == 'c' && ud[0] == 'u' && ar[0] == 'a'
        && dn[0] == 'd' && tl[0] == 't' && tl[1] == 'l');
}

proof fn lemma_ident_run(s: Seq<char>, i: int)
    requires
        0 <= i <= s.len(),
        forall|k: int| i <= k < s.len() ==> is_ident_char(#[trigger] s[k]),
    ensures
        ident_end(s, i) == s.len(),
    decreases s.len() - i,
{
    if i < s.len() {
        lemma_ident_run(s, i + 1);
    }
}

proof fn lemma_keyword_shape(a: ProtocolAtom)
    ensures
        atom_keyword(a).len() >= 2,
        forall|k: int| 0 <= k < atom_keyword(a).len() ==> is_ident_char(#[trigger] atom_keyword(a)[k]),
        atom_keyword(a)[0] != 'n' && atom_keyword(a)[0] != '!' && atom_keyword(a)[0] != '(',
        !is_msp(atom_keyword(a)[0]),
        !crate::decode::http::is_ws(atom_keyword(a)[0]),
        !crate::decode::http::is_ws(atom_keyword(a)[atom_keyword(a).len() - 1]),
{
}

/// A filter made of one protocol keyword selects the packets that carry that
/// protocol: `parse_filter` of the keyword is the presence test of its own
/// protocol.
pub proof fn law_keyword_filter_tests_its_protocol(a: ProtocolAtom)
    ensures
        spec_parse_filter(atom_keyword(a)) == Ok::<FilterExprV, Seq<char>>(
            FilterExprV::ProtocolPresent(a),
        ),
{
    let k = atom_keyword(a);
    let n = k.len() as int;
    lemma_keyword_shape(a);
    law_each_keyword_reads_as_its_atom(a);
    lemma_keyword_literals();
    reveal_strlit("not");
    reveal_strlit("!");
    reveal_strlit("&&");
    reveal_strlit("and");
    reveal_strlit("||");
    reveal_strlit("or");
    // The keyword has no surrounding white space.
    assert(crate::decode::http::lead(k, 0) == 0);
    assert(crate::decode::http::back(k, 0, n) == n);
    assert(trim(k) =~= k);
    // Nothing else starts it: no `not`, `!`, `(`, and no dotted field.
    assert(skip_ws(k, 0) == 0);
    assert(!tag_at(k, 0, "not"@)) by {
        if tag_at(k, 0, "not"@) {
            assert(k.subrange(0, 3)[0] == k[0]);
        }
    }
    assert(!tag_at(k, 0, "!"@)) by {
        if tag_at(k, 0, "!"@) {
            assert(k.subrange(0, 1)[0] == k[0]);
        }
    }
    lemma_ident_run(k, 0);
    assert(dotted_from(k, n, seq![k.subrange(0, n)]) == (seq![k.subrange(0, n)], n));
    assert(field_path(k, 0) is None);
    assert(contains_expr(k, 0) is None);
    assert(comparison_expr(k, 0) is None);
    assert(skip_ws(k, n) == n);
    let e = FilterExprV::ProtocolPresent(a);
    assert(patom(k, 0) == Some((e, n)));
    assert(punary(k, 0) == Some((e, n)));
    assert(pand_rest(k, n, e) == (e, n));
    assert(pand(k, 0) == Some((e, n)));
    assert(por_rest(k, n, e) == (e, n));
    assert(pexpr(k, 0) == Some((e, n)));
}

/// `field contains word`.
pub open spec fn contains_expr(s: Seq<char>, i: int) -> Option<(FilterExprV, int)> {
    match field_path(s, skip_ws(s, i)) {
        None => None,
        Some((f, b)) => {
            let c = skip_ws(s, b);
            if !tag_at(s, c, "contains"@) {
                None
            } else {
                let d = skip_ws(s, c + "contains"@.len());
                let w = word_end(s, d);
                if w == d {
                    None
                } else {
                    Some((FilterExprV::Contains { field: f, pattern: s.subrange(d, w) }, skip_ws(s, w)))
                }
            }
        },
    }
}

/// `field op value`.
pub open spec fn comparison_expr(s: Seq<char>, i: int) -> Option<(FilterExprV, int)> {
    match field_path(s, skip_ws(s, i)) {
        None => None,
        Some((f, b)) => {
            let c = skip_ws(s, b);
            let op = if tag_at(s, c, "!="@) {
                Some(CompareOp::Ne)
            } else if tag_at(s, c, "=="@) {
                Some(CompareOp::Eq)
            } else {
                None
            };
            match op {
                None => None,
                Some(op) => match filter_value(s, skip_ws(s, c + 2)) {
                    None => None,
                    Some((v, e)) => Some(
                        (FilterExprV::Comparison { field: f, op, value: v }, skip_ws(s, e)),
                    ),
                },
            }
        },
    }
}

// ---------------------------------------------------------------------------
// Expressions
// ---------------------------------------------------------------------------

/// An atom at `i`: parenthesised expression, `contains`, comparison, or
/// protocol name, in that order of preference.
pub open spec fn patom(s: Seq<char>, i: int) -> Option<(FilterExprV, int)>
    decreases s.len() - i, 0int,
{
    if i < 0 || i > s.len() {
        None
    } else {
        let a = skip_ws(s, i);
        proof {
            lemma_ends(s, i);
        }
        let paren: Option<(FilterExprV, int)> = if a < s.len() && s[a] == '(' {
            proof {
                lemma_ends(s, a + 1);
            }
            match pexpr(s, skip_ws(s, a + 1)) {
                Some((e, j)) => if 0 <= j <= s.len() {
                    let b = skip_ws(s, j);
                    if b < s.len() && s[b] == ')' {
                        Some((e, skip_ws(s, b + 1)))
                    } else {
                        None
                    }
                } else {
                    None
                },
                None => None,
            }
        } else {
            None
        };
        match paren {
            Some(x) => Some(x),
            None => match contains_expr(s, i) {
                Some(x) => Some(x),
                None => match comparison_expr(s, i) {
                    Some(x) => Some(x),
                    None => match protocol_atom(s, a) {
                        Some((p, b)) => Some((FilterExprV::ProtocolPresent(p), skip_ws(s, b))),
                        None => None,
                    },
                },
            },
        }
    }
}

/// `not`/`!` applied to a unary, or an atom.
pub open spec fn punary(s: Seq<char>, i: int) -> Option<(FilterExprV, int)>
    decreases s.len() - i, 1int,
{
    if i < 0 || i > s.len() {
        None
    } else {
        let a = skip_ws(s, i);
        proof {
            lemma_ends(s, i);
        }
        let k: Option<int> = if tag_at(s, a, "not"@) {
            Some(a + "not"@.len())
        } else if tag_at(s, a, "!"@) {
            Some(a + "!"@.len())
        } else {
            None
        };
        let negated: Option<(FilterExprV, int)> = match k {
            Some(k) => {
                proof {
                    lemma_ends(s, k);
                }
                if k > i {
                    match punary(s, skip_ws(s, k)) {
                        Some((e, j)) => Some((FilterExprV::Not(Box::new(e)), j)),
                        None => None,
                    }
                } else {
                    None
                }
            },
            None => None,
        };
        match negated {
            Some(x) => Some(x),
            None => patom(s, i),
        }
    }
}

/// Further `&& unary` operands after `j`, folded to the left into `acc`.
pub open spec fn pand_rest(s: Seq<char>, j: int, acc: FilterExprV) -> (FilterExprV, int)
    decreases s.len() - j, 2int,
{
    if j < 0 || j > s.len() {
        (acc, j)
    } else {
        let a = skip_ws(s, j);
        proof {
            lemma_ends(s, j);
        }
        let k: Option<int> = if tag_at(s, a, "&&"@) {
            Some(a + "&&"@.len())
        } else if tag_at(s, a, "and"@) {
            Some(a + "and"@.len())
        } else {
            None
        };
        match k {
            None => (acc, j),
            Some(k) => if k <= j {
                (acc, j)
            } else {
                proof {
                    lemma_ends(s, k);
                }
                match punary(s, skip_ws(s, k)) {
                    None => (acc, j),
                    Some((e, m)) => if m < k || m > s.len() {
                        (acc, j)
                    } else {
                        pand_rest(s, m, FilterExprV::And(Box::new(acc), Box::new(e)))
                    },
                }
            },
        }
    }
}

/// A conjunction.
pub open spec fn pand(s: Seq<char>, i: int) -> Option<(FilterExprV, int)>
    decreases s.len() - i, 3int,
{
    if i < 0 || i > s.len() {
        None
    } else {
        match punary(s, i) {
            None => None,
            Some((e, j)) => if j < i || j > s.len() {
                None
            } else {
                Some(pand_rest(s, j, e))
            },
        }
    }
}

/// Further `|| and_term` operands after `j`, folded to the left into `acc`.
pub open spec fn por_rest(s: Seq<char>, j: int, acc: FilterExprV) -> (FilterExprV, int)
    decreases s.len() - j, 4int,
{
    if j < 0 || j > s.len() {
        (acc, j)
    } else {
        let a = skip_ws(s, j);
        proof {
            lemma_ends(s, j);
        }
        let k: Option<int> = if tag_at(s, a, "||"@) {
            Some(a + "||"@.len())
        } else if tag_at(s, a, "or"@) {
            Some(a + "or"@.len())
        } else {
            None
        };
        match k {
            None => (acc, j),
            Some(k) => if k <= j {
                (acc, j)
            } else {
                proof {
                    lemma_ends(s, k);
                }
                match pand(s, skip_ws(s, k)) {
                    None => (acc, j),
                    Some((e, m)) => if m < k || m > s.len() {
                        (acc, j)
                    } else {
                        por_rest(s, m, FilterExprV::Or(Box::new(acc), Box::new(e)))
                    },
                }
            },
        }
    }
}

/// A disjunction: a whole expression.
pub open spec fn pexpr(s: Seq<char>, i: int) -> Option<(FilterExprV, int)>
    decreases s.len() - i, 5int,
{
    if i < 0 || i > s.len() {
        None
    } else {
        match pand(s, i) {
            None => None,
            Some((e, j)) => if j < i || j > s.len() {
                None
            } else {
                Some(por_rest(s, j, e))
            },
        }
    }
}

/// What [`parse_filter`] gives: the expression when it spans the whole
/// trimmed input; else an error that says the filter is empty, or quotes the
/// unparsed tail, or (when no expression starts the input) begins with
/// `parse error: `.
pub open spec fn spec_parse_filter(input: Seq<char>) -> Result<FilterExprV, Seq<char>> {
    let t = trim(input);
    if t.len() == 0 {
        Err("empty filter"@)
    } else {
        match pexpr(t, 0) {
            Some((e, j)) => if j == t.len() {
                Ok(e)
            } else {
                Err("unexpected trailing input: '"@ + t.skip(j) + "'"@)
            },
            None => Err("parse error: "@ + t),
        }
    }
}


// ---------------------------------------------------------------------------
// Executable parser
// ---------------------------------------------------------------------------

fn skip_ws_e(s: &[char], i: usize) -> (r: usize)
    requires
        i <= s@.len(),
    ensures
        r == skip_ws(s@, i as int),
        i <= r <= s@.len(),
{
    proof {
        lemma_ends(s@, i as int);
    }
    let mut k = i;
    while k < s.len() && (s[k] == ' ' || s[k] == '\t' || s[k] == '\r' || s[k] == '\n')
        invariant
            i <= k <= s@.len(),
            skip_ws(s@, i as int) == skip_ws(s@, k as int),
        decreases s@.len() - k,
    {
        k = k + 1;
    }
    k
}

fn ident_end_e(s: &[char], i: usize) -> (r: usize)
    requires
        i <= s@.len(),
    ensures
        r == ident_end(s@, i as int),
        i <= r <= s@.len(),
{
    proof {
        lemma_ends(s@, i as int);
    }
    let mut k = i;
    while k < s.len() && (('a' <= s[k] && s[k] <= 'z') || ('A' <= s[k] && s[k] <= 'Z') || ('0'
        <= s[k] && s[k] <= '9') || s[k] == '_')
        invariant
            i <= k <= s@.len(),
            ident_end(s@, i as int) == ident_end(s@, k as int),
        decreases s@.len() - k,
    {
        k = k + 1;
    }
    k
}

fn digit_end_e(s: &[char], i: usize) -> (r: usize)
    requires
        i <= s@.len(),
    ensures
        r == digit_end(s@, i as int),
        i <= r <= s@.len(),
{
    proof {
        lemma_ends(s@, i as int);
    }
    let mut k = i;
    while k < s.len() && ('0' <= s[k] && s[k] <= '9')
        invariant
            i <= k <= s@.len(),
            digit_end(s@, i as int) == digit_end(s@, k as int),
        decreases s@.len() - k,
    {
        k = k + 1;
    }
    k
}

fn word_end_e(s: &[char], i: usize) -> (r: usize)
    requires
        i <= s@.len(),
    ensures
        r == word_end(s@, i as int),
        i <= r <= s@.len(),
{
    proof {
        lemma_ends(s@, i as int);
    }
    let mut k = i;
    while k < s.len() && !(s[k] == ' ' || s[k] == '\t' || s[k] == '\n' || s[k] == '\r' || s[k]
        == ')')
        invariant
            i <= k <= s@.len(),
            word_end(s@, i as int) == word_end(s@, k as int),
        decreases s@.len() - k,
    {
        k = k + 1;
    }
    k
}

fn tag_e(s: &[char], i: usize, t: &[char]) -> (r: bool)
    requires
        i <= s@.len(),
    ensures
        r == tag_at(s@, i as int, t@),
{
    if t.len() > s.len() - i {
        return false;
    }
    let w = &s[i..i + t.len()];
    assert(w@ =~= s@.subrange(i as int, i + t@.len()));
    chars_eq(w, t)
}

/// The characters of a keyword.
fn kw(k: &str) -> (r: Vec<char>)
    ensures
        r@ == k@,
{
    string_chars(k)
}

proof fn lemma_digit_run(s: Seq<char>, i: int)
    requires
        0 <= i <= s.len(),
    ensures
        forall|k: int| i <= k < digit_end(s, i) ==> is_digit_char(#[trigger] s[k]),
    decreases s.len() - i,
{
    if i < s.len() && is_digit_char(s[i]) {
        lemma_digit_run(s, i + 1);
    }
}

/// The value of a digit run, or `None` when it exceeds `max`.
fn run_value(s: &[char], a: usize, b: usize, max: u64) -> (r: Option<u64>)
    requires
        a < b <= s@.len(),
        max >= 9,
        forall|k: int| a <= k < b ==> is_digit_char(#[trigger] s@[k]),
    ensures
        match r {
            Some(v) => v == digits_value(s@.subrange(a as int, b as int)) && v <= max,
            None => digits_value(s@.subrange(a as int, b as int)) > max,
        },
{
    let d = &s[a..b];
    let ghost dv = s@.subrange(a as int, b as int);
    assert(d@ =~= dv);
    assert(all_digits(dv)) by {
        assert forall|k: int| 0 <= k < dv.len() implies crate::decode::http::is_digit(#[trigger] dv[k]) by {
            assert(dv[k] == s@[a + k]);
        }
    }
    assert(dv[0] != '+') by {
        assert(is_digit_char(s@[a as int]));
    }
    parse_uint_exec(d, max)
}

fn field_path_e(s: &[char], i: usize) -> (r: Option<(Vec<String>, usize)>)
    requires
        i <= s@.len(),
    ensures
        match r {
            Some((f, j)) => field_path(s@, i as int) == Some(
                (crate::decode::dns::strings_view(f@), j as int),
            ) && i <= j <= s@.len(),
            None => field_path(s@, i as int) is None,
        },
{
    let e = ident_end_e(s, i);
    if e == i {
        return None;
    }
    let mut segs: Vec<String> = Vec::new();
    segs.push(chars_to_string(&s[i..e]));
    assert(crate::decode::dns::strings_view(segs@) =~= seq![s@.subrange(i as int, e as int)]);
    let mut k = e;
    let ghost target = dotted_from(s@, e as int, seq![s@.subrange(i as int, e as int)]);
    while k < s.len() && s[k] == '.' && ident_end_e(s, k + 1) > k + 1
        invariant
            i < e <= k <= s@.len(),
            target == dotted_from(s@, k as int, crate::decode::dns::strings_view(segs@)),
        decreases s@.len() - k,
    {
        let n = ident_end_e(s, k + 1);
        let ghost before = segs@;
        segs.push(chars_to_string(&s[k + 1..n]));
        assert(crate::decode::dns::strings_view(segs@) =~= crate::decode::dns::strings_view(
            before,
        ).push(s@.subrange(k + 1, n as int)));
        k = n;
    }
    if segs.len() < 2 {
        return None;
    }
    Some((segs, k))
}

fn ip_addr_value(s: &[char], i: usize) -> (r: Option<(FilterValue, usize)>)
    requires
        i <= s@.len(),
    ensures
        match r {
            Some((v, j)) => ip_value(s@, i as int) == Some((v@, j as int)) && i < j <= s@.len(),
            None => ip_value(s@, i as int) is None,
        },
{
    let n = s.len();
    let e1 = digit_end_e(s, i);
    if !(e1 > i && e1 < n && s[e1] == '.') {
        return None;
    }
    let e2 = digit_end_e(s, e1 + 1);
    if !(e2 > e1 + 1 && e2 < n && s[e2] == '.') {
        return None;
    }
    let e3 = digit_end_e(s, e2 + 1);
    if !(e3 > e2 + 1 && e3 < n && s[e3] == '.') {
        return None;
    }
    let e4 = digit_end_e(s, e3 + 1);
    if !(e4 > e3 + 1) {
        return None;
    }
    proof {
        lemma_digit_run(s@, i as int);
        lemma_digit_run(s@, e1 + 1);
        lemma_digit_run(s@, e2 + 1);
        lemma_digit_run(s@, e3 + 1);
    }
    if !(e1 - i <= 3 && (e1 - i == 1 || s[i] != '0') && e2 - (e1 + 1) <= 3 && (e2 - (e1 + 1) == 1
        || s[e1 + 1] != '0') && e3 - (e2 + 1) <= 3 && (e3 - (e2 + 1) == 1 || s[e2 + 1] != '0') && e4
        - (e3 + 1) <= 3 && (e4 - (e3 + 1) == 1 || s[e3 + 1] != '0')) {
        return None;
    }
    let v1 = match run_value(s, i, e1, 255) {
        Some(v) => v,
        None => return None,
    };
    let v2 = match run_value(s, e1 + 1, e2, 255) {
        Some(v) => v,
        None => return None,
    };
    let v3 = match run_value(s, e2 + 1, e3, 255) {
        Some(v) => v,
        None => return None,
    };
    let v4 = match run_value(s, e3 + 1, e4, 255) {
        Some(v) => v,
        None => return None,
    };
    let a = Ipv4Addr::new(v1 as u8, v2 as u8, v3 as u8, v4 as u8);
    Some((FilterValue::IpAddr(IpAddr::V4(a)), e4))
}

fn filter_value_e(s: &[char], i: usize) -> (r: Option<(FilterValue, usize)>)
    requires
        i <= s@.len(),
    ensures
        match r {
            Some((v, j)) => filter_value(s@, i as int) == Some((v@, j as int)) && i < j <= s@.len(),
            None => filter_value(s@, i as int) is None,
        },
{
    match ip_addr_value(s, i) {
        Some(x) => return Some(x),
        None => {},
    }
    let e = digit_end_e(s, i);
    if e > i {
        proof {
            lemma_digit_run(s@, i as int);
        }
        match run_value(s, i, e, 9223372036854775807u64) {
            Some(v) => return Some((FilterValue::Integer(v as i64), e)),
            None => {},
        }
    }
    let w = word_end_e(s, i);
    if w > i {
        Some((FilterValue::Str(chars_to_string(&s[i..w])), w))
    } else {
        None
    }
}

fn protocol_atom_e(s: &[char], i: usize) -> (r: Option<(ProtocolAtom, usize)>)
    requires
        i <= s@.len(),
    ensures
        match r {
            Some((p, j)) => protocol_atom(s@, int_of(i)) == Some((p, int_of(j))) && i < j <= s@.len(),
            None => protocol_atom(s@, int_of(i)) is None,
        },
{
    let n = s.len();
    let t = kw("icmpv6");
    if tag_e(s, i, &t) {
        proof { reveal_strlit("icmpv6"); }
        return Some((ProtocolAtom::Icmpv6, i + t.len()));
    }
    let t = kw("icmp");
    if tag_e(s, i, &t) {
        proof { reveal_strlit("icmp"); }
        return Some((ProtocolAtom::Icmp, i + t.len()));
    }
    let t = kw("ipv6");
    if tag_e(s, i, &t) {
        proof { reveal_strlit("ipv6"); }
        return Some((ProtocolAtom::Ipv6, i + t.len()));
    }
    let t = kw("ipv4");
    if tag_e(s, i, &t) {
        proof { reveal_strlit("ipv4"); }
        return Some((ProtocolAtom::Ipv4, i + t.len()));
    }
    let t = kw("eth");
    if tag_e(s, i, &t) {
        proof { reveal_strlit("eth"); }
        return Some((ProtocolAtom::Ethernet, i + t.len()));
    }
    let t = kw("tcp");
    if tag_e(s, i, &t) {
        proof { reveal_strlit("tcp"); }
        return Some((ProtocolAtom::Tcp, i + t.len()));
    }
    let t = kw("udp");
    if tag_e(s, i, &t) {
        proof { reveal_strlit("udp"); }
        return Some((ProtocolAtom::Udp, i + t.len()));
    }
    let t = kw("arp");
    if tag_e(s, i, &t) {
        proof { reveal_strlit("arp"); }
        return Some((ProtocolAtom::Arp, i + t.len()));
    }
    let t = kw("dns");
    if tag_e(s, i, &t) {
        proof { reveal_strlit("dns"); }
        return Some((ProtocolAtom::Dns, i + t.len()));
    }
    let t = kw("tls");
    if tag_e(s, i, &t) {
        proof { reveal_strlit("tls"); }
        return Some((ProtocolAtom::Tls, i + t.len()));
    }
    let t = kw("ip");
    if tag_e(s, i, &t) {
        proof { reveal_strlit("ip"); }
        return Some((ProtocolAtom::Ip, i + t.len()));
    }
    None
}


fn contains_e(s: &[char], i: usize) -> (r: Option<(FilterExpr, usize)>)
    requires
        i <= s@.len(),
    ensures
        match r {
            Some((e, j)) => contains_expr(s@, i as int) == Some((e@, j as int)) && i < j <= s@.len(),
            None => contains_expr(s@, i as int) is None,
        },
{
    let n = s.len();
    let a = skip_ws_e(s, i);
    let (f, b) = match field_path_e(s, a) {
        Some(x) => x,
        None => return None,
    };
    proof {
        lemma_ends(s@, a as int);
    }
    let c = skip_ws_e(s, b);
    let t = kw("contains");
    if !tag_e(s, c, &t) {
        return None;
    }
    let d = skip_ws_e(s, c + t.len());
    let w = word_end_e(s, d);
    if w == d {
        return None;
    }
    let pattern = chars_to_string(&s[d..w]);
    let j = skip_ws_e(s, w);
    Some((FilterExpr::Contains { field: FieldPath { segments: f }, pattern }, j))
}

fn comparison_expr_e(s: &[char], i: usize) -> (r: Option<(FilterExpr, usize)>)
    requires
        i <= s@.len(),
    ensures
        match r {
            Some((e, j)) => comparison_expr(s@, i as int) == Some((e@, j as int)) && i < j <= s@.len(),
            None => comparison_expr(s@, i as int) is None,
        },
{
    let n = s.len();
    let a = skip_ws_e(s, i);
    let (f, b) = match field_path_e(s, a) {
        Some(x) => x,
        None => return None,
    };
    proof {
        lemma_ends(s@, a as int);
    }
    let c = skip_ws_e(s, b);
    let ne = kw("!=");
    let eq = kw("==");
    proof {
        reveal_strlit("!=");
        reveal_strlit("==");
    }
    let op = if tag_e(s, c, &ne) {
        CompareOp::Ne
    } else if tag_e(s, c, &eq) {
        CompareOp::Eq
    } else {
        return None;
    };
    let d = skip_ws_e(s, c + 2);
    let (v, e) = match filter_value_e(s, d) {
        Some(x) => x,
        None => return None,
    };
    let j = skip_ws_e(s, e);
    Some((FilterExpr::Comparison { field: FieldPath { segments: f }, op, value: v }, j))
}

fn atom(s: &[char], i: usize) -> (r: Option<(FilterExpr, usize)>)
    requires
        i <= s@.len(),
    ensures
        match r {
            Some((e, j)) => patom(s@, i as int) == Some((e@, j as int)) && i < j <= s@.len(),
            None => patom(s@, i as int) is None,
        },
    decreases s@.len() - i, 0int,
{
    let n = s.len();
    let a = skip_ws_e(s, i);
    if a < n && s[a] == '(' {
        let st = skip_ws_e(s, a + 1);
        match expr(s, st) {
            Some((e, j)) => {
                let b = skip_ws_e(s, j);
                if b < n && s[b] == ')' {
                    let k = skip_ws_e(s, b + 1);
                    return Some((e, k));
                }
            },
            None => {},
        }
    }
    match contains_e(s, i) {
        Some(x) => return Some(x),
        None => {},
    }
    match comparison_expr_e(s, i) {
        Some(x) => return Some(x),
        None => {},
    }
    match protocol_atom_e(s, a) {
        Some((p, b)) => {
            let k = skip_ws_e(s, b);
            Some((FilterExpr::ProtocolPresent(p), k))
        },
        None => None,
    }
}

fn unary(s: &[char], i: usize) -> (r: Option<(FilterExpr, usize)>)
    requires
        i <= s@.len(),
    ensures
        match r {
            Some((e, j)) => punary(s@, i as int) == Some((e@, j as int)) && i < j <= s@.len(),
            None => punary(s@, i as int) is None,
        },
    decreases s@.len() - i, 1int,
{
    let n = s.len();
    let a = skip_ws_e(s, i);
    let not_kw = kw("not");
    let bang = kw("!");
    proof {
        reveal_strlit("not");
        reveal_strlit("!");
    }
    let k: Option<usize> = if tag_e(s, a, &not_kw) {
        Some(a + 3)
    } else if tag_e(s, a, &bang) {
        Some(a + 1)
    } else {
        None
    };
    match k {
        Some(k) => {
            let st = skip_ws_e(s, k);
            match unary(s, st) {
                Some((e, j)) => return Some((FilterExpr::Not(Box::new(e)), j)),
                None => {},
            }
        },
        None => {},
    }
    atom(s, i)
}

fn pand_rest_e(s: &[char], j: usize, acc: FilterExpr) -> (r: (FilterExpr, usize))
    requires
        j <= s@.len(),
    ensures
        pand_rest(s@, j as int, acc@) == (r.0@, r.1 as int),
        j <= r.1 <= s@.len(),
    decreases s@.len() - j, 2int,
{
    let n = s.len();
    let a = skip_ws_e(s, j);
    let amp = kw("&&");
    let and_kw = kw("and");
    proof {
        reveal_strlit("&&");
        reveal_strlit("and");
    }
    let k: usize = if tag_e(s, a, &amp) {
        a + 2
    } else if tag_e(s, a, &and_kw) {
        a + 3
    } else {
        return (acc, j);
    };
    let st = skip_ws_e(s, k);
    match unary(s, st) {
        None => (acc, j),
        Some((e, m)) => pand_rest_e(s, m, FilterExpr::And(Box::new(acc), Box::new(e))),
    }
}

fn and_term(s: &[char], i: usize) -> (r: Option<(FilterExpr, usize)>)
    requires
        i <= s@.len(),
    ensures
        match r {
            Some((e, j)) => pand(s@, i as int) == Some((e@, j as int)) && i < j <= s@.len(),
            None => pand(s@, i as int) is None,
        },
    decreases s@.len() - i, 3int,
{
    match unary(s, i) {
        None => None,
        Some((e, j)) => Some(pand_rest_e(s, j, e)),
    }
}

fn por_rest_e(s: &[char], j: usize, acc: FilterExpr) -> (r: (FilterExpr, usize))
    requires
        j <= s@.len(),
    ensures
        por_rest(s@, j as int, acc@) == (r.0@, r.1 as int),
        j <= r.1 <= s@.len(),
    decreases s@.len() - j, 4int,
{
    let n = s.len();
    let a = skip_ws_e(s, j);
    let bars = kw("||");
    let or_kw = kw("or");
    proof {
        reveal_strlit("||");
        reveal_strlit("or");
    }
    let k: usize = if tag_e(s, a, &bars) {
        a + 2
    } else if tag_e(s, a, &or_kw) {
        a + 2
    } else {
        return (acc, j);
    };
    let st = skip_ws_e(s, k);
    match and_term(s, st) {
        None => (acc, j),
        Some((e, m)) => por_rest_e(s, m, FilterExpr::Or(Box::new(acc), Box::new(e))),
    }
}

fn expr(s: &[char], i: usize) -> (r: Option<(FilterExpr, usize)>)
    requires
        i <= s@.len(),
    ensures
        match r {
            Some((e, j)) => pexpr(s@, i as int) == Some((e@, j as int)) && i < j <= s@.len(),
            None => pexpr(s@, i as int) is None,
        },
    decreases s@.len() - i, 5int,
{
    match and_term(s, i) {
        None => None,
        Some((e, j)) => Some(por_rest_e(s, j, e)),
    }
}

/// Parses a display filter. Surrounding white space is ignored; the whole
/// remaining input must form one expression.
pub fn parse_filter(input: &str) -> (r: Result<FilterExpr, String>)
    ensures
        match r {
            Ok(e) => spec_parse_filter(input@) == Ok::<FilterExprV, Seq<char>>(e@),
            Err(m) => spec_parse_filter(input@) == Err::<FilterExprV, Seq<char>>(m@),
        },
{
    let all = string_chars(input);
    let (ta, tb) = trim_bounds(all.as_slice());
    let t = &all.as_slice()[ta..tb];
    assert(t@ =~= trim(input@));
    if t.len() == 0 {
        return Err("empty filter".to_string());
    }
    match expr(t, 0) {
        Some((e, j)) => if j == t.len() {
            Ok(e)
        } else {
            let mut m = String::new();
            m.append("unexpected trailing input: '");
            let tail = chars_to_string(&t[j..t.len()]);
            assert(tail@ =~= t@.skip(j as int));
            m.append(tail.as_str());
            m.append("'");
            Err(m)
        },
        None => {
            let mut m = String::new();
            m.append("parse error: ");
            let whole = chars_to_string(t);
            m.append(whole.as_str());
            Err(m)
        },
    }
}

} // verus!
