//! The textual form of a node: `unit:index:promoted:identifier`.
use vstd::prelude::*;
use crate::graph::{RLEdge, RLGraphEdge, RLNode};
use crate::weights::{CallKindMultiplier, OperandMultiplier};
use crate::ir::SymbolId;
use crate::text::{
    lemma_split_first_none, all_digits, dec, decimal, find_char, is_digit, lemma_dec, lemma_dec_injective, lemma_dec_lacks,
    lemma_split_first_concat, lemma_split_first_shorter, parse_u32, parse_u32_spec, split_first,
};

verus! {

/// The index field: the index, or `STATICALLY_UNKNOWN` for index 0.
pub open spec fn index_field(index: u32) -> Seq<char> {
    if index == 0 {
        "STATICALLY_UNKNOWN"@
    } else {
        dec(index as nat)
    }
}

/// The promoted field: the promoted constant, or `u32::MAX` for none.
pub open spec fn promoted_field(p: Option<u32>) -> Seq<char> {
    match p {
        None => dec(u32::MAX as nat),
        Some(v) => dec(v as nat),
    }
}

/// The textual form of a node.
pub open spec fn node_text(n: RLNode) -> Seq<char> {
    dec(n.def_id.krate as nat) + seq![':'] + (index_field(n.def_id.index) + seq![':'] + (promoted_field(n.promoted)
        + seq![':'] + n.def_id_str@))
}

/// What a text denotes as a node: its symbol, promoted constant and
/// identifier string; the identifier is everything after the third `:`.
pub open spec fn node_of_text(s: Seq<char>) -> Option<(SymbolId, Option<u32>, Seq<char>)> {
    match split_first(s, ':') {
        None => None,
        Some(head) => match split_first(head.1, ':') {
            None => None,
            Some(mid) => match split_first(mid.1, ':') {
                None => None,
                Some(tail) => {
                    let krate = parse_u32_spec(head.0);
                    let index = if mid.0 == "STATICALLY_UNKNOWN"@ {
                        Some(0u32)
                    } else {
                        parse_u32_spec(mid.0)
                    };
                    let promoted = if tail.0 == dec(u32::MAX as nat) {
                        Some(None::<u32>)
                    } else {
                        match parse_u32_spec(tail.0) {
                            Some(v) => Some(Some(v)),
                            None => None,
                        }
                    };
                    match (krate, index, promoted) {
                        (Some(k), Some(i), Some(p)) => Some((SymbolId { krate: k, index: i }, p, tail.1)),
                        _ => None,
                    }
                },
            },
        },
    }
}

pub proof fn lemma_parse_dec(n: u32)
    ensures
        parse_u32_spec(dec(n as nat)) == Some(n),
{
    lemma_dec(n as nat);
}

/// Reading a node's text gives the node back, for every node whose
/// promoted constant is not `u32::MAX` (that value stands for none).
pub proof fn lemma_node_round_trip(n: RLNode)
    requires
        n.promoted != Some(u32::MAX),
    ensures
        node_of_text(node_text(n)) == Some((n.def_id, n.promoted, n.def_id_str@)),
{
    reveal_strlit("STATICALLY_UNKNOWN");
    let k = dec(n.def_id.krate as nat);
    let i = index_field(n.def_id.index);
    let p = promoted_field(n.promoted);
    let rest2 = p + seq![':'] + n.def_id_str@;
    let rest1 = i + seq![':'] + rest2;
    assert(!is_digit(':'));
    lemma_dec_lacks(n.def_id.krate as nat, ':');
    lemma_split_first_concat(k, ':', rest1);
    if n.def_id.index == 0 {
        assert(forall|j: int| 0 <= j < i.len() ==> i[j] != ':');
    } else {
        lemma_dec_lacks(n.def_id.index as nat, ':');
    }
    lemma_split_first_concat(i, ':', rest2);
    match n.promoted {
        None => lemma_dec_lacks(u32::MAX as nat, ':'),
        Some(v) => {
            lemma_dec_lacks(v as nat, ':');
            lemma_dec_injective(v as nat, u32::MAX as nat);
            lemma_parse_dec(v);
        },
    }
    lemma_split_first_concat(p, ':', n.def_id_str@);
    lemma_parse_dec(n.def_id.krate);
    if n.def_id.index != 0 {
        lemma_parse_dec(n.def_id.index);
        lemma_dec(n.def_id.index as nat);
        assert(is_digit(i[0]));
        assert(!is_digit("STATICALLY_UNKNOWN"@[0]));
        assert(i != "STATICALLY_UNKNOWN"@);
    }
}

impl RLNode {
    /// The node's textual form.
    pub fn serialize(&self) -> (r: String)
        ensures
            r@ == node_text(*self),
    {
        proof {
            reveal_strlit(":");
            reveal_strlit("STATICALLY_UNKNOWN");
        }
        let mut out = decimal(self.def_id.krate as u64);
        out.append(":");
        let index = if self.def_id.index == 0 {
            String::from_str("STATICALLY_UNKNOWN")
        } else {
            decimal(self.def_id.index as u64)
        };
        out.append(index.as_str());
        out.append(":");
        let promoted = match self.promoted {
            None => decimal(u32::MAX as u64),
            Some(v) => decimal(v as u64),
        };
        out.append(promoted.as_str());
        out.append(":");
        out.append(self.def_id_str.as_str());
        assert(out@ =~= node_text(*self));
        out
    }

    /// The node that a text denotes, if it has the node form.
    pub fn deserialize(s: &str) -> (r: Option<RLNode>)
        ensures
            match r {
                Some(n) => node_of_text(s@) == Some((n.def_id, n.promoted, n.def_id_str@)),
                None => node_of_text(s@) is None,
            },
    {
        let n0 = s.unicode_len();
        let i1 = match find_char(s, ':') {
            None => {
                return None;
            },
            Some(i) => i,
        };
        let krate_text = s.substring_char(0, i1);
        let r1 = s.substring_char(i1 + 1, n0);
        let n1 = r1.unicode_len();
        let i2 = match find_char(r1, ':') {
            None => {
                return None;
            },
            Some(i) => i,
        };
        let index_text = r1.substring_char(0, i2);
        let r2 = r1.substring_char(i2 + 1, n1);
        let n2 = r2.unicode_len();
        let i3 = match find_char(r2, ':') {
            None => {
                return None;
            },
            Some(i) => i,
        };
        let promoted_text = r2.substring_char(0, i3);
        let rest = r2.substring_char(i3 + 1, n2);
        let krate = match parse_u32(krate_text) {
            None => {
                return None;
            },
            Some(k) => k,
        };
        let index = if String::from_str(index_text) == String::from_str("STATICALLY_UNKNOWN") {
            0
        } else {
            match parse_u32(index_text) {
                None => {
                    return None;
                },
                Some(i) => i,
            }
        };
        let promoted = if String::from_str(promoted_text) == decimal(u32::MAX as u64) {
            None
        } else {
            match parse_u32(promoted_text) {
                None => {
                    return None;
                },
                Some(v) => Some(v),
            }
        };
        Some(RLNode { def_id: SymbolId { krate, index }, promoted, def_id_str: String::from_str(rest) })
    }
}

pub open spec fn multiplier_name(m: CallKindMultiplier) -> Seq<char> {
    match m {
        CallKindMultiplier::StaticMut => "StaticMut"@,
        CallKindMultiplier::Static => "Static"@,
        CallKindMultiplier::Method => "Method"@,
        CallKindMultiplier::Function => "Function"@,
        CallKindMultiplier::Closure => "Closure"@,
        CallKindMultiplier::Const => "Const"@,
        CallKindMultiplier::StaticallyUnknown => "StaticallyUnknown"@,
    }
}

pub open spec fn operand_name(o: OperandMultiplier) -> Seq<char> {
    match o {
        OperandMultiplier::Move => "Move"@,
        OperandMultiplier::Copy => "Copy"@,
        OperandMultiplier::Constant => "Constant"@,
    }
}

pub open spec fn multiplier_of_name(s: Seq<char>) -> Option<CallKindMultiplier> {
    if s == "StaticMut"@ { Some(CallKindMultiplier::StaticMut) }
    else if s == "Static"@ { Some(CallKindMultiplier::Static) }
    else if s == "Method"@ { Some(CallKindMultiplier::Method) }
    else if s == "Function"@ { Some(CallKindMultiplier::Function) }
    else if s == "Closure"@ { Some(CallKindMultiplier::Closure) }
    else if s == "Const"@ { Some(CallKindMultiplier::Const) }
    else if s == "StaticallyUnknown"@ { Some(CallKindMultiplier::StaticallyUnknown) }
    else { None }
}

pub open spec fn operand_of_name(s: Seq<char>) -> Option<OperandMultiplier> {
    if s == "Move"@ { Some(OperandMultiplier::Move) }
    else if s == "Copy"@ { Some(OperandMultiplier::Copy) }
    else if s == "Constant"@ { Some(OperandMultiplier::Constant) }
    else { None }
}

/// One argument weight as text: `Move:1`.
pub open spec fn weight_text(w: (OperandMultiplier, u32)) -> Seq<char> {
    operand_name(w.0) + seq![':'] + dec(w.1 as nat)
}

/// Argument weights as text, separated by `,`.
pub open spec fn weights_text(ws: Seq<(OperandMultiplier, u32)>) -> Seq<char>
    decreases ws.len(),
{
    if ws.len() == 0 {
        Seq::empty()
    } else if ws.len() == 1 {
        weight_text(ws[0])
    } else {
        weight_text(ws[0]) + seq![','] + weights_text(ws.drop_first())
    }
}

/// The textual form of an edge: `Function|Move:1,Copy:1`.
pub open spec fn edge_text(m: CallKindMultiplier, ws: Seq<(OperandMultiplier, u32)>) -> Seq<char> {
    multiplier_name(m) + seq!['|'] + weights_text(ws)
}

pub open spec fn weight_of_text(s: Seq<char>) -> Option<(OperandMultiplier, u32)> {
    match split_first(s, ':') {
        None => None,
        Some(p) => match (operand_of_name(p.0), parse_u32_spec(p.1)) {
            (Some(o), Some(w)) => Some((o, w)),
            _ => None,
        },
    }
}

pub open spec fn weights_of_text(s: Seq<char>) -> Option<Seq<(OperandMultiplier, u32)>>
    decreases s.len() via weights_of_text_decreases
{
    if s.len() == 0 {
        Some(Seq::empty())
    } else {
        match split_first(s, ',') {
            None => match weight_of_text(s) {
                Some(w) => Some(seq![w]),
                None => None,
            },
            Some(p) => match (weight_of_text(p.0), weights_of_text(p.1)) {
                (Some(w), Some(rest)) => Some(seq![w] + rest),
                _ => None,
            },
        }
    }
}

#[via_fn]
proof fn weights_of_text_decreases(s: Seq<char>) {
    lemma_split_first_shorter(s, ',');
}

pub open spec fn edge_of_text(s: Seq<char>) -> Option<(CallKindMultiplier, Seq<(OperandMultiplier, u32)>)> {
    match split_first(s, '|') {
        None => None,
        Some(p) => match (multiplier_of_name(p.0), weights_of_text(p.1)) {
            (Some(m), Some(ws)) => Some((m, ws)),
            _ => None,
        },
    }
}

proof fn lemma_operand_name(o: OperandMultiplier)
    ensures
        operand_of_name(operand_name(o)) == Some(o),
        forall|j: int| 0 <= j < operand_name(o).len() ==> operand_name(o)[j] != ':' && operand_name(o)[j] != ','
            && operand_name(o)[j] != '|',
{
    reveal_strlit("Move");
    reveal_strlit("Copy");
    reveal_strlit("Constant");
    assert("Move"@ != "Copy"@ && "Move"@ != "Constant"@ && "Copy"@ != "Constant"@) by {
        assert("Move"@[0] != "Copy"@[0]);
        assert("Move"@.len() != "Constant"@.len());
        assert("Copy"@.len() != "Constant"@.len());
    }
}

proof fn lemma_multiplier_name(m: CallKindMultiplier)
    ensures
        multiplier_of_name(multiplier_name(m)) == Some(m),
        forall|j: int| 0 <= j < multiplier_name(m).len() ==> multiplier_name(m)[j] != '|',
{
    reveal_strlit("StaticMut");
    reveal_strlit("Static");
    reveal_strlit("Method");
    reveal_strlit("Function");
    reveal_strlit("Closure");
    reveal_strlit("Const");
    reveal_strlit("StaticallyUnknown");
    assert("StaticMut"@ != "Static"@) by { assert("StaticMut"@.len() != "Static"@.len()); }
    assert("StaticMut"@ != "Method"@) by { assert("StaticMut"@.len() != "Method"@.len()); }
    assert("StaticMut"@ != "Function"@) by { assert("StaticMut"@.len() != "Function"@.len()); }
    assert("StaticMut"@ != "Closure"@) by { assert("StaticMut"@.len() != "Closure"@.len()); }
    assert("StaticMut"@ != "Const"@) by { assert("StaticMut"@.len() != "Const"@.len()); }
    assert("StaticMut"@ != "StaticallyUnknown"@) by { assert("StaticMut"@.len() != "StaticallyUnknown"@.len()); }
    assert("Static"@ != "Method"@) by { assert("Static"@[0] != "Method"@[0]); }
    assert("Static"@ != "Function"@) by { assert("Static"@.len() != "Function"@.len()); }
    assert("Static"@ != "Closure"@) by { assert("Static"@.len() != "Closure"@.len()); }
    assert("Static"@ != "Const"@) by { assert("Static"@.len() != "Const"@.len()); }
    assert("Static"@ != "StaticallyUnknown"@) by { assert("Static"@.len() != "StaticallyUnknown"@.len()); }
    assert("Method"@ != "Function"@) by { assert("Method"@.len() != "Function"@.len()); }
    assert("Method"@ != "Closure"@) by { assert("Method"@.len() != "Closure"@.len()); }
    assert("Method"@ != "Const"@) by { assert("Method"@.len() != "Const"@.len()); }
    assert("Method"@ != "StaticallyUnknown"@) by { assert("Method"@.len() != "StaticallyUnknown"@.len()); }
    assert("Function"@ != "Closure"@) by { assert("Function"@.len() != "Closure"@.len()); }
    assert("Function"@ != "Const"@) by { assert("Function"@.len() != "Const"@.len()); }
    assert("Function"@ != "StaticallyUnknown"@) by { assert("Function"@.len() != "StaticallyUnknown"@.len()); }
    assert("Closure"@ != "Const"@) by { assert("Closure"@.len() != "Const"@.len()); }
    assert("Closure"@ != "StaticallyUnknown"@) by { assert("Closure"@.len() != "StaticallyUnknown"@.len()); }
    assert("Const"@ != "StaticallyUnknown"@) by { assert("Const"@.len() != "StaticallyUnknown"@.len()); }
}

proof fn lemma_weight_round_trip(w: (OperandMultiplier, u32))
    ensures
        weight_of_text(weight_text(w)) == Some(w),
        forall|j: int| 0 <= j < weight_text(w).len() ==> weight_text(w)[j] != ',' && weight_text(w)[j] != '|',
        weight_text(w).len() > 0,
{
    lemma_operand_name(w.0);
    assert(!is_digit(','));
    assert(!is_digit('|'));
    lemma_dec_lacks(w.1 as nat, ',');
    lemma_dec_lacks(w.1 as nat, '|');
    lemma_dec_lacks(w.1 as nat, ':');
    lemma_parse_dec(w.1);
    let name = operand_name(w.0);
    lemma_split_first_concat(name, ':', dec(w.1 as nat));
    let t = weight_text(w);
    assert forall|j: int| 0 <= j < t.len() implies t[j] != ',' && t[j] != '|' by {
        if j < name.len() {
            assert(t[j] == name[j]);
        } else if j > name.len() {
            assert(t[j] == dec(w.1 as nat)[j - name.len() - 1]);
        }
    }
}

proof fn lemma_weights_round_trip(ws: Seq<(OperandMultiplier, u32)>)
    ensures
        weights_of_text(weights_text(ws)) == Some(ws),
        forall|j: int| 0 <= j < weights_text(ws).len() ==> weights_text(ws)[j] != '|',
    decreases ws.len(),
{
    if ws.len() == 1 {
        lemma_weight_round_trip(ws[0]);
        lemma_split_first_none(weight_text(ws[0]), ',');
        assert(seq![ws[0]] =~= ws);
    } else if ws.len() > 1 {
        let rest = ws.drop_first();
        lemma_weight_round_trip(ws[0]);
        lemma_weights_round_trip(rest);
        lemma_split_first_concat(weight_text(ws[0]), ',', weights_text(rest));
        assert(seq![ws[0]] + rest =~= ws);
        let t = weights_text(ws);
        let a = weight_text(ws[0]);
        assert forall|j: int| 0 <= j < t.len() implies t[j] != '|' by {
            if j < a.len() {
                assert(t[j] == a[j]);
            } else if j > a.len() {
                assert(t[j] == weights_text(rest)[j - a.len() - 1]);
            }
        }
    } else {
        assert(ws =~= Seq::<(OperandMultiplier, u32)>::empty());
    }
}

/// Reading an edge's text gives the edge back.
pub proof fn lemma_edge_round_trip(e: RLEdge)
    ensures
        edge_of_text(edge_text(e.call_multiplier, e.arg_weights@)) == Some(e@),
{
    lemma_multiplier_name(e.call_multiplier);
    lemma_weights_round_trip(e.arg_weights@);
    let name = multiplier_name(e.call_multiplier);
    lemma_split_first_concat(name, '|', weights_text(e.arg_weights@));
}

proof fn lemma_weights_text_push(ws: Seq<(OperandMultiplier, u32)>, w: (OperandMultiplier, u32))
    ensures
        weights_text(ws.push(w)) == (if ws.len() == 0 {
            weight_text(w)
        } else {
            weights_text(ws) + seq![','] + weight_text(w)
        }),
    decreases ws.len(),
{
    let p = ws.push(w);
    if ws.len() == 0 {
        assert(p.len() == 1 && p[0] == w);
    } else if ws.len() == 1 {
        assert(p.drop_first() =~= seq![w]);
        assert(p[0] == ws[0]);
        assert(seq![w][0] == w);
        assert(weights_text(p) == weight_text(ws[0]) + seq![','] + weights_text(seq![w]));
    } else {
        lemma_weights_text_push(ws.drop_first(), w);
        assert(p.drop_first() =~= ws.drop_first().push(w));
        assert(p[0] == ws[0]);
        assert(weights_text(p) == weight_text(ws[0]) + seq![','] + weights_text(ws.drop_first().push(w)));
        assert(weights_text(ws) == weight_text(ws[0]) + seq![','] + weights_text(ws.drop_first()));
        assert(weights_text(p) =~= weights_text(ws) + seq![','] + weight_text(w));
    }
}

fn multiplier_str(m: CallKindMultiplier) -> (r: &'static str)
    ensures
        r@ == multiplier_name(m),
{
    match m {
        CallKindMultiplier::StaticMut => "StaticMut",
        CallKindMultiplier::Static => "Static",
        CallKindMultiplier::Method => "Method",
        CallKindMultiplier::Function => "Function",
        CallKindMultiplier::Closure => "Closure",
        CallKindMultiplier::Const => "Const",
        CallKindMultiplier::StaticallyUnknown => "StaticallyUnknown",
    }
}

fn operand_str(o: OperandMultiplier) -> (r: &'static str)
    ensures
        r@ == operand_name(o),
{
    match o {
        OperandMultiplier::Move => "Move",
        OperandMultiplier::Copy => "Copy",
        OperandMultiplier::Constant => "Constant",
    }
}

fn multiplier_from(s: &str) -> (r: Option<CallKindMultiplier>)
    ensures
        r == multiplier_of_name(s@),
{
    let t = String::from_str(s);
    if t == String::from_str("StaticMut") { Some(CallKindMultiplier::StaticMut) }
    else if t == String::from_str("Static") { Some(CallKindMultiplier::Static) }
    else if t == String::from_str("Method") { Some(CallKindMultiplier::Method) }
    else if t == String::from_str("Function") { Some(CallKindMultiplier::Function) }
    else if t == String::from_str("Closure") { Some(CallKindMultiplier::Closure) }
    else if t == String::from_str("Const") { Some(CallKindMultiplier::Const) }
    else if t == String::from_str("StaticallyUnknown") { Some(CallKindMultiplier::StaticallyUnknown) }
    else { None }
}

fn operand_from(s: &str) -> (r: Option<OperandMultiplier>)
    ensures
        r == operand_of_name(s@),
{
    let t = String::from_str(s);
    if t == String::from_str("Move") { Some(OperandMultiplier::Move) }
    else if t == String::from_str("Copy") { Some(OperandMultiplier::Copy) }
    else if t == String::from_str("Constant") { Some(OperandMultiplier::Constant) }
    else { None }
}

fn parse_weight(s: &str) -> (r: Option<(OperandMultiplier, u32)>)
    ensures
        r == weight_of_text(s@),
{
    let n = s.unicode_len();
    match find_char(s, ':') {
        None => None,
        Some(i) => {
            let o = operand_from(s.substring_char(0, i));
            let w = parse_u32(s.substring_char(i + 1, n));
            match (o, w) {
                (Some(o), Some(w)) => Some((o, w)),
                _ => None,
            }
        },
    }
}

fn parse_weights(s: &str) -> (r: Option<Vec<(OperandMultiplier, u32)>>)
    ensures
        match r {
            Some(v) => weights_of_text(s@) == Some(v@),
            None => weights_of_text(s@) is None,
        },
    decreases s@.len(),
{
    let n = s.unicode_len();
    if n == 0 {
        return Some(Vec::new());
    }
    match find_char(s, ',') {
        None => match parse_weight(s) {
            Some(w) => {
                let v = vec![w];
                assert(v@ =~= seq![w]);
                Some(v)
            },
            None => None,
        },
        Some(i) => {
            let first = parse_weight(s.substring_char(0, i));
            let rest = s.substring_char(i + 1, n);
            match first {
                None => None,
                Some(w) => match parse_weights(rest) {
                    None => None,
                    Some(v) => {
                        let mut v = v;
                        let ghost tail = v@;
                        v.insert(0, w);
                        assert(v@ =~= seq![w] + tail);
                        Some(v)
                    },
                },
            }
        },
    }
}

impl RLEdge {
    /// The edge's textual form.
    pub fn serialize(&self) -> (r: String)
        ensures
            r@ == edge_text(self.call_multiplier, self.arg_weights@),
    {
        proof {
            reveal_strlit("|");
            reveal_strlit(",");
            reveal_strlit(":");
        }
        let mut out = String::from_str(multiplier_str(self.call_multiplier));
        out.append("|");
        let ghost head = multiplier_name(self.call_multiplier) + seq!['|'];
        let ghost ws = self.arg_weights@;
        assert(ws.take(0) =~= Seq::<(OperandMultiplier, u32)>::empty());
        assert(out@ =~= head + weights_text(ws.take(0)));
        let mut i: usize = 0;
        while i < self.arg_weights.len()
            invariant
                i <= ws.len(),
                ws == self.arg_weights@,
                out@ == head + weights_text(ws.take(i as int)),
            decreases ws.len() - i,
        {
            proof {
                reveal_strlit(",");
                reveal_strlit(":");
            }
            let (o, w) = self.arg_weights[i];
            assert(ws[i as int] == (o, w));
            let ghost before = out@;
            if i > 0 {
                out.append(",");
            }
            out.append(operand_str(o));
            out.append(":");
            out.append(decimal(w as u64).as_str());
            proof {
                lemma_weights_text_push(ws.take(i as int), ws[i as int]);
                assert(ws.take(i + 1) =~= ws.take(i as int).push(ws[i as int]));
            }
            assert(out@ =~= head + weights_text(ws.take(i + 1)));
            i = i + 1;
        }
        assert(ws.take(i as int) =~= ws);
        out
    }

    /// The edge that a text denotes, if it has the edge form.
    pub fn deserialize(s: &str) -> (r: Option<RLEdge>)
        ensures
            match r {
                Some(e) => edge_of_text(s@) == Some(e@),
                None => edge_of_text(s@) is None,
            },
    {
        let n = s.unicode_len();
        match find_char(s, '|') {
            None => None,
            Some(i) => {
                let m = multiplier_from(s.substring_char(0, i));
                let ws = parse_weights(s.substring_char(i + 1, n));
                match (m, ws) {
                    (Some(m), Some(ws)) => Some(RLEdge::create((m, ws))),
                    _ => None,
                }
            },
        }
    }
}

} // verus!
