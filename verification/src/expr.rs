//! Reading values out of the syntax tree.

use vstd::prelude::*;
use vstd::string::*;
use crate::number::{Angle, AngleUnit, Length, LengthUnit, Number, Ratio};
use crate::syntax::{lemma_nodes_view, node_view, nodes_view, opt_text, Kind, Node, NodeView};
use crate::text::{same, starts_with};

verus! {

broadcast use lemma_nodes_view;

// ---------------------------------------------------------------- literals

/// The value of a digit in any base up to 36.
pub open spec fn digit_value(c: char) -> Option<nat> {
    if '0' <= c <= '9' {
        Some((c as u32 - 0x30) as nat)
    } else if 'a' <= c <= 'z' {
        Some((c as u32 - 0x61 + 10) as nat)
    } else if 'A' <= c <= 'Z' {
        Some((c as u32 - 0x41 + 10) as nat)
    } else {
        None
    }
}

/// The number that digits of a base make up; none where there is no digit or another character.
pub open spec fn number_in_base(s: Seq<char>, base: nat) -> Option<nat>
    decreases s.len(),
{
    if s.len() == 0 {
        None
    } else {
        match (
            if s.len() == 1 {
                Some(0nat)
            } else {
                number_in_base(s.drop_last(), base)
            },
            digit_value(s.last()),
        ) {
            (Some(n), Some(d)) => if d < base {
                Some(n * base + d)
            } else {
                None
            },
            _ => None,
        }
    }
}

/// A number with a sign in front of it, or without one.
pub open spec fn signed_in_base(s: Seq<char>, base: nat) -> Option<int> {
    if s.len() > 0 && s[0] == '-' {
        match number_in_base(s.skip(1), base) {
            Some(n) => Some(-(n as int)),
            None => None,
        }
    } else {
        let rest = if s.len() > 0 && s[0] == '+' {
            s.skip(1)
        } else {
            s
        };
        match number_in_base(rest, base) {
            Some(n) => Some(n as int),
            None => None,
        }
    }
}

/// The base that a literal is written in, and its digits.
pub open spec fn literal_digits(text: Seq<char>) -> (Seq<char>, nat) {
    if starts_with(text, "0x"@) {
        (text.skip(2), 16)
    } else if starts_with(text, "0o"@) {
        (text.skip(2), 8)
    } else if starts_with(text, "0b"@) {
        (text.skip(2), 2)
    } else {
        (text, 10)
    }
}

/// The value of an integer literal: hexadecimal, octal, binary or decimal; 0 where it is too large
/// or no number.
pub open spec fn int_value(text: Seq<char>) -> i64 {
    let (digits, base) = literal_digits(text);
    match signed_in_base(digits, base) {
        Some(n) => if i64::MIN <= n <= i64::MAX {
            n as i64
        } else {
            0
        },
        None => 0,
    }
}

/// Calls `typst_syntax::ast::Int::get` on a literal with the given text: it reads the digits in
/// their base with `i64::from_str_radix`, and gives 0 where that fails.
#[verifier::external_body]
pub(crate) fn int_literal(text: &str) -> (r: i64)
    ensures
        r == int_value(text@),
{
    let node = typst_syntax::SyntaxNode::leaf(typst_syntax::SyntaxKind::Int, text);
    node.cast::<typst_syntax::ast::Int>().map(|i| i.get()).unwrap_or_default()
}

/// The bits of the double that a float literal stands for, as `typst_syntax` reads it.
pub uninterp spec fn float_bits(text: Seq<char>) -> u64;

/// Calls `typst_syntax::ast::Float::get` on a literal with the given text, and hands back the
/// bits. The result is a function of the text.
#[verifier::external_body]
pub(crate) fn float_literal(text: &str) -> (r: u64)
    ensures
        r == float_bits(text@),
{
    let node = typst_syntax::SyntaxNode::leaf(typst_syntax::SyntaxKind::Float, text);
    node.cast::<typst_syntax::ast::Float>().map(|f| f.get().to_bits()).unwrap_or_default()
}

/// The bits of the value and the name of the unit of a numeric literal, as `typst_syntax` reads
/// it.
pub uninterp spec fn numeric_value(text: Seq<char>) -> (u64, Seq<char>);

/// Calls `typst_syntax::ast::Numeric::get` on a literal with the given text, and hands back the
/// bits of the value and the name of the unit. The result is a function of the text.
#[verifier::external_body]
pub(crate) fn numeric_literal(text: &str) -> (r: (u64, String))
    ensures
        (r.0, r.1@) == numeric_value(text@),
{
    let node = typst_syntax::SyntaxNode::leaf(typst_syntax::SyntaxKind::Numeric, text);
    let value = node.cast::<typst_syntax::ast::Numeric>().map(|n| n.get());
    value.map(|v| (v.0.to_bits(), format!("{:?}", v.1))).unwrap_or_default()
}

/// Whether a text is an identifier, as `typst_syntax` sees it.
pub uninterp spec fn is_typst_ident(text: Seq<char>) -> bool;

/// Calls `typst_syntax::is_ident`. The result is a function of the text.
#[verifier::external_body]
pub(crate) fn is_valid_typst_ident(text: &str) -> (r: bool)
    ensures
        r == is_typst_ident(text@),
{
    typst_syntax::is_ident(text)
}

// ---------------------------------------------------------------- children

/// The value of an optional node.
pub open spec fn opt_node(n: Option<&Node>) -> Option<NodeView> {
    match n {
        Some(n) => Some(n@),
        None => None,
    }
}

/// The first expression in a list of nodes.
pub open spec fn first_expr(s: Seq<NodeView>) -> Option<NodeView>
    decreases s.len(),
{
    if s.len() == 0 {
        None
    } else if s[0].expr {
        Some(s[0])
    } else {
        first_expr(s.subrange(1, s.len() as int))
    }
}

/// The last expression in a list of nodes.
pub open spec fn last_expr(s: Seq<NodeView>) -> Option<NodeView>
    decreases s.len(),
{
    if s.len() == 0 {
        None
    } else if s.last().expr {
        Some(s.last())
    } else {
        last_expr(s.drop_last())
    }
}

/// The first node of a kind in a list of nodes.
pub open spec fn first_kind(s: Seq<NodeView>, k: Kind) -> Option<NodeView>
    decreases s.len(),
{
    if s.len() == 0 {
        None
    } else if s[0].kind == k {
        Some(s[0])
    } else {
        first_kind(s.subrange(1, s.len() as int), k)
    }
}

/// The last node of a kind in a list of nodes.
pub open spec fn last_kind(s: Seq<NodeView>, k: Kind) -> Option<NodeView>
    decreases s.len(),
{
    if s.len() == 0 {
        None
    } else if s.last().kind == k {
        Some(s.last())
    } else {
        last_kind(s.drop_last(), k)
    }
}

/// The first expression in a list of nodes.
pub fn find_first_expr(v: &Vec<Node>) -> (r: Option<&Node>)
    ensures
        opt_node(r) == first_expr(nodes_view(v@)),
{
    let ghost s = nodes_view(v@);
    let mut i: usize = 0;
    assert(s.subrange(0, s.len() as int) =~= s);
    while i < v.len()
        invariant
            i <= v.len(),
            s == nodes_view(v@),
            first_expr(s) == first_expr(s.subrange(i as int, s.len() as int)),
        decreases v.len() - i,
    {
        let ghost here = s.subrange(i as int, s.len() as int);
        assert(here.subrange(1, here.len() as int) =~= s.subrange(i + 1, s.len() as int));
        assert(here[0] == node_view(v@[i as int]));
        if v[i].expr {
            return Some(&v[i]);
        }
        i += 1;
    }
    None
}

/// The last expression in a list of nodes.
pub fn find_last_expr(v: &Vec<Node>) -> (r: Option<&Node>)
    ensures
        opt_node(r) == last_expr(nodes_view(v@)),
{
    let ghost s = nodes_view(v@);
    let mut i: usize = v.len();
    assert(s.take(s.len() as int) =~= s);
    while i > 0
        invariant
            i <= v.len(),
            s == nodes_view(v@),
            last_expr(s) == last_expr(s.take(i as int)),
        decreases i,
    {
        let ghost here = s.take(i as int);
        assert(here.drop_last() =~= s.take(i - 1));
        assert(here.last() == node_view(v@[i - 1]));
        if v[i - 1].expr {
            return Some(&v[i - 1]);
        }
        i -= 1;
    }
    None
}

/// The first node of a kind in a list of nodes.
pub fn find_first_kind(v: &Vec<Node>, k: Kind) -> (r: Option<&Node>)
    ensures
        opt_node(r) == first_kind(nodes_view(v@), k),
{
    let ghost s = nodes_view(v@);
    let mut i: usize = 0;
    assert(s.subrange(0, s.len() as int) =~= s);
    while i < v.len()
        invariant
            i <= v.len(),
            s == nodes_view(v@),
            first_kind(s, k) == first_kind(s.subrange(i as int, s.len() as int), k),
        decreases v.len() - i,
    {
        let ghost here = s.subrange(i as int, s.len() as int);
        assert(here.subrange(1, here.len() as int) =~= s.subrange(i + 1, s.len() as int));
        assert(here[0] == node_view(v@[i as int]));
        if v[i].kind == k {
            return Some(&v[i]);
        }
        i += 1;
    }
    None
}

/// The last node of a kind in a list of nodes.
pub fn find_last_kind(v: &Vec<Node>, k: Kind) -> (r: Option<&Node>)
    ensures
        opt_node(r) == last_kind(nodes_view(v@), k),
{
    let ghost s = nodes_view(v@);
    let mut i: usize = v.len();
    assert(s.take(s.len() as int) =~= s);
    while i > 0
        invariant
            i <= v.len(),
            s == nodes_view(v@),
            last_kind(s, k) == last_kind(s.take(i as int), k),
        decreases i,
    {
        let ghost here = s.take(i as int);
        assert(here.drop_last() =~= s.take(i - 1));
        assert(here.last() == node_view(v@[i - 1]));
        if v[i - 1].kind == k {
            return Some(&v[i - 1]);
        }
        i -= 1;
    }
    None
}

proof fn lemma_last_expr_in(s: Seq<NodeView>)
    ensures
        last_expr(s) matches Some(e) ==> s.contains(e),
    decreases s.len(),
{
    if s.len() > 0 {
        lemma_last_expr_in(s.drop_last());
        if !s.last().expr && last_expr(s) is Some {
            let e = last_expr(s)->0;
            let i = choose|i: int| 0 <= i < s.drop_last().len() && s.drop_last()[i] == e;
            assert(s[i] == e);
        } else if s.last().expr {
            assert(s[s.len() - 1] == s.last());
        }
    }
}

proof fn lemma_first_expr_in(s: Seq<NodeView>)
    ensures
        first_expr(s) matches Some(e) ==> s.contains(e),
    decreases s.len(),
{
    if s.len() > 0 {
        let t = s.subrange(1, s.len() as int);
        lemma_first_expr_in(t);
        if !s[0].expr && first_expr(s) is Some {
            let e = first_expr(s)->0;
            let i = choose|i: int| 0 <= i < t.len() && t[i] == e;
            assert(s[i + 1] == e);
        }
    }
}

/// The first and the last expression below a node are smaller than the node.
pub proof fn lemma_expr_smaller(n: NodeView)
    ensures
        last_expr(n.children) matches Some(e) ==> decreases_to!(n => e),
        first_expr(n.children) matches Some(e) ==> decreases_to!(n => e),
{
    lemma_last_expr_in(n.children);
    lemma_first_expr_in(n.children);
    if let Some(e) = last_expr(n.children) {
        let i = choose|i: int| 0 <= i < n.children.len() && n.children[i] == e;
        assert(decreases_to!(n => n.children[i]));
    }
    if let Some(e) = first_expr(n.children) {
        let i = choose|i: int| 0 <= i < n.children.len() && n.children[i] == e;
        assert(decreases_to!(n => n.children[i]));
    }
}

// ---------------------------------------------------------------- text of a node

/// The source text of a node: its own text and that of everything below it.
pub open spec fn source_text(n: NodeView) -> Seq<char>
    decreases n,
{
    n.text + source_texts(n.children)
}

/// The source texts of nodes, one after the other.
pub open spec fn source_texts(s: Seq<NodeView>) -> Seq<char>
    decreases s,
{
    if s.len() == 0 {
        Seq::empty()
    } else {
        source_texts(s.drop_last()) + source_text(s.last())
    }
}

/// The source text of a node.
pub fn expr_src(n: &Node) -> (r: String)
    ensures
        r@ == source_text(n@),
    decreases n@,
{
    let mut r = n.text.clone();
    let ghost s = n@.children;
    let mut i: usize = 0;
    assert(s.take(0) =~= Seq::<NodeView>::empty());
    assert(r@ =~= n@.text + source_texts(s.take(0)));
    while i < n.children.len()
        invariant
            i <= n.children.len(),
            s == n@.children,
            s == nodes_view(n.children@),
            r@ == n@.text + source_texts(s.take(i as int)),
        decreases n.children.len() - i,
    {
        proof {
            assert(s[i as int] == node_view(n.children@[i as int]));
            assert(decreases_to!(n@ => n@.children[i as int]));
            assert(s.take(i + 1).drop_last() =~= s.take(i as int));
        }
        let part = expr_src(&n.children[i]);
        r.append(part.as_str());
        assert(r@ =~= n@.text + source_texts(s.take(i + 1)));
        i += 1;
    }
    assert(s.take(s.len() as int) =~= s);
    r
}

// ---------------------------------------------------------------- calls

/// The arguments of a call, in order, among whatever else stands between them.
pub open spec fn call_items(call: NodeView) -> Seq<NodeView> {
    match last_kind(call.children, Kind::Args) {
        Some(a) => a.children,
        None => Seq::empty(),
    }
}

/// The positional argument with the given number.
pub open spec fn nth_expr(s: Seq<NodeView>, i: nat) -> Option<NodeView>
    decreases s.len(),
{
    if s.len() == 0 {
        None
    } else {
        let rest = s.subrange(1, s.len() as int);
        if s[0].expr {
            if i == 0 {
                Some(s[0])
            } else {
                nth_expr(rest, (i - 1) as nat)
            }
        } else {
            nth_expr(rest, i)
        }
    }
}

/// The positional argument with the given number.
pub open spec fn pos_arg(call: NodeView, i: nat) -> Option<NodeView> {
    nth_expr(call_items(call), i)
}

/// The text of the last identifier in a list of nodes; empty where there is none.
pub open spec fn last_ident(s: Seq<NodeView>) -> Seq<char> {
    match last_kind(s, Kind::Ident) {
        Some(i) => i.text,
        None => Seq::empty(),
    }
}

/// The text of the first identifier in a list of nodes; empty where there is none.
pub open spec fn first_ident(s: Seq<NodeView>) -> Seq<char> {
    match first_kind(s, Kind::Ident) {
        Some(i) => i.text,
        None => Seq::empty(),
    }
}

/// The last pair with the given name in a list of nodes.
pub open spec fn last_named(s: Seq<NodeView>, name: Seq<char>) -> Option<NodeView>
    decreases s.len(),
{
    if s.len() == 0 {
        None
    } else if s.last().kind == Kind::Named && first_ident(s.last().children) == name {
        Some(s.last())
    } else {
        last_named(s.drop_last(), name)
    }
}

/// The named argument with the given name; where it is given more than once, the last.
pub open spec fn named_arg(call: NodeView, name: Seq<char>) -> Option<NodeView> {
    last_named(call_items(call), name)
}

/// The right-hand side of a named argument; the argument itself where it has none.
pub open spec fn right_side(n: NodeView) -> NodeView {
    match last_expr(n.children) {
        Some(e) => e,
        None => n,
    }
}

/// The value of the named argument with the given name.
pub open spec fn named_value(call: NodeView, name: Seq<char>) -> Option<NodeView> {
    match named_arg(call, name) {
        Some(n) => Some(right_side(n)),
        None => None,
    }
}

/// The source text of an argument's value; empty where a named argument has no right-hand side.
pub open spec fn arg_text(n: NodeView) -> Seq<char> {
    if n.kind == Kind::Named {
        Seq::empty()
    } else {
        source_text(n)
    }
}

/// The source text of an argument's value.
pub fn arg_source(n: &Node) -> (r: String)
    ensures
        r@ == arg_text(n@),
{
    if n.kind == Kind::Named {
        String::new()
    } else {
        expr_src(n)
    }
}

/// The positional argument with the given number.
pub fn find_pos_arg(call: &Node, k: usize) -> (r: Option<&Node>)
    ensures
        opt_node(r) == pos_arg(call@, k as nat),
{
    match find_last_kind(&call.children, Kind::Args) {
        None => None,
        Some(a) => {
            let v = &a.children;
            let ghost s = nodes_view(v@);
            let mut left: usize = k;
            let mut i: usize = 0;
            assert(s.subrange(0, s.len() as int) =~= s);
            while i < v.len()
                invariant
                    i <= v.len(),
                    s == nodes_view(v@),
                    s == call_items(call@),
                    nth_expr(s, k as nat) == nth_expr(
                        s.subrange(i as int, s.len() as int),
                        left as nat,
                    ),
                decreases v.len() - i,
            {
                let ghost here = s.subrange(i as int, s.len() as int);
                assert(here.subrange(1, here.len() as int) =~= s.subrange(
                    i + 1,
                    s.len() as int,
                ));
                assert(here[0] == node_view(v@[i as int]));
                if v[i].expr {
                    if left == 0 {
                        return Some(&v[i]);
                    }
                    left -= 1;
                }
                i += 1;
            }
            None
        },
    }
}

/// The text of the first identifier in a list of nodes; empty where there is none.
pub fn first_ident_text(v: &Vec<Node>) -> (r: String)
    ensures
        r@ == first_ident(nodes_view(v@)),
{
    match find_first_kind(v, Kind::Ident) {
        Some(i) => i.text.clone(),
        None => String::new(),
    }
}

/// The text of the last identifier in a list of nodes; empty where there is none.
pub fn last_ident_text(v: &Vec<Node>) -> (r: String)
    ensures
        r@ == last_ident(nodes_view(v@)),
{
    match find_last_kind(v, Kind::Ident) {
        Some(i) => i.text.clone(),
        None => String::new(),
    }
}

/// The named argument with the given name.
pub fn find_named_arg<'a>(call: &'a Node, name: &str) -> (r: Option<&'a Node>)
    ensures
        opt_node(r) == named_arg(call@, name@),
{
    match find_last_kind(&call.children, Kind::Args) {
        None => None,
        Some(a) => {
            let v = &a.children;
            let ghost s = nodes_view(v@);
            let mut i: usize = v.len();
            assert(s.take(s.len() as int) =~= s);
            while i > 0
                invariant
                    i <= v.len(),
                    s == nodes_view(v@),
                    s == call_items(call@),
                    last_named(s, name@) == last_named(s.take(i as int), name@),
                decreases i,
            {
                let ghost here = s.take(i as int);
                assert(here.drop_last() =~= s.take(i - 1));
                assert(here.last() == node_view(v@[i - 1]));
                if v[i - 1].kind == Kind::Named && same(
                    first_ident_text(&v[i - 1].children).as_str(),
                    name,
                ) {
                    return Some(&v[i - 1]);
                }
                i -= 1;
            }
            None
        },
    }
}

/// The right-hand side of a named argument; the argument itself where it has none.
pub fn find_right_side(n: &Node) -> (r: &Node)
    ensures
        r@ == right_side(n@),
{
    match find_last_expr(&n.children) {
        Some(e) => e,
        None => n,
    }
}

/// The value of the named argument with the given name.
pub fn find_named_value<'a>(call: &'a Node, name: &str) -> (r: Option<&'a Node>)
    ensures
        opt_node(r) == named_value(call@, name@),
{
    match find_named_arg(call, name) {
        Some(n) => Some(find_right_side(n)),
        None => None,
    }
}

/// The first of two nodes that is there.
pub open spec fn either(a: Option<NodeView>, b: Option<NodeView>) -> Option<NodeView> {
    match a {
        Some(n) => Some(n),
        None => b,
    }
}

/// The positional argument with the given number, or else the value of the named one.
pub open spec fn pos_or_named(call: NodeView, i: nat, name: Seq<char>) -> Option<NodeView> {
    either(pos_arg(call, i), named_value(call, name))
}

/// The positional argument with the given number, or else the value of the named one.
pub fn find_pos_or_named<'a>(call: &'a Node, k: usize, name: &str) -> (r: Option<&'a Node>)
    ensures
        opt_node(r) == pos_or_named(call@, k as nat, name@),
{
    match find_pos_arg(call, k) {
        Some(n) => Some(n),
        None => find_named_value(call, name),
    }
}

/// The value of the named argument, or else the positional one with the given number.
pub open spec fn named_or_pos(call: NodeView, name: Seq<char>, i: nat) -> Option<NodeView> {
    either(named_value(call, name), pos_arg(call, i))
}

/// The value of the named argument, or else the positional one with the given number.
pub fn find_named_or_pos<'a>(call: &'a Node, name: &str, k: usize) -> (r: Option<&'a Node>)
    ensures
        opt_node(r) == named_or_pos(call@, name@, k as nat),
{
    match find_named_value(call, name) {
        Some(n) => Some(n),
        None => find_pos_arg(call, k),
    }
}

// ---------------------------------------------------------------- values

/// The value of a string literal.
pub open spec fn string_value(n: Option<NodeView>) -> Option<Seq<char>> {
    match n {
        Some(n) => n.value,
        None => None,
    }
}

/// The value of a string literal.
pub fn read_string(n: Option<&Node>) -> (r: Option<String>)
    ensures
        opt_text(r) == string_value(opt_node(n)),
{
    match n {
        Some(n) => match &n.value {
            Some(v) => Some(v.clone()),
            None => None,
        },
        None => None,
    }
}

/// The number that an expression stands for; units are left out of account.
pub open spec fn number_value(n: Option<NodeView>) -> Option<Number> {
    match n {
        Some(n) => match n.kind {
            Kind::Int => Some(Number::Int(int_value(n.text))),
            Kind::Float => Some(Number::Double(float_bits(n.text))),
            Kind::Numeric => Some(Number::Double(numeric_value(n.text).0)),
            _ => None,
        },
        None => None,
    }
}

/// The number that an expression stands for; units are left out of account.
pub fn expr_to_f64(n: Option<&Node>) -> (r: Option<Number>)
    ensures
        r == number_value(opt_node(n)),
{
    match n {
        Some(n) => match n.kind {
            Kind::Int => Some(Number::Int(int_literal(n.text.as_str()))),
            Kind::Float => Some(Number::Double(float_literal(n.text.as_str()))),
            Kind::Numeric => Some(Number::Double(numeric_literal(n.text.as_str()).0)),
            _ => None,
        },
        None => None,
    }
}

/// The truth value that an expression stands for.
pub open spec fn bool_value(n: Option<NodeView>) -> Option<bool> {
    match n {
        Some(n) => if n.kind == Kind::Bool {
            Some(n.text == "true"@)
        } else {
            None
        },
        None => None,
    }
}

/// The truth value that an expression stands for.
pub fn expr_to_bool(n: Option<&Node>) -> (r: Option<bool>)
    ensures
        r == bool_value(opt_node(n)),
{
    match n {
        Some(n) => if n.kind == Kind::Bool {
            Some(same(n.text.as_str(), "true"))
        } else {
            None
        },
        None => None,
    }
}

/// The ratio that a literal such as `50%` stands for.
pub open spec fn ratio_value(n: Option<NodeView>) -> Option<Ratio> {
    match n {
        Some(n) => if n.kind == Kind::Numeric && numeric_value(n.text).1 == "Percent"@ {
            Some(Ratio { percent: Number::Double(numeric_value(n.text).0) })
        } else {
            None
        },
        None => None,
    }
}

/// The ratio that a literal such as `50%` stands for. A bare number is no ratio.
pub fn expr_to_ratio(n: Option<&Node>) -> (r: Option<Ratio>)
    ensures
        r == ratio_value(opt_node(n)),
{
    match n {
        Some(n) => if n.kind == Kind::Numeric {
            let (value, unit) = numeric_literal(n.text.as_str());
            if same(unit.as_str(), "Percent") {
                Some(Ratio { percent: Number::Double(value) })
            } else {
                None
            }
        } else {
            None
        },
        None => None,
    }
}

/// The angle that a literal such as `90deg` stands for.
pub open spec fn angle_value(n: Option<NodeView>) -> Option<Angle> {
    match n {
        Some(n) => if n.kind != Kind::Numeric {
            None
        } else if numeric_value(n.text).1 == "Deg"@ {
            Some(Angle { value: Number::Double(numeric_value(n.text).0), unit: AngleUnit::Deg })
        } else if numeric_value(n.text).1 == "Rad"@ {
            Some(Angle { value: Number::Double(numeric_value(n.text).0), unit: AngleUnit::Rad })
        } else {
            None
        },
        None => None,
    }
}

/// The angle that a literal such as `90deg` stands for. A bare number is no angle.
pub fn expr_to_angle(n: Option<&Node>) -> (r: Option<Angle>)
    ensures
        r == angle_value(opt_node(n)),
{
    match n {
        Some(n) => if n.kind == Kind::Numeric {
            let (value, unit) = numeric_literal(n.text.as_str());
            if same(unit.as_str(), "Deg") {
                Some(Angle { value: Number::Double(value), unit: AngleUnit::Deg })
            } else if same(unit.as_str(), "Rad") {
                Some(Angle { value: Number::Double(value), unit: AngleUnit::Rad })
            } else {
                None
            }
        } else {
            None
        },
        None => None,
    }
}

/// The unit of a length with a given name.
pub open spec fn length_unit(name: Seq<char>) -> Option<LengthUnit> {
    if name == "Cm"@ {
        Some(LengthUnit::Cm)
    } else if name == "Mm"@ {
        Some(LengthUnit::Mm)
    } else if name == "Pt"@ {
        Some(LengthUnit::Pt)
    } else if name == "In"@ {
        Some(LengthUnit::In)
    } else {
        None
    }
}

fn unit_of(name: &str) -> (r: Option<LengthUnit>)
    ensures
        r == length_unit(name@),
{
    if same(name, "Cm") {
        Some(LengthUnit::Cm)
    } else if same(name, "Mm") {
        Some(LengthUnit::Mm)
    } else if same(name, "Pt") {
        Some(LengthUnit::Pt)
    } else if same(name, "In") {
        Some(LengthUnit::In)
    } else {
        None
    }
}

/// A sign in front of an expression.
#[derive(Debug, Clone, Copy, PartialEq, Eq, Structural)]
pub enum Sign {
    Plus,
    Minus,
    Not,
}

/// The sign that a node is.
pub open spec fn sign_of(k: Kind) -> Option<Sign> {
    match k {
        Kind::Plus => Some(Sign::Plus),
        Kind::Minus => Some(Sign::Minus),
        Kind::Not => Some(Sign::Not),
        _ => None,
    }
}

/// The first sign in a list of nodes; a plus where there is none.
pub open spec fn first_sign(s: Seq<NodeView>) -> Sign
    decreases s.len(),
{
    if s.len() == 0 {
        Sign::Plus
    } else {
        match sign_of(s[0].kind) {
            Some(x) => x,
            None => first_sign(s.subrange(1, s.len() as int)),
        }
    }
}

fn find_sign(v: &Vec<Node>) -> (r: Sign)
    ensures
        r == first_sign(nodes_view(v@)),
{
    let ghost s = nodes_view(v@);
    let mut i: usize = 0;
    assert(s.subrange(0, s.len() as int) =~= s);
    while i < v.len()
        invariant
            i <= v.len(),
            s == nodes_view(v@),
            first_sign(s) == first_sign(s.subrange(i as int, s.len() as int)),
        decreases v.len() - i,
    {
        let ghost here = s.subrange(i as int, s.len() as int);
        assert(here.subrange(1, here.len() as int) =~= s.subrange(i + 1, s.len() as int));
        assert(here[0] == node_view(v@[i as int]));
        match v[i].kind {
            Kind::Plus => {
                return Sign::Plus;
            },
            Kind::Minus => {
                return Sign::Minus;
            },
            Kind::Not => {
                return Sign::Not;
            },
            _ => {},
        }
        i += 1;
    }
    Sign::Plus
}

/// The length that an expression stands for: a literal with a unit of length, a bare number
/// (centimeters), or either behind signs.
pub open spec fn length_value(n: NodeView) -> Option<Length>
    decreases n,
{
    proof {
        lemma_expr_smaller(n);
    }
    match n.kind {
        Kind::Numeric => match length_unit(numeric_value(n.text).1) {
            Some(unit) => Some(
                Length { value: Number::Double(numeric_value(n.text).0), unit, negative: false },
            ),
            None => None,
        },
        Kind::Int => Some(
            Length { value: Number::Int(int_value(n.text)), unit: LengthUnit::Cm, negative: false },
        ),
        Kind::Float => Some(
            Length {
                value: Number::Double(float_bits(n.text)),
                unit: LengthUnit::Cm,
                negative: false,
            },
        ),
        Kind::Unary => if first_sign(n.children) == Sign::Not {
            None
        } else {
            match last_expr(n.children) {
                Some(e) => match length_value(e) {
                    Some(l) => Some(
                        Length {
                            negative: l.negative != (first_sign(n.children) == Sign::Minus),
                            ..l
                        },
                    ),
                    None => None,
                },
                None => None,
            }
        },
        _ => None,
    }
}

/// The length that an expression stands for.
pub fn expr_length_cm(n: &Node) -> (r: Option<Length>)
    ensures
        r == length_value(n@),
    decreases n@,
{
    match n.kind {
        Kind::Numeric => {
            let (value, unit) = numeric_literal(n.text.as_str());
            match unit_of(unit.as_str()) {
                Some(unit) => Some(
                    Length { value: Number::Double(value), unit, negative: false },
                ),
                None => None,
            }
        },
        Kind::Int => Some(
            Length {
                value: Number::Int(int_literal(n.text.as_str())),
                unit: LengthUnit::Cm,
                negative: false,
            },
        ),
        Kind::Float => Some(
            Length {
                value: Number::Double(float_literal(n.text.as_str())),
                unit: LengthUnit::Cm,
                negative: false,
            },
        ),
        Kind::Unary => {
            let sign = find_sign(&n.children);
            if sign == Sign::Not {
                return None;
            }
            proof {
                lemma_expr_smaller(n@);
            }
            match find_last_expr(&n.children) {
                Some(e) => match expr_length_cm(e) {
                    Some(l) => Some(
                        Length {
                            value: l.value,
                            unit: l.unit,
                            negative: l.negative != (sign == Sign::Minus),
                        },
                    ),
                    None => None,
                },
                None => None,
            }
        },
        _ => None,
    }
}

/// The items of an array literal, possibly inside parentheses, among whatever else stands
/// between them.
pub open spec fn array_items(n: NodeView) -> Option<Seq<NodeView>> {
    match n.kind {
        Kind::Array => Some(n.children),
        Kind::Parenthesized => match first_expr(n.children) {
            Some(e) => if e.kind == Kind::Array {
                Some(e.children)
            } else {
                None
            },
            None => None,
        },
        _ => None,
    }
}

/// The items of an array literal, possibly inside parentheses.
pub fn as_array(n: &Node) -> (r: Option<&Vec<Node>>)
    ensures
        match r {
            Some(v) => array_items(n@) == Some(nodes_view(v@)),
            None => array_items(n@) is None,
        },
{
    match n.kind {
        Kind::Array => Some(&n.children),
        Kind::Parenthesized => match find_first_expr(&n.children) {
            Some(e) => if e.kind == Kind::Array {
                Some(&e.children)
            } else {
                None
            },
            None => None,
        },
        _ => None,
    }
}

/// The items of an array: its expressions and its spreads, in order.
pub open spec fn items(s: Seq<NodeView>) -> Seq<NodeView>
    decreases s.len(),
{
    if s.len() == 0 {
        Seq::empty()
    } else if s.last().expr || s.last().kind == Kind::Spread {
        items(s.drop_last()).push(s.last())
    } else {
        items(s.drop_last())
    }
}

/// The values of a list of references to nodes.
pub open spec fn ref_views(v: Seq<&Node>) -> Seq<NodeView> {
    v.map_values(|n: &Node| n@)
}

/// The items of an array: its expressions and its spreads, in order.
pub fn list_items(v: &Vec<Node>) -> (r: Vec<&Node>)
    ensures
        ref_views(r@) == items(nodes_view(v@)),
{
    let ghost s = nodes_view(v@);
    let mut r: Vec<&Node> = Vec::new();
    let mut i: usize = 0;
    assert(s.take(0) =~= Seq::<NodeView>::empty());
    assert(ref_views(r@) =~= items(s.take(0)));
    while i < v.len()
        invariant
            i <= v.len(),
            s == nodes_view(v@),
            ref_views(r@) == items(s.take(i as int)),
        decreases v.len() - i,
    {
        assert(s.take(i + 1).drop_last() =~= s.take(i as int));
        assert(s[i as int] == node_view(v@[i as int]));
        if v[i].expr || v[i].kind == Kind::Spread {
            r.push(&v[i]);
        }
        assert(ref_views(r@) =~= items(s.take(i + 1)));
        i += 1;
    }
    assert(s.take(s.len() as int) =~= s);
    r
}

/// The item with the given number, if it is an expression.
pub open spec fn item(s: Seq<NodeView>, i: int) -> Option<NodeView> {
    if 0 <= i < s.len() && s[i].kind != Kind::Spread {
        Some(s[i])
    } else {
        None
    }
}

fn item_at<'a>(v: &Vec<&'a Node>, i: usize) -> (r: Option<&'a Node>)
    ensures
        opt_node(r) == item(ref_views(v@), i as int),
{
    if i < v.len() && v[i].kind != Kind::Spread {
        Some(v[i])
    } else {
        None
    }
}

/// The length that an optional expression stands for.
pub open spec fn opt_length(n: Option<NodeView>) -> Option<Length> {
    match n {
        Some(n) => length_value(n),
        None => None,
    }
}

/// The length that an optional expression stands for.
pub fn read_length(n: Option<&Node>) -> (r: Option<Length>)
    ensures
        r == opt_length(opt_node(n)),
{
    match n {
        Some(n) => expr_length_cm(n),
        None => None,
    }
}

/// The pair of lengths that an array with two items stands for.
pub open spec fn pair_value(n: Option<NodeView>) -> Option<(Length, Length)> {
    match n {
        Some(n) => match array_items(n) {
            Some(a) => {
                let s = items(a);
                match (opt_length(item(s, 0)), opt_length(item(s, 1))) {
                    (Some(x), Some(y)) => if s.len() == 2 {
                        Some((x, y))
                    } else {
                        None
                    },
                    _ => None,
                }
            },
            None => None,
        },
        None => None,
    }
}

/// The pair of lengths that an array with two items stands for.
pub fn tuple_cm(n: Option<&Node>) -> (r: Option<(Length, Length)>)
    ensures
        r == pair_value(opt_node(n)),
{
    match n {
        Some(n) => match as_array(n) {
            Some(a) => {
                let s = list_items(a);
                if s.len() != 2 {
                    return None;
                }
                match (read_length(item_at(&s, 0)), read_length(item_at(&s, 1))) {
                    (Some(x), Some(y)) => Some((x, y)),
                    _ => None,
                }
            },
            None => None,
        },
        None => None,
    }
}

/// A keyframe of a track. What is not given keeps its value.
#[derive(Debug, Clone, Copy, PartialEq, Eq, Structural)]
pub struct TrackKey {
    /// Milliseconds from the start of the slide.
    pub t: u32,
    pub x: Option<Length>,
    pub y: Option<Length>,
    pub scale: Option<Number>,
    pub opacity: Option<Number>,
    pub rotation: Option<Number>,
}

/// The keyframe that a tuple `(t, (x, y, scale, opacity, rotation))` stands for.
pub open spec fn track_key(n: NodeView) -> Option<TrackKey> {
    match array_items(n) {
        Some(a) => {
            let s = items(a);
            let state = match item(s, 1) {
                Some(b) => array_items(b),
                None => None,
            };
            match (number_value(item(s, 0)), state) {
                (Some(t), Some(b)) => {
                    let q = items(b);
                    Some(
                        TrackKey {
                            t: crate::number::clamped_floor(t, u32::MAX as nat) as u32,
                            x: opt_length(item(q, 0)),
                            y: opt_length(item(q, 1)),
                            scale: number_value(item(q, 2)),
                            opacity: number_value(item(q, 3)),
                            rotation: number_value(item(q, 4)),
                        },
                    )
                },
                _ => None,
            }
        },
        None => None,
    }
}

/// The keyframe that a tuple `(t, (x, y, scale, opacity, rotation))` stands for.
pub fn track_key_from_expr(n: &Node) -> (r: Option<TrackKey>)
    ensures
        r == track_key(n@),
{
    let a = match as_array(n) {
        Some(a) => a,
        None => {
            return None;
        },
    };
    let s = list_items(a);
    let t = match expr_to_f64(item_at(&s, 0)) {
        Some(t) => t,
        None => {
            return None;
        },
    };
    let state = match item_at(&s, 1) {
        Some(b) => b,
        None => {
            return None;
        },
    };
    let b = match as_array(state) {
        Some(b) => b,
        None => {
            return None;
        },
    };
    let q = list_items(b);
    Some(
        TrackKey {
            t: crate::number::number_to_u32(t),
            x: read_length(item_at(&q, 0)),
            y: read_length(item_at(&q, 1)),
            scale: expr_to_f64(item_at(&q, 2)),
            opacity: expr_to_f64(item_at(&q, 3)),
            rotation: expr_to_f64(item_at(&q, 4)),
        },
    )
}

/// What a string literal holds between its quotes.
pub open spec fn unquoted(body: Seq<char>) -> Option<Seq<char>> {
    let b = crate::text::trimmed(body);
    if b.len() >= 2 && b[0] == '"' && b.last() == '"' {
        Some(b.subrange(1, b.len() - 1))
    } else {
        None
    }
}

/// If `body` is a string literal, its inner text.
pub fn strip_string_literal(body: &str) -> (r: Option<Vec<char>>)
    ensures
        match r {
            Some(v) => unquoted(body@) == Some(v@),
            None => unquoted(body@) is None,
        },
{
    let b = crate::text::trim_chars(&crate::text::chars_of(body));
    if b.len() >= 2 && b[0] == '"' && b[b.len() - 1] == '"' {
        Some(crate::text::sub_chars(&b, 1, b.len() - 1))
    } else {
        None
    }
}

} // verus!
