//! The syntax tree of a document.
//!
//! `typst_syntax` parses the source. What this library reads of its tree is held in [`Node`]s.

use typst_syntax::{ast, LinkedNode};
use vstd::prelude::*;
use crate::text::same;

verus! {

/// One node of the tree, in the order in which a walk meets it: before its children.
#[derive(Debug)]
pub struct FlatNode {
    /// Name of the syntax kind.
    pub kind: String,
    /// First byte in the source.
    pub start: usize,
    /// Byte behind the last one in the source.
    pub end: usize,
    /// Text of a leaf; empty for an inner node.
    pub text: String,
    /// Whether the node is an expression.
    pub expr: bool,
    /// Value of a string literal, with its escapes resolved.
    pub value: Option<String>,
    /// Number of children.
    pub arity: usize,
}

/// The value of a [`FlatNode`].
pub struct FlatView {
    pub kind: Seq<char>,
    pub start: nat,
    pub end: nat,
    pub text: Seq<char>,
    pub expr: bool,
    pub value: Option<Seq<char>>,
    pub arity: nat,
}

/// The value of an optional string.
pub open spec fn opt_text(s: Option<String>) -> Option<Seq<char>> {
    match s {
        Some(s) => Some(s@),
        None => None,
    }
}

impl View for FlatNode {
    type V = FlatView;

    open spec fn view(&self) -> FlatView {
        FlatView {
            kind: self.kind@,
            start: self.start as nat,
            end: self.end as nat,
            text: self.text@,
            expr: self.expr,
            value: opt_text(self.value),
            arity: self.arity as nat,
        }
    }
}

/// The values of a list of nodes.
pub open spec fn flat_views(v: Seq<FlatNode>) -> Seq<FlatView> {
    v.map_values(|n: FlatNode| n@)
}

/// The nodes of the tree that `typst_syntax::parse` makes of a source text, each before its
/// children.
pub uninterp spec fn syntax_nodes(source: Seq<char>) -> Seq<FlatView>;

/// Calls `typst_syntax::parse` and lists the nodes of its tree, each before its children: the
/// name of its kind, its byte range, its text if it is a leaf, whether it casts to `ast::Expr`,
/// the value of an `ast::Str`, and the number of its children. The list is a function of the
/// source text.
#[verifier::external_body]
pub(crate) fn parse_nodes(source: &str) -> (r: Vec<FlatNode>)
    ensures
        flat_views(r@) == syntax_nodes(source@),
{
    let root = typst_syntax::parse(source);
    let mut out = Vec::new();
    let mut stack = vec![LinkedNode::new(&root)];
    while let Some(node) = stack.pop() {
        let n = node.get();
        let kind = format!("{:?}", n.kind());
        let at = node.range();
        let text = n.leaf_text().to_string();
        let expr = n.is::<ast::Expr>();
        let value = n.cast::<ast::Str>().map(|s| s.get().to_string());
        let arity = n.children().len();
        out.push(FlatNode { kind, start: at.start, end: at.end, text, expr, value, arity });
        stack.extend(node.children().rev());
    }
    out
}

/// Syntax kinds that matter to this library.
#[derive(Debug, Clone, Copy, PartialEq, Eq, Structural)]
pub enum Kind {
    FuncCall,
    Args,
    Named,
    Spread,
    Ident,
    Str,
    Bool,
    Int,
    Float,
    Numeric,
    Array,
    Parenthesized,
    Unary,
    FieldAccess,
    LetBinding,
    Closure,
    Destructuring,
    Underscore,
    SetRule,
    ShowRule,
    ModuleImport,
    ModuleInclude,
    ImportItems,
    ImportItemPath,
    RenamedImportItem,
    CodeBlock,
    Colon,
    Star,
    As,
    Plus,
    Minus,
    Not,
    Other,
}

/// The kind with a given name.
pub open spec fn kind_named(s: Seq<char>) -> Kind {
    if s == "FuncCall"@ {
        Kind::FuncCall
    } else if s == "Args"@ {
        Kind::Args
    } else if s == "Named"@ {
        Kind::Named
    } else if s == "Spread"@ {
        Kind::Spread
    } else if s == "Ident"@ {
        Kind::Ident
    } else if s == "Str"@ {
        Kind::Str
    } else if s == "Bool"@ {
        Kind::Bool
    } else if s == "Int"@ {
        Kind::Int
    } else if s == "Float"@ {
        Kind::Float
    } else if s == "Numeric"@ {
        Kind::Numeric
    } else if s == "Array"@ {
        Kind::Array
    } else if s == "Parenthesized"@ {
        Kind::Parenthesized
    } else if s == "Unary"@ {
        Kind::Unary
    } else if s == "FieldAccess"@ {
        Kind::FieldAccess
    } else if s == "LetBinding"@ {
        Kind::LetBinding
    } else if s == "Closure"@ {
        Kind::Closure
    } else if s == "Destructuring"@ {
        Kind::Destructuring
    } else if s == "Underscore"@ {
        Kind::Underscore
    } else if s == "SetRule"@ {
        Kind::SetRule
    } else if s == "ShowRule"@ {
        Kind::ShowRule
    } else if s == "ModuleImport"@ {
        Kind::ModuleImport
    } else if s == "ModuleInclude"@ {
        Kind::ModuleInclude
    } else if s == "ImportItems"@ {
        Kind::ImportItems
    } else if s == "ImportItemPath"@ {
        Kind::ImportItemPath
    } else if s == "RenamedImportItem"@ {
        Kind::RenamedImportItem
    } else if s == "CodeBlock"@ {
        Kind::CodeBlock
    } else if s == "Colon"@ {
        Kind::Colon
    } else if s == "Star"@ {
        Kind::Star
    } else if s == "As"@ {
        Kind::As
    } else if s == "Plus"@ {
        Kind::Plus
    } else if s == "Minus"@ {
        Kind::Minus
    } else if s == "Not"@ {
        Kind::Not
    } else {
        Kind::Other
    }
}

fn kind_of(s: &str) -> (r: Kind)
    ensures
        r == kind_named(s@),
{
    if same(s, "FuncCall") {
        Kind::FuncCall
    } else if same(s, "Args") {
        Kind::Args
    } else if same(s, "Named") {
        Kind::Named
    } else if same(s, "Spread") {
        Kind::Spread
    } else if same(s, "Ident") {
        Kind::Ident
    } else if same(s, "Str") {
        Kind::Str
    } else if same(s, "Bool") {
        Kind::Bool
    } else if same(s, "Int") {
        Kind::Int
    } else if same(s, "Float") {
        Kind::Float
    } else if same(s, "Numeric") {
        Kind::Numeric
    } else if same(s, "Array") {
        Kind::Array
    } else if same(s, "Parenthesized") {
        Kind::Parenthesized
    } else if same(s, "Unary") {
        Kind::Unary
    } else if same(s, "FieldAccess") {
        Kind::FieldAccess
    } else if same(s, "LetBinding") {
        Kind::LetBinding
    } else if same(s, "Closure") {
        Kind::Closure
    } else if same(s, "Destructuring") {
        Kind::Destructuring
    } else if same(s, "Underscore") {
        Kind::Underscore
    } else if same(s, "SetRule") {
        Kind::SetRule
    } else if same(s, "ShowRule") {
        Kind::ShowRule
    } else if same(s, "ModuleImport") {
        Kind::ModuleImport
    } else if same(s, "ModuleInclude") {
        Kind::ModuleInclude
    } else if same(s, "ImportItems") {
        Kind::ImportItems
    } else if same(s, "ImportItemPath") {
        Kind::ImportItemPath
    } else if same(s, "RenamedImportItem") {
        Kind::RenamedImportItem
    } else if same(s, "CodeBlock") {
        Kind::CodeBlock
    } else if same(s, "Colon") {
        Kind::Colon
    } else if same(s, "Star") {
        Kind::Star
    } else if same(s, "As") {
        Kind::As
    } else if same(s, "Plus") {
        Kind::Plus
    } else if same(s, "Minus") {
        Kind::Minus
    } else if same(s, "Not") {
        Kind::Not
    } else {
        Kind::Other
    }
}

/// A node of the syntax tree.
#[derive(Debug)]
pub struct Node {
    pub kind: Kind,
    pub start: usize,
    pub end: usize,
    pub text: String,
    pub expr: bool,
    pub value: Option<String>,
    pub children: Vec<Node>,
}

/// The value of a [`Node`].
pub struct NodeView {
    pub kind: Kind,
    pub start: nat,
    pub end: nat,
    pub text: Seq<char>,
    pub expr: bool,
    pub value: Option<Seq<char>>,
    pub children: Seq<NodeView>,
}

/// The value of a node with everything below it.
pub open spec fn node_view(n: Node) -> NodeView
    decreases n,
{
    NodeView {
        kind: n.kind,
        start: n.start as nat,
        end: n.end as nat,
        text: n.text@,
        expr: n.expr,
        value: opt_text(n.value),
        children: nodes_view(n.children@),
    }
}

/// The values of a list of nodes.
pub open spec fn nodes_view(s: Seq<Node>) -> Seq<NodeView>
    decreases s,
{
    if s.len() == 0 {
        Seq::empty()
    } else {
        nodes_view(s.drop_last()).push(node_view(s.last()))
    }
}

impl View for Node {
    type V = NodeView;

    open spec fn view(&self) -> NodeView {
        node_view(*self)
    }
}

/// The values of a list of nodes stand at the same places as the nodes.
pub broadcast proof fn lemma_nodes_view(s: Seq<Node>)
    ensures
        (#[trigger] nodes_view(s)).len() == s.len(),
        forall|i: int| 0 <= i < s.len() ==> #[trigger] nodes_view(s)[i] == node_view(s[i]),
    decreases s.len(),
{
    if s.len() > 0 {
        lemma_nodes_view(s.drop_last());
        assert forall|i: int| 0 <= i < s.len() implies #[trigger] nodes_view(s)[i] == node_view(
            s[i],
        ) by {
            if i < s.len() - 1 {
                assert(nodes_view(s.drop_last())[i] == node_view(s.drop_last()[i]));
            }
        }
    }
}

/// The next `k` trees in a list of nodes from place `i` on, and the place behind them.
pub open spec fn forest(flat: Seq<FlatView>, i: nat, k: nat) -> (Seq<NodeView>, nat)
    decreases
            (if i < flat.len() {
                flat.len() - i
            } else {
                0
            }),
{
    if k == 0 || i >= flat.len() {
        (Seq::empty(), i)
    } else {
        let f = flat[i as int];
        let below = forest(flat, i + 1, f.arity);
        let node = NodeView {
            kind: kind_named(f.kind),
            start: f.start,
            end: f.end,
            text: f.text,
            expr: f.expr,
            value: f.value,
            children: below.0,
        };
        let next = if below.1 > i {
            below.1
        } else {
            i + 1
        };
        let rest = forest(flat, next, (k - 1) as nat);
        (seq![node] + rest.0, rest.1)
    }
}

fn build_forest(flat: &Vec<FlatNode>, i: usize, k: usize) -> (r: (Vec<Node>, usize))
    ensures
        (nodes_view(r.0@), r.1 as nat) == forest(flat_views(flat@), i as nat, k as nat),
    decreases
            (if i < flat@.len() {
                flat@.len() - i
            } else {
                0
            }),
{
    broadcast use lemma_nodes_view;

    let ghost fv = flat_views(flat@);
    let mut out: Vec<Node> = Vec::new();
    let mut cur: usize = i;
    let mut left: usize = k;
    assert(nodes_view(out@) + forest(fv, i as nat, k as nat).0 =~= forest(
        fv,
        i as nat,
        k as nat,
    ).0);
    while left > 0 && cur < flat.len()
        invariant
            i <= cur,
            fv == flat_views(flat@),
            nodes_view(out@) + forest(fv, cur as nat, left as nat).0 == forest(
                fv,
                i as nat,
                k as nat,
            ).0,
            forest(fv, cur as nat, left as nat).1 == forest(fv, i as nat, k as nat).1,
        decreases left,
    {
        let f = &flat[cur];
        let (children, behind) = build_forest(flat, cur + 1, f.arity);
        let value = match &f.value {
            Some(v) => Some(v.clone()),
            None => None,
        };
        let node = Node {
            kind: kind_of(f.kind.as_str()),
            start: f.start,
            end: f.end,
            text: f.text.clone(),
            expr: f.expr,
            value,
            children,
        };
        let next: usize = if behind > cur {
            behind
        } else {
            cur + 1
        };
        let ghost before = out@;
        out.push(node);
        proof {
            let rest = forest(fv, next as nat, (left - 1) as nat).0;
            assert(forest(fv, cur as nat, left as nat).0 == seq![node_view(node)] + rest);
            assert(out@.drop_last() =~= before);
            assert(nodes_view(out@) == nodes_view(before).push(node_view(node)));
            assert(nodes_view(out@) + rest =~= nodes_view(before) + (seq![node_view(node)]
                + rest));
        }
        cur = next;
        left -= 1;
    }
    assert(nodes_view(out@) + Seq::<NodeView>::empty() =~= nodes_view(out@));
    (out, cur)
}

/// The tree of a document: a node that holds everything that was parsed.
pub open spec fn document(source: Seq<char>) -> NodeView {
    NodeView {
        kind: Kind::Other,
        start: 0,
        end: vstd::utf8::encode_utf8(source).len(),
        text: Seq::empty(),
        expr: false,
        value: None,
        children: forest(syntax_nodes(source), 0, syntax_nodes(source).len()).0,
    }
}

/// Parses a document.
pub fn parse_document(source: &str) -> (r: Node)
    ensures
        r@ == document(source@),
{
    let flat = parse_nodes(source);
    let (children, _) = build_forest(&flat, 0, flat.len());
    Node {
        kind: Kind::Other,
        start: 0,
        end: source.as_bytes().len(),
        text: String::new(),
        expr: false,
        value: None,
        children,
    }
}

} // verus!
