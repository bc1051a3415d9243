//! Which calls are candy directives: names, imports, local bindings.

use vstd::prelude::*;
use vstd::string::*;
use crate::args::{span, span_of};
use crate::context::{CtxView, ParseCtx};
use crate::expr::{
    find_first_expr, find_first_kind, first_expr, first_kind, is_typst_ident, is_valid_typst_ident,
    last_ident, last_ident_text, lemma_expr_smaller, opt_node,
};
use crate::scene::Span;
use crate::syntax::{
    lemma_nodes_view, node_view, nodes_view, opt_text, Kind, Node, NodeView,
};
use crate::table::Table;
use crate::text::{
    chars_of, contains_text, ends_with, has_suffix, has_text, kebab, list_has, same, string_of,
    sub_chars, texts, to_kebab,
};

verus! {

broadcast use lemma_nodes_view;

/// The candy symbols: the directives, and the show rule.
pub open spec fn candy_names() -> Seq<Seq<char>> {
    seq![
        "mobject"@,
        "animate"@,
        "pause"@,
        "audio"@,
        "play"@,
        "save-state"@,
        "restore"@,
        "indicate"@,
        "flash"@,
        "wiggle"@,
        "appear"@,
        "disappear"@,
        "set-color"@,
        "blink"@,
        "spiral-in"@,
        "focus-on"@,
        "fade-transform"@,
        "move-along-path"@,
        "morph"@,
        "transform"@,
        "track"@,
        "camera"@,
        "group"@,
        "reveal"@,
        "typewriter"@,
        "subtitle"@,
        "scene"@,
        "scene-switch"@,
        "candy"@,
        "ecnew"@,
        "ecval"@,
        "ecpause"@,
        "ecresume"@,
        "ecdestroy"@,
        "kcnew"@,
        "kcval"@,
        "kcpush"@,
        "kcpause"@,
        "kcresume"@,
        "kcdestroy"@,
    ]
}

/// The values of string slices.
pub open spec fn str_views(v: Seq<&'static str>) -> Seq<Seq<char>> {
    v.map_values(|s: &'static str| s@)
}

fn candy_list() -> (r: Vec<&'static str>)
    ensures
        str_views(r@) == candy_names(),
{
    let r = vec![
        "mobject",
        "animate",
        "pause",
        "audio",
        "play",
        "save-state",
        "restore",
        "indicate",
        "flash",
        "wiggle",
        "appear",
        "disappear",
        "set-color",
        "blink",
        "spiral-in",
        "focus-on",
        "fade-transform",
        "move-along-path",
        "morph",
        "transform",
        "track",
        "camera",
        "group",
        "reveal",
        "typewriter",
        "subtitle",
        "scene",
        "scene-switch",
        "candy",
        "ecnew",
        "ecval",
        "ecpause",
        "ecresume",
        "ecdestroy",
        "kcnew",
        "kcval",
        "kcpush",
        "kcpause",
        "kcresume",
        "kcdestroy",
    ];
    assert(str_views(r@) =~= candy_names());
    r
}

/// Whether a name is a candy symbol.
pub open spec fn is_candy_name(s: Seq<char>) -> bool {
    candy_names().contains(s)
}

fn is_candy(s: &str) -> (r: bool)
    ensures
        r == is_candy_name(s@),
{
    let names = candy_list();
    let mut i: usize = 0;
    while i < names.len()
        invariant
            i <= names.len(),
            str_views(names@) == candy_names(),
            forall|j: int| 0 <= j < i ==> #[trigger] candy_names()[j] != s@,
        decreases names.len() - i,
    {
        assert(str_views(names@)[i as int] == names@[i as int]@);
        if same(names[i], s) {
            assert(candy_names()[i as int] == s@);
            return true;
        }
        i += 1;
    }
    false
}

/// The symbol that a local name is bound to; hyphens and underscores are the same.
pub open spec fn bound_symbol(map: Map<Seq<char>, Seq<char>>, name: Seq<char>) -> Option<Seq<char>> {
    if map.contains_key(kebab(name)) {
        Some(map[kebab(name)])
    } else if map.contains_key(name) {
        Some(map[name])
    } else {
        None
    }
}

fn find_symbol(map: &Table<String>, name: &str) -> (r: Option<String>)
    ensures
        opt_text(r) == bound_symbol(map@, name@),
{
    match map.get(to_kebab(name).as_str()) {
        Some(s) => Some(s.clone()),
        None => match map.get(name) {
            Some(s) => Some(s.clone()),
            None => None,
        },
    }
}

/// The candy symbol that a call is about. A field of anything but the candy module is none.
pub open spec fn symbol_of(c: CtxView, call: NodeView) -> Option<Seq<char>> {
    match first_expr(call.children) {
        None => None,
        Some(callee) => match callee.kind {
            Kind::Ident => match bound_symbol(c.symbol_map, callee.text) {
                Some(s) => if is_candy_name(s) {
                    Some(s)
                } else {
                    None
                },
                None => None,
            },
            Kind::FieldAccess => match first_expr(callee.children) {
                Some(t) => if t.kind == Kind::Ident && c.candy_aliases.contains(t.text) {
                    let field = last_ident(callee.children);
                    if is_candy_name(kebab(field)) {
                        Some(kebab(field))
                    } else if is_candy_name(field) {
                        Some(field)
                    } else {
                        None
                    }
                } else {
                    None
                },
                None => None,
            },
            _ => None,
        },
    }
}

/// The candy symbol that a call is about, if it is about one.
///
/// It works for names that an import binds, for renamed ones, and for fields of the candy
/// module. Methods of anything else are ordinary code.
pub fn call_symbol(call: &Node, ctx: &ParseCtx) -> (r: Option<String>)
    ensures
        opt_text(r) == symbol_of(ctx@, call@),
{
    let callee = match find_first_expr(&call.children) {
        Some(callee) => callee,
        None => {
            return None;
        },
    };
    match callee.kind {
        Kind::Ident => match find_symbol(&ctx.symbol_map, callee.text.as_str()) {
            Some(s) => if is_candy(s.as_str()) {
                Some(s)
            } else {
                None
            },
            None => None,
        },
        Kind::FieldAccess => match find_first_expr(&callee.children) {
            Some(t) => if t.kind == Kind::Ident && list_has(
                &ctx.candy_aliases,
                t.text.as_str(),
            ) {
                let field = last_ident_text(&callee.children);
                let norm = to_kebab(field.as_str());
                if is_candy(norm.as_str()) {
                    Some(norm)
                } else if is_candy(field.as_str()) {
                    Some(field)
                } else {
                    None
                }
            } else {
                None
            },
            None => None,
        },
        _ => None,
    }
}

/// Whether an expression is the candy show rule: the symbol or the module itself, or its `with`.
pub open spec fn is_show_callee(c: CtxView, n: NodeView) -> bool
    decreases n,
{
    proof {
        lemma_expr_smaller(n);
        if let Some(f) = first_expr(n.children) {
            lemma_expr_smaller(f);
        }
    }
    match n.kind {
        Kind::Ident => c.candy_aliases.contains(n.text) || bound_symbol(c.symbol_map, n.text)
            == Some("candy"@),
        Kind::FuncCall => match first_expr(n.children) {
            Some(f) => if f.kind == Kind::FieldAccess && last_ident(f.children) == "with"@ {
                match first_expr(f.children) {
                    Some(t) => is_show_callee(c, t),
                    None => false,
                }
            } else {
                false
            },
            None => false,
        },
        _ => false,
    }
}

/// Whether an expression is the candy show rule.
pub fn is_candy_show_callee(n: &Node, ctx: &ParseCtx) -> (r: bool)
    ensures
        r == is_show_callee(ctx@, n@),
    decreases n@,
{
    match n.kind {
        Kind::Ident => {
            if list_has(&ctx.candy_aliases, n.text.as_str()) {
                return true;
            }
            match find_symbol(&ctx.symbol_map, n.text.as_str()) {
                Some(s) => same(s.as_str(), "candy"),
                None => false,
            }
        },
        Kind::FuncCall => {
            proof {
                lemma_expr_smaller(n@);
            }
            match find_first_expr(&n.children) {
                Some(f) => {
                    proof {
                        lemma_expr_smaller(f@);
                    }
                    if f.kind == Kind::FieldAccess && same(
                        last_ident_text(&f.children).as_str(),
                        "with",
                    ) {
                        match find_first_expr(&f.children) {
                            Some(t) => is_candy_show_callee(t, ctx),
                            None => false,
                        }
                    } else {
                        false
                    }
                },
                None => false,
            }
        },
        _ => false,
    }
}

// ---------------------------------------------------------------- imports

/// The name in a package specification such as `@preview/candy:0.1.0`, as `typst_syntax` reads
/// it.
pub uninterp spec fn package_name(spec: Seq<char>) -> Option<Seq<char>>;

/// Calls `typst_syntax::package::PackageSpec`'s `FromStr`, and hands back the name of the
/// package. The result is a function of the text.
#[verifier::external_body]
pub(crate) fn read_package_name(spec: &str) -> (r: Option<String>)
    ensures
        opt_text(r) == package_name(spec@),
{
    spec.parse::<typst_syntax::package::PackageSpec>().ok().map(|p| p.name.to_string())
}

/// What an import names: its source, if that is a string.
pub open spec fn import_source(imp: NodeView) -> Option<Seq<char>> {
    match first_expr(imp.children) {
        Some(e) => e.value,
        None => None,
    }
}

/// Reads what an import names.
pub fn module_import_path(imp: &Node) -> (r: Option<String>)
    ensures
        opt_text(r) == import_source(imp@),
{
    match find_first_expr(&imp.children) {
        Some(e) => match &e.value {
            Some(v) => Some(v.clone()),
            None => None,
        },
        None => None,
    }
}

/// The place of the first colon; the length where there is none.
pub open spec fn colon_place(s: Seq<char>) -> int
    decreases s.len(),
{
    if s.len() == 0 || s[0] == ':' {
        0
    } else {
        1 + colon_place(s.subrange(1, s.len() as int))
    }
}

fn find_colon(s: &Vec<char>) -> (r: usize)
    ensures
        r as int == colon_place(s@),
        r <= s@.len(),
{
    let mut i: usize = 0;
    assert(s@.subrange(0, s@.len() as int) =~= s@);
    while i < s.len() && s[i] != ':'
        invariant
            i <= s.len(),
            colon_place(s@) == i + colon_place(s@.subrange(i as int, s@.len() as int)),
        decreases s.len() - i,
    {
        let ghost here = s@.subrange(i as int, s@.len() as int);
        assert(here.subrange(1, here.len() as int) =~= s@.subrange(i + 1, s@.len() as int));
        i += 1;
    }
    i
}

/// The state with the source of an import looked at: whether it is the candy package, and in
/// which version, or a file that is called candy.
pub open spec fn import_seen(c: CtxView, src: Seq<char>, at: Span) -> CtxView {
    if src.len() > 0 && src[0] == '@' {
        let k = colon_place(src);
        if k < src.len() && ends_with(src.take(k), "/candy"@) {
            CtxView {
                candy_imported: true,
                candy_import_version: Some(src.subrange(k + 1, src.len() as int)),
                candy_import_loc: Some(at),
                ..c
            }
        } else {
            c
        }
    } else if src == "candy"@ || ends_with(src, "/candy"@) {
        CtxView { file_style_candy_import: true, file_style_import_loc: Some(at), ..c }
    } else {
        c
    }
}

fn note_import(src: &str, at: Span, ctx: &mut ParseCtx)
    ensures
        final(ctx)@ == import_seen(old(ctx)@, src@, at),
{
    let s = chars_of(src);
    let tail = chars_of("/candy");
    if s.len() > 0 && s[0] == '@' {
        let k: usize = find_colon(&s);
        if k < s.len() {
            let path = sub_chars(&s, 0, k);
            assert(path@ =~= src@.take(k as int));
            if has_suffix(&path, &tail) {
                ctx.candy_imported = true;
                let version = sub_chars(&s, k + 1, s.len());
                ctx.candy_import_version = Some(string_of(version.as_slice()));
                ctx.candy_import_loc = Some(at);
            }
        }
    } else if same(src, "candy") || has_suffix(&s, &tail) {
        ctx.file_style_candy_import = true;
        ctx.file_style_import_loc = Some(at);
    }
}

/// The symbols with all candy names added that are not bound yet.
pub open spec fn with_all(
    map: Map<Seq<char>, Seq<char>>,
    names: Seq<Seq<char>>,
) -> Map<Seq<char>, Seq<char>>
    decreases names.len(),
{
    if names.len() == 0 {
        map
    } else {
        let m = with_all(map, names.drop_last());
        if m.contains_key(names.last()) {
            m
        } else {
            m.insert(names.last(), names.last())
        }
    }
}

fn bind_all(map: &mut Table<String>)
    ensures
        final(map)@ == with_all(old(map)@, candy_names()),
{
    let names = candy_list();
    let ghost s = candy_names();
    let mut i: usize = 0;
    assert(s.take(0) =~= Seq::<Seq<char>>::empty());
    while i < names.len()
        invariant
            i <= names.len(),
            s == candy_names(),
            str_views(names@) == s,
            map@ == with_all(old(map)@, s.take(i as int)),
        decreases names.len() - i,
    {
        assert(s.take(i + 1).drop_last() =~= s.take(i as int));
        assert(s[i as int] == names@[i as int]@);
        if !map.contains_key(names[i]) {
            map.insert(names[i].to_owned(), names[i].to_owned());
        }
        i += 1;
    }
    assert(s.take(s.len() as int) =~= s);
}

/// The original and the new name of an imported item.
pub open spec fn item_names(n: NodeView) -> Option<(Seq<char>, Seq<char>)> {
    match n.kind {
        Kind::ImportItemPath => Some((last_ident(n.children), last_ident(n.children))),
        Kind::RenamedImportItem => Some(
            (
                match first_kind(n.children, Kind::ImportItemPath) {
                    Some(p) => last_ident(p.children),
                    None => Seq::empty(),
                },
                last_ident(n.children),
            ),
        ),
        _ => None,
    }
}

fn read_item_names(n: &Node) -> (r: Option<(String, String)>)
    ensures
        match r {
            Some(p) => item_names(n@) == Some((p.0@, p.1@)),
            None => item_names(n@) is None,
        },
{
    match n.kind {
        Kind::ImportItemPath => Some((last_ident_text(&n.children), last_ident_text(&n.children))),
        Kind::RenamedImportItem => {
            let original = match find_first_kind(&n.children, Kind::ImportItemPath) {
                Some(p) => last_ident_text(&p.children),
                None => String::new(),
            };
            Some((original, last_ident_text(&n.children)))
        },
        _ => None,
    }
}

/// The symbols with the items of an import bound, each under its new name in both spellings.
pub open spec fn with_items(map: Map<Seq<char>, Seq<char>>, s: Seq<NodeView>) -> Map<
    Seq<char>,
    Seq<char>,
>
    decreases s.len(),
{
    if s.len() == 0 {
        map
    } else {
        let m = with_items(map, s.drop_last());
        match item_names(s.last()) {
            Some(p) => m.insert(p.1, kebab(p.0)).insert(kebab(p.1), kebab(p.0)),
            None => m,
        }
    }
}

fn bind_items(map: &mut Table<String>, v: &Vec<Node>)
    ensures
        final(map)@ == with_items(old(map)@, nodes_view(v@)),
{
    let ghost s = nodes_view(v@);
    let mut i: usize = 0;
    assert(s.take(0) =~= Seq::<NodeView>::empty());
    while i < v.len()
        invariant
            i <= v.len(),
            s == nodes_view(v@),
            map@ == with_items(old(map)@, s.take(i as int)),
        decreases v.len() - i,
    {
        assert(s.take(i + 1).drop_last() =~= s.take(i as int));
        assert(s[i as int] == node_view(v@[i as int]));
        if let Some(p) = read_item_names(&v[i]) {
            let symbol = to_kebab(p.0.as_str());
            let other = to_kebab(p.1.as_str());
            map.insert(p.1, symbol.clone());
            map.insert(other, symbol);
        }
        i += 1;
    }
    assert(s.take(s.len() as int) =~= s);
}

/// What an import binds.
#[derive(Debug, Clone, Copy, PartialEq, Eq, Structural)]
pub enum ImportForm {
    /// Everything.
    Wildcard,
    /// A list of items.
    Items,
    /// The module itself.
    Bare,
}

/// What an import binds.
pub open spec fn import_form(s: Seq<NodeView>) -> ImportForm
    decreases s.len(),
{
    if s.len() == 0 {
        ImportForm::Bare
    } else if s[0].kind == Kind::Star {
        ImportForm::Wildcard
    } else if s[0].kind == Kind::ImportItems {
        ImportForm::Items
    } else {
        import_form(s.subrange(1, s.len() as int))
    }
}

fn find_form(v: &Vec<Node>) -> (r: ImportForm)
    ensures
        r == import_form(nodes_view(v@)),
{
    let ghost s = nodes_view(v@);
    let mut i: usize = 0;
    assert(s.subrange(0, s.len() as int) =~= s);
    while i < v.len()
        invariant
            i <= v.len(),
            s == nodes_view(v@),
            import_form(s) == import_form(s.subrange(i as int, s.len() as int)),
        decreases v.len() - i,
    {
        let ghost here = s.subrange(i as int, s.len() as int);
        assert(here.subrange(1, here.len() as int) =~= s.subrange(i + 1, s.len() as int));
        assert(here[0] == node_view(v@[i as int]));
        match v[i].kind {
            Kind::Star => {
                return ImportForm::Wildcard;
            },
            Kind::ImportItems => {
                return ImportForm::Items;
            },
            _ => {},
        }
        i += 1;
    }
    ImportForm::Bare
}

/// The name behind `as`, where there is one.
pub open spec fn renamed_to(s: Seq<NodeView>) -> Option<Seq<char>>
    decreases s.len(),
{
    if s.len() == 0 {
        None
    } else if s[0].kind == Kind::As {
        match first_kind(s, Kind::Ident) {
            Some(i) => Some(i.text),
            None => None,
        }
    } else {
        renamed_to(s.subrange(1, s.len() as int))
    }
}

fn find_first_ident_from(v: &Vec<Node>, from: usize) -> (r: Option<String>)
    requires
        from <= v@.len(),
    ensures
        opt_text(r) == (match first_kind(
            nodes_view(v@).subrange(from as int, v@.len() as int),
            Kind::Ident,
        ) {
            Some(i) => Some(i.text),
            None => None,
        }),
{
    let ghost s = nodes_view(v@);
    let ghost all = s.subrange(from as int, s.len() as int);
    let mut i: usize = from;
    while i < v.len()
        invariant
            from <= i <= v.len(),
            s == nodes_view(v@),
            all == s.subrange(from as int, s.len() as int),
            first_kind(all, Kind::Ident) == first_kind(
                s.subrange(i as int, s.len() as int),
                Kind::Ident,
            ),
        decreases v.len() - i,
    {
        let ghost here = s.subrange(i as int, s.len() as int);
        assert(here.subrange(1, here.len() as int) =~= s.subrange(i + 1, s.len() as int));
        assert(here[0] == node_view(v@[i as int]));
        if v[i].kind == Kind::Ident {
            return Some(v[i].text.clone());
        }
        i += 1;
    }
    None
}

fn find_new_name(v: &Vec<Node>) -> (r: Option<String>)
    ensures
        opt_text(r) == renamed_to(nodes_view(v@)),
{
    let ghost s = nodes_view(v@);
    let mut i: usize = 0;
    assert(s.subrange(0, s.len() as int) =~= s);
    while i < v.len()
        invariant
            i <= v.len(),
            s == nodes_view(v@),
            renamed_to(s) == renamed_to(s.subrange(i as int, s.len() as int)),
        decreases v.len() - i,
    {
        let ghost here = s.subrange(i as int, s.len() as int);
        assert(here.subrange(1, here.len() as int) =~= s.subrange(i + 1, s.len() as int));
        assert(here[0] == node_view(v@[i as int]));
        if v[i].kind == Kind::As {
            return find_first_ident_from(v, i);
        }
        i += 1;
    }
    None
}

/// The name that a bare import of the candy package binds the module to.
pub open spec fn module_alias(imp: NodeView, src: Seq<char>) -> Option<Seq<char>> {
    match renamed_to(imp.children) {
        Some(n) => Some(n),
        None => match package_name(src) {
            Some(n) => if is_typst_ident(n) {
                Some(n)
            } else {
                None
            },
            None => None,
        },
    }
}

fn find_alias(imp: &Node, src: &str) -> (r: Option<String>)
    ensures
        opt_text(r) == module_alias(imp@, src@),
{
    match find_new_name(&imp.children) {
        Some(n) => Some(n),
        None => match read_package_name(src) {
            Some(n) => if is_valid_typst_ident(n.as_str()) {
                Some(n)
            } else {
                None
            },
            None => None,
        },
    }
}

/// The items that an import lists.
pub open spec fn listed(imp: NodeView) -> Seq<NodeView> {
    match first_kind(imp.children, Kind::ImportItems) {
        Some(l) => l.children,
        None => Seq::empty(),
    }
}

/// The state with what an import binds. A bare import of the candy package binds the module.
pub open spec fn import_bound(c: CtxView, imp: NodeView) -> CtxView {
    match import_form(imp.children) {
        ImportForm::Wildcard => CtxView {
            symbol_map: with_all(c.symbol_map, candy_names()),
            ..c
        },
        ImportForm::Items => CtxView {
            symbol_map: with_items(c.symbol_map, listed(imp)),
            ..c
        },
        ImportForm::Bare => match import_source(imp) {
            Some(src) => if src.len() > 0 && src[0] == '@' && contains_text(src, "/candy:"@) {
                match module_alias(imp, src) {
                    Some(a) => CtxView { candy_aliases: c.candy_aliases.push(a), ..c },
                    None => c,
                }
            } else {
                c
            },
            None => c,
        },
    }
}

/// The state with an import processed.
pub open spec fn imported(c: CtxView, imp: NodeView) -> CtxView {
    import_bound(
        match import_source(imp) {
            Some(src) => import_seen(c, src, span(imp)),
            None => c,
        },
        imp,
    )
}

/// Records what an import says of the candy package, and what it binds.
pub fn process_import(imp: &Node, ctx: &mut ParseCtx)
    ensures
        final(ctx)@ == imported(old(ctx)@, imp@),
{
    let source = module_import_path(imp);
    if let Some(src) = &source {
        note_import(src.as_str(), span_of(imp), ctx);
    }
    match find_form(&imp.children) {
        ImportForm::Wildcard => {
            bind_all(&mut ctx.symbol_map);
        },
        ImportForm::Items => {
            if let Some(l) = find_first_kind(&imp.children, Kind::ImportItems) {
                bind_items(&mut ctx.symbol_map, &l.children);
            } else {
                assert(with_items(ctx@.symbol_map, Seq::empty()) == ctx@.symbol_map);
            }
        },
        ImportForm::Bare => {
            if let Some(src) = &source {
                let s = chars_of(src.as_str());
                if s.len() > 0 && s[0] == '@' && has_text(&s, &chars_of("/candy:")) {
                    if let Some(a) = find_alias(imp, src.as_str()) {
                        let ghost before = ctx.candy_aliases@;
                        let ghost av = a@;
                        ctx.candy_aliases.push(a);
                        assert(texts(ctx.candy_aliases@) =~= texts(before).push(av));
                    }
                }
            }
        },
    }
}

// ---------------------------------------------------------------- local bindings

/// Whether a node can stand where a pattern is expected.
pub open spec fn is_pattern(n: NodeView) -> bool {
    n.expr || n.kind == Kind::Underscore || n.kind == Kind::Destructuring
}

fn can_be_pattern(n: &Node) -> (r: bool)
    ensures
        r == is_pattern(n@),
{
    n.expr || n.kind == Kind::Underscore || n.kind == Kind::Destructuring
}

/// The first pattern in a list of nodes.
pub open spec fn first_pattern(s: Seq<NodeView>) -> Option<NodeView>
    decreases s.len(),
{
    if s.len() == 0 {
        None
    } else if is_pattern(s[0]) {
        Some(s[0])
    } else {
        first_pattern(s.subrange(1, s.len() as int))
    }
}

/// The last pattern in a list of nodes.
pub open spec fn last_pattern(s: Seq<NodeView>) -> Option<NodeView>
    decreases s.len(),
{
    if s.len() == 0 {
        None
    } else if is_pattern(s.last()) {
        Some(s.last())
    } else {
        last_pattern(s.drop_last())
    }
}

fn find_first_pattern(v: &Vec<Node>) -> (r: Option<&Node>)
    ensures
        opt_node(r) == first_pattern(nodes_view(v@)),
{
    let ghost s = nodes_view(v@);
    let mut i: usize = 0;
    assert(s.subrange(0, s.len() as int) =~= s);
    while i < v.len()
        invariant
            i <= v.len(),
            s == nodes_view(v@),
            first_pattern(s) == first_pattern(s.subrange(i as int, s.len() as int)),
        decreases v.len() - i,
    {
        let ghost here = s.subrange(i as int, s.len() as int);
        assert(here.subrange(1, here.len() as int) =~= s.subrange(i + 1, s.len() as int));
        assert(here[0] == node_view(v@[i as int]));
        if can_be_pattern(&v[i]) {
            return Some(&v[i]);
        }
        i += 1;
    }
    None
}

fn find_last_pattern(v: &Vec<Node>) -> (r: Option<&Node>)
    ensures
        opt_node(r) == last_pattern(nodes_view(v@)),
{
    let ghost s = nodes_view(v@);
    let mut i: usize = v.len();
    assert(s.take(s.len() as int) =~= s);
    while i > 0
        invariant
            i <= v.len(),
            s == nodes_view(v@),
            last_pattern(s) == last_pattern(s.take(i as int)),
        decreases i,
    {
        assert(s.take(i as int).drop_last() =~= s.take(i - 1));
        assert(s[i - 1] == node_view(v@[i - 1]));
        if can_be_pattern(&v[i - 1]) {
            return Some(&v[i - 1]);
        }
        i -= 1;
    }
    None
}

proof fn lemma_first_pattern_in(s: Seq<NodeView>)
    ensures
        first_pattern(s) matches Some(e) ==> s.contains(e),
    decreases s.len(),
{
    if s.len() > 0 {
        let t = s.subrange(1, s.len() as int);
        lemma_first_pattern_in(t);
        if !is_pattern(s[0]) && first_pattern(s) is Some {
            let e = first_pattern(s)->0;
            let i = choose|i: int| 0 <= i < t.len() && t[i] == e;
            assert(s[i + 1] == e);
        }
    }
}

proof fn lemma_last_pattern_in(s: Seq<NodeView>)
    ensures
        last_pattern(s) matches Some(e) ==> s.contains(e),
    decreases s.len(),
{
    if s.len() > 0 {
        lemma_last_pattern_in(s.drop_last());
        if is_pattern(s.last()) {
            assert(s[s.len() - 1] == s.last());
        } else if last_pattern(s) is Some {
            let e = last_pattern(s)->0;
            let i = choose|i: int| 0 <= i < s.drop_last().len() && s.drop_last()[i] == e;
            assert(s[i] == e);
        }
    }
}

/// A pattern below a node is smaller than the node.
pub proof fn lemma_pattern_smaller(n: NodeView)
    ensures
        first_pattern(n.children) matches Some(e) ==> decreases_to!(n => e),
        last_pattern(n.children) matches Some(e) ==> decreases_to!(n => e),
{
    lemma_first_pattern_in(n.children);
    lemma_last_pattern_in(n.children);
    if let Some(e) = first_pattern(n.children) {
        let i = choose|i: int| 0 <= i < n.children.len() && n.children[i] == e;
        assert(decreases_to!(n => n.children[i]));
    }
    if let Some(e) = last_pattern(n.children) {
        let i = choose|i: int| 0 <= i < n.children.len() && n.children[i] == e;
        assert(decreases_to!(n => n.children[i]));
    }
}

/// The names that a pattern binds.
pub open spec fn pattern_names(n: NodeView) -> Seq<Seq<char>>
    decreases n,
{
    proof {
        lemma_pattern_smaller(n);
    }
    match n.kind {
        Kind::Ident => seq![n.text],
        Kind::Parenthesized => match first_pattern(n.children) {
            Some(p) => pattern_names(p),
            None => Seq::empty(),
        },
        Kind::Destructuring => item_patterns(n.children),
        _ => Seq::empty(),
    }
}

/// The names that the items of a destructuring pattern bind.
pub open spec fn item_patterns(s: Seq<NodeView>) -> Seq<Seq<char>>
    decreases s,
{
    if s.len() == 0 {
        Seq::empty()
    } else {
        let n = s.last();
        proof {
            lemma_pattern_smaller(n);
        }
        item_patterns(s.drop_last()) + (match n.kind {
            Kind::Named => match last_pattern(n.children) {
                Some(p) => pattern_names(p),
                None => Seq::empty(),
            },
            Kind::Spread => match first_kind(n.children, Kind::Ident) {
                Some(i) => seq![i.text],
                None => Seq::empty(),
            },
            _ => if is_pattern(n) {
                pattern_names(n)
            } else {
                Seq::empty()
            },
        })
    }
}

/// The names that a `let` binds.
pub open spec fn let_names(n: NodeView) -> Seq<Seq<char>> {
    match first_pattern(n.children) {
        Some(p) => if p.kind == Kind::Closure {
            seq![
                if p.children.len() > 0 && p.children[0].kind == Kind::Ident {
                    p.children[0].text
                } else {
                    Seq::empty()
                },
            ]
        } else {
            pattern_names(p)
        },
        None => Seq::empty(),
    }
}

fn push_names(out: &mut Vec<String>, more: Vec<String>)
    ensures
        texts(final(out)@) == texts(old(out)@) + texts(more@),
{
    let mut i: usize = 0;
    assert(texts(out@) =~= texts(old(out)@) + texts(more@).take(0));
    while i < more.len()
        invariant
            i <= more.len(),
            texts(out@) == texts(old(out)@) + texts(more@).take(i as int),
        decreases more.len() - i,
    {
        let ghost before = out@;
        out.push(more[i].clone());
        assert(texts(out@) =~= texts(before).push(texts(more@)[i as int]));
        assert(texts(out@) =~= texts(old(out)@) + texts(more@).take(i + 1));
        i += 1;
    }
    assert(texts(more@).take(more@.len() as int) =~= texts(more@));
}

fn single(s: String) -> (r: Vec<String>)
    ensures
        texts(r@) == seq![s@],
{
    let ghost sv = s@;
    let mut r: Vec<String> = Vec::new();
    r.push(s);
    assert(texts(r@) =~= seq![sv]);
    r
}

fn no_names() -> (r: Vec<String>)
    ensures
        texts(r@) == Seq::<Seq<char>>::empty(),
{
    let r: Vec<String> = Vec::new();
    assert(texts(r@) =~= Seq::<Seq<char>>::empty());
    r
}

fn read_pattern_names(n: &Node) -> (r: Vec<String>)
    ensures
        texts(r@) == pattern_names(n@),
    decreases n@,
{
    proof {
        lemma_pattern_smaller(n@);
    }
    match n.kind {
        Kind::Ident => single(n.text.clone()),
        Kind::Parenthesized => match find_first_pattern(&n.children) {
            Some(p) => read_pattern_names(p),
            None => no_names(),
        },
        Kind::Destructuring => {
            let ghost s = n@.children;
            let mut out = no_names();
            let mut i: usize = 0;
            assert(s.take(0) =~= Seq::<NodeView>::empty());
            while i < n.children.len()
                invariant
                    i <= n.children.len(),
                    s == n@.children,
                    s == nodes_view(n.children@),
                    texts(out@) == item_patterns(s.take(i as int)),
                decreases n.children.len() - i,
            {
                let item = &n.children[i];
                proof {
                    assert(s[i as int] == node_view(n.children@[i as int]));
                    assert(decreases_to!(n@ => n@.children[i as int]));
                    assert(s.take(i + 1).drop_last() =~= s.take(i as int));
                    lemma_pattern_smaller(item@);
                }
                let more = match item.kind {
                    Kind::Named => match find_last_pattern(&item.children) {
                        Some(p) => read_pattern_names(p),
                        None => no_names(),
                    },
                    Kind::Spread => match find_first_kind(&item.children, Kind::Ident) {
                        Some(x) => single(x.text.clone()),
                        None => no_names(),
                    },
                    _ => if can_be_pattern(item) {
                        read_pattern_names(item)
                    } else {
                        no_names()
                    },
                };
                push_names(&mut out, more);
                i += 1;
            }
            assert(s.take(s.len() as int) =~= s);
            out
        },
        _ => no_names(),
    }
}

/// The names that a `let` binds.
pub fn bindings(n: &Node) -> (r: Vec<String>)
    ensures
        texts(r@) == let_names(n@),
{
    match find_first_pattern(&n.children) {
        Some(p) => if p.kind == Kind::Closure {
            if p.children.len() > 0 {
                assert(p@.children == nodes_view(p.children@));
                assert(p@.children[0] == node_view(p.children@[0]));
            }
            if p.children.len() > 0 && p.children[0].kind == Kind::Ident {
                single(p.children[0].text.clone())
            } else {
                single(String::new())
            }
        } else {
            read_pattern_names(p)
        },
        None => no_names(),
    }
}

/// The symbols without those that are bound to something else now. Where the name itself is
/// bound to a symbol, only that goes; otherwise the name with hyphens.
pub open spec fn shadowed(
    map: Map<Seq<char>, Seq<char>>,
    names: Seq<Seq<char>>,
) -> Map<Seq<char>, Seq<char>>
    decreases names.len(),
{
    if names.len() == 0 {
        map
    } else {
        let m = shadowed(map, names.drop_last());
        let n = names.last();
        if m.contains_key(n) {
            m.remove(n)
        } else {
            m.remove(n).remove(kebab(n))
        }
    }
}

/// Takes the names that are bound to something else out of the symbols.
pub fn shadow(map: &mut Table<String>, names: &Vec<String>)
    ensures
        final(map)@ == shadowed(old(map)@, texts(names@)),
{
    let ghost s = texts(names@);
    let mut i: usize = 0;
    assert(s.take(0) =~= Seq::<Seq<char>>::empty());
    while i < names.len()
        invariant
            i <= names.len(),
            s == texts(names@),
            map@ == shadowed(old(map)@, s.take(i as int)),
        decreases names.len() - i,
    {
        assert(s.take(i + 1).drop_last() =~= s.take(i as int));
        assert(s[i as int] == names@[i as int]@);
        if !map.remove(names[i].as_str()) {
            let _ = map.remove(to_kebab(names[i].as_str()).as_str());
        }
        i += 1;
    }
    assert(s.take(s.len() as int) =~= s);
}

/// Whether any of the names is a candy symbol in either spelling.
pub open spec fn any_candy(names: Seq<Seq<char>>) -> bool {
    exists|i: int|
        0 <= i < names.len() && (is_candy_name(#[trigger] names[i]) || is_candy_name(
            kebab(names[i]),
        ))
}

/// Whether any of the names is a candy symbol in either spelling.
pub fn has_candy_name(names: &Vec<String>) -> (r: bool)
    ensures
        r == any_candy(texts(names@)),
{
    let ghost s = texts(names@);
    let mut i: usize = 0;
    while i < names.len()
        invariant
            i <= names.len(),
            s == texts(names@),
            forall|j: int|
                0 <= j < i ==> !is_candy_name(#[trigger] s[j]) && !is_candy_name(kebab(s[j])),
        decreases names.len() - i,
    {
        assert(s[i as int] == names@[i as int]@);
        if is_candy(names[i].as_str()) || is_candy(to_kebab(names[i].as_str()).as_str()) {
            return true;
        }
        i += 1;
    }
    false
}

} // verus!
