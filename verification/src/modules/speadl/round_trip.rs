//! What a SpeADL parse reads: the tokens consumed while parsing are exactly the
//! tokens that print the tree it yields.
use vstd::prelude::*;

use super::grammar::{
    advance,
    bind_target,
    binds,
    component,
    component_body,
    expect,
    generic,
    ident,
    import_nodes,
    imports,
    kw,
    lemma_advance,
    lemma_bind_target,
    lemma_expect,
    lemma_ident,
    lemma_part_declaration,
    lemma_path,
    lemma_provided,
    measure,
    namespace,
    part_declaration,
    parts,
    path,
    path_tail,
    provided,
    provided_list,
    provides,
    requirements,
    specialization,
    sym,
    Context,
    Fault,
    State,
};
use super::token::{SpeadlTokenExtension, Tok};
use crate::ast::{AstView, ImplementationView};
use crate::modules::common::token::{CommonTokenView, TokenView};

verus! {

/// The identifier token `n`.
pub open spec fn id(n: Seq<char>) -> Tok {
    TokenView::Common(CommonTokenView::Identifier(n))
}

/// From state `s`, the lexer reads the tokens `toks` one after the other (the first
/// being the current token) and ends in state `s2`.
pub open spec fn reads(chars: Seq<char>, s: State, toks: Seq<Tok>, s2: State) -> bool
    decreases toks.len(),
{
    if toks.len() == 0 {
        s2 == s
    } else {
        &&& toks[0] == s.0
        &&& advance(chars, s) matches Ok(s1) && reads(chars, s1, toks.drop_first(), s2)
    }
}

pub proof fn lemma_reads_cat(
    chars: Seq<char>,
    s: State,
    a: Seq<Tok>,
    s1: State,
    b: Seq<Tok>,
    s2: State,
)
    requires
        reads(chars, s, a, s1),
        reads(chars, s1, b, s2),
    ensures
        reads(chars, s, a + b, s2),
    decreases a.len(),
{
    if a.len() == 0 {
        assert(a + b =~= b);
    } else {
        let t = advance(chars, s)->Ok_0;
        lemma_reads_cat(chars, t, a.drop_first(), s1, b, s2);
        assert((a + b).drop_first() =~= a.drop_first() + b);
    }
}

proof fn lemma_reads_one(chars: Seq<char>, s: State)
    requires
        advance(chars, s) is Ok,
    ensures
        reads(chars, s, seq![s.0], advance(chars, s)->Ok_0),
{
    let s1 = advance(chars, s)->Ok_0;
    assert(seq![s.0].drop_first() =~= Seq::<Tok>::empty());
    assert(reads(chars, s1, Seq::<Tok>::empty(), s1));
}

proof fn lemma_expect_reads(chars: Seq<char>, s: State, t: Tok, c: Context)
    ensures
        expect(chars, s, t, c) matches Ok(s1) ==> reads(chars, s, seq![t], s1),
{
    if expect(chars, s, t, c) is Ok {
        lemma_reads_one(chars, s);
    }
}

proof fn lemma_ident_reads(chars: Seq<char>, s: State)
    ensures
        ident(chars, s) matches Ok((n, s1)) ==> reads(chars, s, seq![id(n)], s1),
{
    if ident(chars, s) is Ok {
        lemma_reads_one(chars, s);
    }
}

/// The segments `. name` after the first name of a dotted path.
pub open spec fn dotted_tokens(p: Seq<Seq<char>>) -> Seq<Tok>
    decreases p.len(),
{
    if p.len() == 0 {
        Seq::empty()
    } else {
        seq![sym(CommonTokenView::Dot), id(p[0])] + dotted_tokens(p.drop_first())
    }
}

/// The tokens of a dotted path `a.b.c`.
pub open spec fn path_tokens(p: Seq<Seq<char>>) -> Seq<Tok> {
    if p.len() == 0 {
        Seq::empty()
    } else {
        seq![id(p[0])] + dotted_tokens(p.drop_first())
    }
}

/// The tokens of an optional generic parameter `[T]`.
pub open spec fn generic_tokens(g: Option<Seq<char>>) -> Seq<Tok> {
    match g {
        Some(n) => seq![sym(CommonTokenView::Lbracket), id(n), sym(CommonTokenView::Rbracket)],
        None => Seq::empty(),
    }
}

/// The tokens of a binding `bind name to target`.
pub open spec fn bind_tokens(b: AstView) -> Seq<Tok> {
    match b {
        AstView::Bind { name, target } => seq![
            kw(SpeadlTokenExtension::Bind),
            id(name),
            kw(SpeadlTokenExtension::To),
        ] + path_tokens(target),
        _ => Seq::empty(),
    }
}

/// The tokens of bindings, one after the other.
pub open spec fn binds_tokens(bs: Seq<AstView>) -> Seq<Tok>
    decreases bs.len(),
{
    if bs.len() == 0 {
        Seq::empty()
    } else {
        bind_tokens(bs[0]) + binds_tokens(bs.drop_first())
    }
}

/// The tokens of a part declaration after the keyword `part`:
/// `name: Type[G] { binds }`.
pub open spec fn part_rest_tokens(a: AstView) -> Seq<Tok> {
    match a {
        AstView::Part { name, typ, generic, body } => seq![
            id(name),
            sym(CommonTokenView::Colon),
            id(typ),
        ] + generic_tokens(generic) + seq![sym(CommonTokenView::Lbrace)] + (match *body {
            AstView::SEQ(bs) => binds_tokens(bs),
            _ => Seq::empty(),
        }) + seq![sym(CommonTokenView::Rbrace)],
        _ => Seq::empty(),
    }
}

/// The tokens of how a provided service is implemented: nothing when the component
/// implements it, `= part.service` when a part does.
pub open spec fn implementation_tokens(i: ImplementationView) -> Seq<Tok> {
    match i {
        ImplementationView::Local => Seq::empty(),
        ImplementationView::Delegated { part_name, service_name } => seq![
            sym(CommonTokenView::Equals),
            id(part_name),
            sym(CommonTokenView::Dot),
            id(service_name),
        ],
    }
}

/// The tokens of a provided service after the keyword `provides`.
pub open spec fn provided_rest_tokens(a: AstView) -> Seq<Tok> {
    match a {
        AstView::Provides { name, typ, implementation } => seq![
            id(name),
            sym(CommonTokenView::Colon),
            id(typ),
        ] + implementation_tokens(implementation),
        _ => Seq::empty(),
    }
}

/// The tokens of one declaration of a component body.
pub open spec fn item_tokens(a: AstView) -> Seq<Tok> {
    match a {
        AstView::Requires { name, typ } => seq![
            kw(SpeadlTokenExtension::Requires),
            id(name),
            sym(CommonTokenView::Colon),
            id(typ),
        ],
        AstView::Provides { .. } => seq![kw(SpeadlTokenExtension::Provides)]
            + provided_rest_tokens(a),
        AstView::Part { .. } => seq![kw(SpeadlTokenExtension::Part)] + part_rest_tokens(a),
        _ => Seq::empty(),
    }
}

/// The tokens of the declarations of a component body, one after the other.
pub open spec fn items_tokens(v: Seq<AstView>) -> Seq<Tok>
    decreases v.len(),
{
    if v.len() == 0 {
        Seq::empty()
    } else {
        item_tokens(v[0]) + items_tokens(v.drop_first())
    }
}

/// The tokens of an optional `specializes Parent`.
pub open spec fn specialization_tokens(sp: Option<(Seq<char>, Option<Box<AstView>>)>) -> Seq<Tok> {
    match sp {
        Some((parent, _)) => seq![kw(SpeadlTokenExtension::Specializes), id(parent)],
        None => Seq::empty(),
    }
}

/// The tokens of a component `component Name specializes Parent[G] { body }`.
pub open spec fn component_tokens(c: AstView) -> Seq<Tok> {
    match c {
        AstView::Component { name, specializes, generic, body } => seq![
            kw(SpeadlTokenExtension::Component),
            id(name),
        ] + specialization_tokens(specializes) + generic_tokens(generic) + seq![
            sym(CommonTokenView::Lbrace),
        ] + (match *body {
            AstView::SEQ(items) => items_tokens(items),
            _ => Seq::empty(),
        }) + seq![sym(CommonTokenView::Rbrace)],
        _ => Seq::empty(),
    }
}

/// The tokens of a top-level node: `import a.b.c`, or
/// `namespace a.b { component }`.
pub open spec fn node_tokens(a: AstView) -> Seq<Tok> {
    match a {
        AstView::Import { path, .. } => seq![kw(SpeadlTokenExtension::Import)] + path_tokens(path),
        AstView::Namespace { path, body } => seq![kw(SpeadlTokenExtension::Namespace)]
            + path_tokens(path) + seq![sym(CommonTokenView::Lbrace)] + component_tokens(*body)
            + seq![sym(CommonTokenView::Rbrace)],
        _ => Seq::empty(),
    }
}

/// The tokens of top-level nodes, one after the other.
pub open spec fn nodes_tokens(v: Seq<AstView>) -> Seq<Tok>
    decreases v.len(),
{
    if v.len() == 0 {
        Seq::empty()
    } else {
        node_tokens(v[0]) + nodes_tokens(v.drop_first())
    }
}

/// The tokens of the tree of a whole file.
pub open spec fn file_tokens(tree: AstView) -> Seq<Tok> {
    match tree {
        AstView::SEQ(nodes) => nodes_tokens(nodes),
        _ => Seq::empty(),
    }
}

/// Every item of `bs` is a binding.
pub open spec fn binds_shape(bs: Seq<AstView>) -> bool {
    forall|j: int| 0 <= j < bs.len() ==> #[trigger] bs[j] is Bind
}

/// A declaration of a component body: a required service, a provided service, or
/// a part whose body is a sequence of bindings.
pub open spec fn item_shape(a: AstView) -> bool {
    match a {
        AstView::Requires { .. } => true,
        AstView::Provides { .. } => true,
        AstView::Part { body, .. } => match *body {
            AstView::SEQ(bs) => binds_shape(bs),
            _ => false,
        },
        _ => false,
    }
}

/// Every item of `v` is a declaration of a component body.
pub open spec fn items_shape(v: Seq<AstView>) -> bool {
    forall|j: int| 0 <= j < v.len() ==> item_shape(#[trigger] v[j])
}

/// A component whose parent's file is not looked up and whose body is a sequence
/// of declarations.
pub open spec fn component_shape(c: AstView) -> bool {
    match c {
        AstView::Component { specializes, body, .. } => {
            &&& (match specializes {
                Some((_, file)) => file is None,
                None => true,
            })
            &&& (match *body {
                AstView::SEQ(items) => items_shape(items),
                _ => false,
            })
        },
        _ => false,
    }
}

/// An import whose file is not looked up.
pub open spec fn plain_import(a: AstView) -> bool {
    match a {
        AstView::Import { ast, .. } => ast is None,
        _ => false,
    }
}

/// The shape of the tree of a file: imports, then one namespace that holds one
/// component.
pub open spec fn file_shape(tree: AstView) -> bool {
    match tree {
        AstView::SEQ(nodes) => {
            &&& nodes.len() > 0
            &&& forall|j: int| 0 <= j < nodes.len() - 1 ==> plain_import(#[trigger] nodes[j])
            &&& (match nodes.last() {
                AstView::Namespace { body, .. } => component_shape(*body),
                _ => false,
            })
        },
        _ => false,
    }
}

proof fn lemma_items_tokens_cat(a: Seq<AstView>, b: Seq<AstView>)
    ensures
        items_tokens(a + b) == items_tokens(a) + items_tokens(b),
    decreases a.len(),
{
    if a.len() == 0 {
        assert(a + b =~= b);
        assert(Seq::<Tok>::empty() + items_tokens(b) =~= items_tokens(b));
    } else {
        assert((a + b).drop_first() =~= a.drop_first() + b);
        assert((a + b)[0] == a[0]);
        lemma_items_tokens_cat(a.drop_first(), b);
        assert(items_tokens(a + b) =~= items_tokens(a) + items_tokens(b));
    }
}

proof fn lemma_nodes_tokens_cat(a: Seq<AstView>, b: Seq<AstView>)
    ensures
        nodes_tokens(a + b) == nodes_tokens(a) + nodes_tokens(b),
    decreases a.len(),
{
    if a.len() == 0 {
        assert(a + b =~= b);
        assert(Seq::<Tok>::empty() + nodes_tokens(b) =~= nodes_tokens(b));
    } else {
        assert((a + b).drop_first() =~= a.drop_first() + b);
        assert((a + b)[0] == a[0]);
        lemma_nodes_tokens_cat(a.drop_first(), b);
        assert(nodes_tokens(a + b) =~= nodes_tokens(a) + nodes_tokens(b));
    }
}

proof fn lemma_items_shape_cat(a: Seq<AstView>, b: Seq<AstView>)
    requires
        items_shape(a),
        items_shape(b),
    ensures
        items_shape(a + b),
{
    assert forall|j: int| 0 <= j < (a + b).len() implies item_shape(#[trigger] (a + b)[j]) by {
        if j < a.len() {
            assert((a + b)[j] == a[j]);
        } else {
            assert((a + b)[j] == b[j - a.len()]);
        }
    }
}

proof fn lemma_path_tail_reads(chars: Seq<char>, s: State)
    ensures
        path_tail(chars, s) matches Ok((v, s1)) ==> reads(chars, s, dotted_tokens(v), s1),
    decreases measure(chars, s),
{
    let dot = sym(CommonTokenView::Dot);
    if s.0 == dot {
        lemma_advance(chars, s);
        if let Ok(s1) = advance(chars, s) {
            lemma_ident(chars, s1);
            if let Ok((name, s2)) = ident(chars, s1) {
                lemma_path_tail_reads(chars, s2);
                if let Ok((rest, s3)) = path_tail(chars, s2) {
                    lemma_reads_one(chars, s);
                    lemma_ident_reads(chars, s1);
                    lemma_reads_cat(chars, s, seq![dot], s1, seq![id(name)], s2);
                    let head = seq![dot] + seq![id(name)];
                    lemma_reads_cat(chars, s, head, s2, dotted_tokens(rest), s3);
                    let v = seq![name] + rest;
                    assert(v.drop_first() =~= rest);
                    assert(dotted_tokens(v) =~= head + dotted_tokens(rest));
                }
            }
        }
    }
}

proof fn lemma_path_reads(chars: Seq<char>, s: State)
    ensures
        path(chars, s) matches Ok((v, s1)) ==> v.len() > 0 && reads(chars, s, path_tokens(v), s1),
{
    lemma_ident_reads(chars, s);
    if let Ok((first, s1)) = ident(chars, s) {
        lemma_path_tail_reads(chars, s1);
        if let Ok((rest, s2)) = path_tail(chars, s1) {
            lemma_reads_cat(chars, s, seq![id(first)], s1, dotted_tokens(rest), s2);
            let v = seq![first] + rest;
            assert(v.drop_first() =~= rest);
        }
    }
}

proof fn lemma_generic_reads(chars: Seq<char>, s: State)
    ensures
        generic(chars, s) matches Ok((g, s1)) ==> reads(chars, s, generic_tokens(g), s1),
{
    let open = sym(CommonTokenView::Lbracket);
    let close = sym(CommonTokenView::Rbracket);
    if s.0 == open {
        if let Ok(s1) = advance(chars, s) {
            lemma_ident_reads(chars, s1);
            if let Ok((name, s2)) = ident(chars, s1) {
                lemma_expect_reads(chars, s2, close, Context::AfterGenericParameterName);
                if let Ok(s3) = expect(chars, s2, close, Context::AfterGenericParameterName) {
                    lemma_reads_one(chars, s);
                    lemma_reads_cat(chars, s, seq![open], s1, seq![id(name)], s2);
                    lemma_reads_cat(chars, s, seq![open] + seq![id(name)], s2, seq![close], s3);
                    assert(seq![open] + seq![id(name)] + seq![close] =~= generic_tokens(Some(name)));
                }
            }
        }
    }
}

proof fn lemma_bind_target_reads(chars: Seq<char>, s: State)
    ensures
        bind_target(chars, s) matches Ok((t, s1)) ==> reads(chars, s, path_tokens(t), s1),
{
    let dot = sym(CommonTokenView::Dot);
    lemma_ident_reads(chars, s);
    if let Ok((first, s1)) = ident(chars, s) {
        if s1.0 == dot {
            if let Ok(s2) = advance(chars, s1) {
                lemma_ident_reads(chars, s2);
                if let Ok((second, s3)) = ident(chars, s2) {
                    lemma_reads_one(chars, s1);
                    lemma_reads_cat(chars, s, seq![id(first)], s1, seq![dot], s2);
                    lemma_reads_cat(chars, s, seq![id(first)] + seq![dot], s2, seq![id(second)], s3);
                    let t = seq![first, second];
                    assert(t.drop_first() =~= seq![second]);
                    assert(seq![second].drop_first() =~= Seq::<Seq<char>>::empty());
                    assert(dotted_tokens(Seq::<Seq<char>>::empty()) =~= Seq::<Tok>::empty());
                    assert(dotted_tokens(seq![second]) =~= seq![dot, id(second)]);
                    assert(seq![id(first)] + seq![dot] + seq![id(second)] =~= path_tokens(t));
                }
            }
        } else {
            let t = seq![first];
            assert(t.drop_first() =~= Seq::<Seq<char>>::empty());
            assert(seq![id(first)] =~= path_tokens(t));
        }
    }
}

proof fn lemma_binds_reads(chars: Seq<char>, s: State)
    ensures
        binds(chars, s) matches Ok((bs, s1)) ==> binds_shape(bs) && reads(
            chars,
            s,
            binds_tokens(bs),
            s1,
        ),
    decreases measure(chars, s),
{
    let bind = kw(SpeadlTokenExtension::Bind);
    let to = kw(SpeadlTokenExtension::To);
    if s.0 == bind {
        lemma_advance(chars, s);
        if let Ok(s1) = advance(chars, s) {
            lemma_ident(chars, s1);
            if let Ok((name, s2)) = ident(chars, s1) {
                lemma_expect(chars, s2, to, Context::AfterBindName);
                if let Ok(s3) = expect(chars, s2, to, Context::AfterBindName) {
                    lemma_bind_target(chars, s3);
                    if let Ok((target, s4)) = bind_target(chars, s3) {
                        lemma_binds_reads(chars, s4);
                        if let Ok((rest, s5)) = binds(chars, s4) {
                            lemma_reads_one(chars, s);
                            lemma_ident_reads(chars, s1);
                            lemma_expect_reads(chars, s2, to, Context::AfterBindName);
                            lemma_bind_target_reads(chars, s3);
                            let t1 = seq![bind];
                            let t2 = t1 + seq![id(name)];
                            let t3 = t2 + seq![to];
                            let t4 = t3 + path_tokens(target);
                            let t5 = t4 + binds_tokens(rest);
                            lemma_reads_cat(chars, s, t1, s1, seq![id(name)], s2);
                            lemma_reads_cat(chars, s, t2, s2, seq![to], s3);
                            lemma_reads_cat(chars, s, t3, s3, path_tokens(target), s4);
                            lemma_reads_cat(chars, s, t4, s4, binds_tokens(rest), s5);
                            let b = AstView::Bind { name, target };
                            let bs = seq![b] + rest;
                            assert(bs.drop_first() =~= rest);
                            assert(bs[0] == b);
                            assert(t5 =~= binds_tokens(bs));
                            assert forall|j: int| 0 <= j < bs.len() implies #[trigger] bs[j] is Bind by {
                                if j > 0 {
                                    assert(bs[j] == rest[j - 1]);
                                }
                            }
                        }
                    }
                }
            }
        }
    }
}

proof fn lemma_part_declaration_reads(chars: Seq<char>, s: State)
    ensures
        part_declaration(chars, s) matches Ok((a, s1)) ==> {
            &&& a is Part
            &&& item_shape(a)
            &&& reads(chars, s, part_rest_tokens(a), s1)
        },
{
    if let Ok((a, s7)) = part_declaration(chars, s) {
        let colon = sym(CommonTokenView::Colon);
        let open = sym(CommonTokenView::Lbrace);
        let close = sym(CommonTokenView::Rbrace);
        let (name, s1) = ident(chars, s)->Ok_0;
        let s2 = expect(chars, s1, colon, Context::AfterPartName)->Ok_0;
        let (typ, s3) = ident(chars, s2)->Ok_0;
        let (g, s4) = generic(chars, s3)->Ok_0;
        let s5 = expect(chars, s4, open, Context::BeforePartBody)->Ok_0;
        let (bs, s6) = binds(chars, s5)->Ok_0;
        lemma_ident_reads(chars, s);
        lemma_expect_reads(chars, s1, colon, Context::AfterPartName);
        lemma_ident_reads(chars, s2);
        lemma_generic_reads(chars, s3);
        lemma_expect_reads(chars, s4, open, Context::BeforePartBody);
        lemma_binds_reads(chars, s5);
        lemma_expect_reads(chars, s6, close, Context::AfterPartBody);
        let t1 = seq![id(name)];
        let t2 = t1 + seq![colon];
        let t3 = t2 + seq![id(typ)];
        let t4 = t3 + generic_tokens(g);
        let t5 = t4 + seq![open];
        let t6 = t5 + binds_tokens(bs);
        let t7 = t6 + seq![close];
        lemma_reads_cat(chars, s, t1, s1, seq![colon], s2);
        lemma_reads_cat(chars, s, t2, s2, seq![id(typ)], s3);
        lemma_reads_cat(chars, s, t3, s3, generic_tokens(g), s4);
        lemma_reads_cat(chars, s, t4, s4, seq![open], s5);
        lemma_reads_cat(chars, s, t5, s5, binds_tokens(bs), s6);
        lemma_reads_cat(chars, s, t6, s6, seq![close], s7);
        assert(t7 =~= part_rest_tokens(a));
    }
}

proof fn lemma_parts_reads(chars: Seq<char>, s: State)
    ensures
        parts(chars, s) matches Ok((v, s1)) ==> items_shape(v) && reads(
            chars,
            s,
            items_tokens(v),
            s1,
        ),
    decreases measure(chars, s),
{
    let part = kw(SpeadlTokenExtension::Part);
    if s.0 == part {
        lemma_advance(chars, s);
        if let Ok(s1) = advance(chars, s) {
            lemma_part_declaration(chars, s1);
            if let Ok((a, s2)) = part_declaration(chars, s1) {
                lemma_parts_reads(chars, s2);
                if let Ok((rest, s3)) = parts(chars, s2) {
                    lemma_reads_one(chars, s);
                    lemma_part_declaration_reads(chars, s1);
                    lemma_reads_cat(chars, s, seq![part], s1, part_rest_tokens(a), s2);
                    lemma_reads_cat(chars, s, seq![part] + part_rest_tokens(a), s2, items_tokens(rest), s3);
                    let v = seq![a] + rest;
                    assert(v.drop_first() =~= rest);
                    assert(v[0] == a);
                    assert(items_tokens(v) =~= seq![part] + part_rest_tokens(a) + items_tokens(rest));
                    assert(items_shape(seq![a]));
                    lemma_items_shape_cat(seq![a], rest);
                }
            }
        }
    }
}

proof fn lemma_provided_reads(chars: Seq<char>, s: State)
    ensures
        provided(chars, s) matches Ok((a, s1)) ==> {
            &&& a is Provides
            &&& reads(chars, s, provided_rest_tokens(a), s1)
        },
{
    if let Ok((a, s_end)) = provided(chars, s) {
        let colon = sym(CommonTokenView::Colon);
        let equals = sym(CommonTokenView::Equals);
        let dot = sym(CommonTokenView::Dot);
        let (name, s1) = ident(chars, s)->Ok_0;
        let s2 = expect(chars, s1, colon, Context::AfterProvidedServiceName)->Ok_0;
        let (typ, s3) = ident(chars, s2)->Ok_0;
        lemma_ident_reads(chars, s);
        lemma_expect_reads(chars, s1, colon, Context::AfterProvidedServiceName);
        lemma_ident_reads(chars, s2);
        let t1 = seq![id(name)];
        let t2 = t1 + seq![colon];
        let t3 = t2 + seq![id(typ)];
        lemma_reads_cat(chars, s, t1, s1, seq![colon], s2);
        lemma_reads_cat(chars, s, t2, s2, seq![id(typ)], s3);
        if s3.0 == equals {
            let s4 = advance(chars, s3)->Ok_0;
            let (part_name, s5) = ident(chars, s4)->Ok_0;
            let s6 = expect(chars, s5, dot, Context::BetweenDelegatedPartAndServiceName)->Ok_0;
            let (service_name, s7) = ident(chars, s6)->Ok_0;
            lemma_reads_one(chars, s3);
            lemma_ident_reads(chars, s4);
            lemma_expect_reads(chars, s5, dot, Context::BetweenDelegatedPartAndServiceName);
            lemma_ident_reads(chars, s6);
            let t4 = t3 + seq![equals];
            let t5 = t4 + seq![id(part_name)];
            let t6 = t5 + seq![dot];
            let t7 = t6 + seq![id(service_name)];
            lemma_reads_cat(chars, s, t3, s3, seq![equals], s4);
            lemma_reads_cat(chars, s, t4, s4, seq![id(part_name)], s5);
            lemma_reads_cat(chars, s, t5, s5, seq![dot], s6);
            lemma_reads_cat(chars, s, t6, s6, seq![id(service_name)], s7);
            assert(t7 =~= provided_rest_tokens(a));
        } else {
            assert(t3 =~= provided_rest_tokens(a));
        }
    }
}

proof fn lemma_provided_list_reads(chars: Seq<char>, s: State)
    ensures
        provided_list(chars, s) matches Ok((v, s1)) ==> {
            &&& v.len() > 0
            &&& v[0] is Provides
            &&& items_shape(v)
            &&& reads(chars, s, provided_rest_tokens(v[0]) + items_tokens(v.drop_first()), s1)
        },
    decreases measure(chars, s),
{
    let provides_kw = kw(SpeadlTokenExtension::Provides);
    lemma_provided_reads(chars, s);
    if let Ok((a, s1)) = provided(chars, s) {
        if s1.0 == provides_kw {
            lemma_provided(chars, s);
            lemma_advance(chars, s1);
            if let Ok(s2) = advance(chars, s1) {
                lemma_provided_list_reads(chars, s2);
                if let Ok((rest, s3)) = provided_list(chars, s2) {
                    lemma_reads_one(chars, s1);
                    let r0 = provided_rest_tokens(rest[0]) + items_tokens(rest.drop_first());
                    lemma_reads_cat(chars, s1, seq![provides_kw], s2, r0, s3);
                    assert(items_tokens(rest) =~= seq![provides_kw] + r0);
                    lemma_reads_cat(chars, s, provided_rest_tokens(a), s1, items_tokens(rest), s3);
                    let v = seq![a] + rest;
                    assert(v.drop_first() =~= rest);
                    assert(v[0] == a);
                    assert(items_shape(seq![a]));
                    lemma_items_shape_cat(seq![a], rest);
                }
            }
        } else {
            let v = seq![a];
            assert(v.drop_first() =~= Seq::<AstView>::empty());
            assert(provided_rest_tokens(a) + items_tokens(Seq::<AstView>::empty())
                =~= provided_rest_tokens(a));
            assert(items_shape(v));
        }
    }
}

proof fn lemma_provides_reads(chars: Seq<char>, s: State)
    ensures
        provides(chars, s) matches Ok((v, s1)) ==> items_shape(v) && reads(
            chars,
            s,
            items_tokens(v),
            s1,
        ),
{
    let provides_kw = kw(SpeadlTokenExtension::Provides);
    if let Ok((v, s3)) = provides(chars, s) {
        let s1 = advance(chars, s)->Ok_0;
        let (services, s2) = provided_list(chars, s1)->Ok_0;
        let (ps, _) = parts(chars, s2)->Ok_0;
        lemma_reads_one(chars, s);
        lemma_provided_list_reads(chars, s1);
        lemma_parts_reads(chars, s2);
        let r0 = provided_rest_tokens(services[0]) + items_tokens(services.drop_first());
        lemma_reads_cat(chars, s, seq![provides_kw], s1, r0, s2);
        assert(items_tokens(services) =~= seq![provides_kw] + r0);
        lemma_reads_cat(chars, s, items_tokens(services), s2, items_tokens(ps), s3);
        lemma_items_tokens_cat(services, ps);
        lemma_items_shape_cat(services, ps);
    }
}

proof fn lemma_requirements_reads(chars: Seq<char>, s: State)
    ensures
        requirements(chars, s) matches Ok((v, s1)) ==> items_shape(v) && reads(
            chars,
            s,
            items_tokens(v),
            s1,
        ),
    decreases measure(chars, s),
{
    let requires_kw = kw(SpeadlTokenExtension::Requires);
    let colon = sym(CommonTokenView::Colon);
    if s.0 == requires_kw {
        lemma_advance(chars, s);
        if let Ok(s1) = advance(chars, s) {
            lemma_ident(chars, s1);
            if let Ok((name, s2)) = ident(chars, s1) {
                lemma_expect(chars, s2, colon, Context::AfterRequiredServiceName);
                if let Ok(s3) = expect(chars, s2, colon, Context::AfterRequiredServiceName) {
                    lemma_ident(chars, s3);
                    if let Ok((typ, s4)) = ident(chars, s3) {
                        lemma_requirements_reads(chars, s4);
                        if let Ok((rest, s5)) = requirements(chars, s4) {
                            lemma_reads_one(chars, s);
                            lemma_ident_reads(chars, s1);
                            lemma_expect_reads(chars, s2, colon, Context::AfterRequiredServiceName);
                            lemma_ident_reads(chars, s3);
                            let t1 = seq![requires_kw];
                            let t2 = t1 + seq![id(name)];
                            let t3 = t2 + seq![colon];
                            let t4 = t3 + seq![id(typ)];
                            let t5 = t4 + items_tokens(rest);
                            lemma_reads_cat(chars, s, t1, s1, seq![id(name)], s2);
                            lemma_reads_cat(chars, s, t2, s2, seq![colon], s3);
                            lemma_reads_cat(chars, s, t3, s3, seq![id(typ)], s4);
                            lemma_reads_cat(chars, s, t4, s4, items_tokens(rest), s5);
                            let a = AstView::Requires { name, typ };
                            let v = seq![a] + rest;
                            assert(v.drop_first() =~= rest);
                            assert(v[0] == a);
                            assert(t5 =~= items_tokens(v));
                            assert(items_shape(seq![a]));
                            lemma_items_shape_cat(seq![a], rest);
                        }
                    }
                }
            }
        }
    }
}

proof fn lemma_component_body_reads(chars: Seq<char>, s: State)
    ensures
        component_body(chars, s) matches Ok((v, s1)) ==> items_shape(v) && reads(
            chars,
            s,
            items_tokens(v),
            s1,
        ),
{
    if let Ok((v, s2)) = component_body(chars, s) {
        let (rs, s1) = requirements(chars, s)->Ok_0;
        let (ps, _) = provides(chars, s1)->Ok_0;
        lemma_requirements_reads(chars, s);
        lemma_provides_reads(chars, s1);
        lemma_reads_cat(chars, s, items_tokens(rs), s1, items_tokens(ps), s2);
        lemma_items_tokens_cat(rs, ps);
        lemma_items_shape_cat(rs, ps);
    }
}

proof fn lemma_specialization_reads(chars: Seq<char>, s: State)
    ensures
        specialization(chars, s) matches Ok((sp, s1)) ==> {
            &&& (match sp {
                Some((_, file)) => file is None,
                None => true,
            })
            &&& reads(chars, s, specialization_tokens(sp), s1)
        },
{
    let spec_kw = kw(SpeadlTokenExtension::Specializes);
    if s.0 == spec_kw {
        if let Ok(s1) = advance(chars, s) {
            lemma_ident_reads(chars, s1);
            if let Ok((parent, s2)) = ident(chars, s1) {
                lemma_reads_one(chars, s);
                lemma_reads_cat(chars, s, seq![spec_kw], s1, seq![id(parent)], s2);
                assert(seq![spec_kw] + seq![id(parent)] =~= specialization_tokens(
                    Some((parent, None)),
                ));
            }
        }
    }
}

proof fn lemma_component_reads(chars: Seq<char>, s: State)
    ensures
        component(chars, s) matches Ok((c, s1)) ==> component_shape(c) && reads(
            chars,
            s,
            component_tokens(c),
            s1,
        ),
{
    if let Ok((c, s7)) = component(chars, s) {
        let component_kw = kw(SpeadlTokenExtension::Component);
        let open = sym(CommonTokenView::Lbrace);
        let close = sym(CommonTokenView::Rbrace);
        let s1 = expect(chars, s, component_kw, Context::BeforeComponentName)->Ok_0;
        let (name, s2) = ident(chars, s1)->Ok_0;
        let (sp, s3) = specialization(chars, s2)->Ok_0;
        let (g, s4) = generic(chars, s3)->Ok_0;
        let s5 = expect(chars, s4, open, Context::BeforeComponentBody)->Ok_0;
        let (items, s6) = component_body(chars, s5)->Ok_0;
        lemma_expect_reads(chars, s, component_kw, Context::BeforeComponentName);
        lemma_ident_reads(chars, s1);
        lemma_specialization_reads(chars, s2);
        lemma_generic_reads(chars, s3);
        lemma_expect_reads(chars, s4, open, Context::BeforeComponentBody);
        lemma_component_body_reads(chars, s5);
        lemma_expect_reads(chars, s6, close, Context::AfterComponentBody);
        let t1 = seq![component_kw];
        let t2 = t1 + seq![id(name)];
        let t3 = t2 + specialization_tokens(sp);
        let t4 = t3 + generic_tokens(g);
        let t5 = t4 + seq![open];
        let t6 = t5 + items_tokens(items);
        let t7 = t6 + seq![close];
        lemma_reads_cat(chars, s, t1, s1, seq![id(name)], s2);
        lemma_reads_cat(chars, s, t2, s2, specialization_tokens(sp), s3);
        lemma_reads_cat(chars, s, t3, s3, generic_tokens(g), s4);
        lemma_reads_cat(chars, s, t4, s4, seq![open], s5);
        lemma_reads_cat(chars, s, t5, s5, items_tokens(items), s6);
        lemma_reads_cat(chars, s, t6, s6, seq![close], s7);
        assert(t7 =~= component_tokens(c));
    }
}

proof fn lemma_imports_reads(chars: Seq<char>, s: State)
    ensures
        imports(chars, s) matches Ok((ps, s1)) ==> reads(
            chars,
            s,
            nodes_tokens(import_nodes(ps)),
            s1,
        ),
    decreases measure(chars, s),
{
    let import_kw = kw(SpeadlTokenExtension::Import);
    if s.0 == import_kw {
        lemma_advance(chars, s);
        if let Ok(s1) = advance(chars, s) {
            lemma_path(chars, s1);
            if let Ok((p, s2)) = path(chars, s1) {
                lemma_imports_reads(chars, s2);
                if let Ok((rest, s3)) = imports(chars, s2) {
                    lemma_reads_one(chars, s);
                    lemma_path_reads(chars, s1);
                    lemma_reads_cat(chars, s, seq![import_kw], s1, path_tokens(p), s2);
                    let head = seq![import_kw] + path_tokens(p);
                    lemma_reads_cat(chars, s, head, s2, nodes_tokens(import_nodes(rest)), s3);
                    let ps = seq![p] + rest;
                    let nodes = import_nodes(ps);
                    assert(nodes.drop_first() =~= import_nodes(rest));
                    assert(nodes[0] == AstView::Import { path: p, ast: None });
                    assert(nodes_tokens(nodes) == head + nodes_tokens(import_nodes(rest)));
                }
            }
        }
    } else {
        assert(import_nodes(Seq::<Seq<Seq<char>>>::empty()) =~= Seq::<AstView>::empty());
    }
}

/// Parsing a SpeADL file reads back its tree. When the parser accepts a file from
/// state `s` and stops in state `s2`, the tree is a run of imports and then one
/// namespace holding one component whose body holds required services, provided
/// services and parts, and the tokens read from `s` to `s2` are exactly the tokens
/// of that tree, in order. So the parser keeps every declaration of the source,
/// in source order, and adds none: one `Requires` node per `requires name: Type`,
/// one `Provides` node per provided service (delegated exactly when `= part.service`
/// follows its type), one `Part` node per `part`, with one `Bind` node per `bind`,
/// and one `Import` node per `import`.
pub proof fn law_namespace_reads_back(chars: Seq<char>, s: State)
    ensures
        namespace(chars, s) matches Ok((tree, s2)) ==> {
            &&& file_shape(tree)
            &&& reads(chars, s, file_tokens(tree), s2)
        },
{
    if let Ok((tree, s6)) = namespace(chars, s) {
        let namespace_kw = kw(SpeadlTokenExtension::Namespace);
        let open = sym(CommonTokenView::Lbrace);
        let close = sym(CommonTokenView::Rbrace);
        let (ps, s1) = imports(chars, s)->Ok_0;
        let s2 = expect(chars, s1, namespace_kw, Context::BeforeNamespacePath)->Ok_0;
        let (np, s3) = path(chars, s2)->Ok_0;
        let s4 = expect(chars, s3, open, Context::BeforeNamespaceBody)->Ok_0;
        let (c, s5) = component(chars, s4)->Ok_0;
        lemma_imports_reads(chars, s);
        lemma_expect_reads(chars, s1, namespace_kw, Context::BeforeNamespacePath);
        lemma_path_reads(chars, s2);
        lemma_expect_reads(chars, s3, open, Context::BeforeNamespaceBody);
        lemma_component_reads(chars, s4);
        lemma_expect_reads(chars, s5, close, Context::AfterNamespaceBody);
        let t1 = nodes_tokens(import_nodes(ps));
        let t2 = t1 + seq![namespace_kw];
        let t3 = t2 + path_tokens(np);
        let t4 = t3 + seq![open];
        let t5 = t4 + component_tokens(c);
        let t6 = t5 + seq![close];
        lemma_reads_cat(chars, s, t1, s1, seq![namespace_kw], s2);
        lemma_reads_cat(chars, s, t2, s2, path_tokens(np), s3);
        lemma_reads_cat(chars, s, t3, s3, seq![open], s4);
        lemma_reads_cat(chars, s, t4, s4, component_tokens(c), s5);
        lemma_reads_cat(chars, s, t5, s5, seq![close], s6);
        let last = AstView::Namespace { path: np, body: Box::new(c) };
        let nodes = import_nodes(ps) + seq![last];
        assert(tree == AstView::SEQ(nodes));
        lemma_nodes_tokens_cat(import_nodes(ps), seq![last]);
        assert(seq![last].drop_first() =~= Seq::<AstView>::empty());
        assert(nodes_tokens(Seq::<AstView>::empty()) =~= Seq::<Tok>::empty());
        assert(nodes_tokens(seq![last]) =~= node_tokens(last));
        assert(t6 =~= file_tokens(tree));
        assert(nodes.last() == last);
        assert forall|j: int| 0 <= j < nodes.len() - 1 implies plain_import(#[trigger] nodes[j]) by {
            assert(nodes[j] == import_nodes(ps)[j]);
        }
    }
}

/// The state reached from `s` after reading `n` tokens.
pub open spec fn after(chars: Seq<char>, s: State, n: nat) -> State
    decreases n,
{
    if n == 0 {
        s
    } else {
        match advance(chars, s) {
            Ok(s1) => after(chars, s1, (n - 1) as nat),
            Err(_) => s,
        }
    }
}

proof fn lemma_reads_split(chars: Seq<char>, s: State, a: Seq<Tok>, b: Seq<Tok>, s2: State)
    requires
        reads(chars, s, a + b, s2),
    ensures
        reads(chars, s, a, after(chars, s, a.len())),
        reads(chars, after(chars, s, a.len()), b, s2),
    decreases a.len(),
{
    if a.len() == 0 {
        assert(a + b =~= b);
    } else {
        assert((a + b).drop_first() =~= a.drop_first() + b);
        assert((a + b)[0] == a[0]);
        let s1 = advance(chars, s)->Ok_0;
        lemma_reads_split(chars, s1, a.drop_first(), b, s2);
    }
}

proof fn lemma_take_one(chars: Seq<char>, s: State, t: Tok, rest: Seq<Tok>, s2: State)
    requires
        reads(chars, s, seq![t] + rest, s2),
    ensures
        s.0 == t,
        advance(chars, s) is Ok,
        reads(chars, advance(chars, s)->Ok_0, rest, s2),
{
    assert((seq![t] + rest).drop_first() =~= rest);
    assert((seq![t] + rest)[0] == t);
}

proof fn lemma_take_last(chars: Seq<char>, s: State, t: Tok, s2: State)
    requires
        reads(chars, s, seq![t], s2),
    ensures
        s.0 == t,
        advance(chars, s) == Ok::<State, Fault>(s2),
{
    assert(seq![t].drop_first() =~= Seq::<Tok>::empty());
    assert(reads(chars, advance(chars, s)->Ok_0, Seq::<Tok>::empty(), s2));
}

proof fn lemma_reads_nonempty(chars: Seq<char>, s: State, toks: Seq<Tok>, s2: State)
    requires
        reads(chars, s, toks, s2),
        toks.len() > 0,
    ensures
        s.0 == toks[0],
{
}

proof fn lemma_path_tail_complete(chars: Seq<char>, s: State, p: Seq<Seq<char>>, s1: State)
    requires
        reads(chars, s, dotted_tokens(p), s1),
        s1.0 != sym(CommonTokenView::Dot),
    ensures
        path_tail(chars, s) == Ok::<(Seq<Seq<char>>, State), Fault>((p, s1)),
    decreases p.len(),
{
    let dot = sym(CommonTokenView::Dot);
    if p.len() == 0 {
        assert(p =~= Seq::<Seq<char>>::empty());
    } else {
        let rest = dotted_tokens(p.drop_first());
        assert(dotted_tokens(p) =~= seq![dot] + (seq![id(p[0])] + rest));
        lemma_take_one(chars, s, dot, seq![id(p[0])] + rest, s1);
        let x = advance(chars, s)->Ok_0;
        lemma_take_one(chars, x, id(p[0]), rest, s1);
        let y = advance(chars, x)->Ok_0;
        lemma_path_tail_complete(chars, y, p.drop_first(), s1);
        assert(seq![p[0]] + p.drop_first() =~= p);
    }
}

proof fn lemma_path_complete(chars: Seq<char>, s: State, p: Seq<Seq<char>>, s1: State)
    requires
        p.len() > 0,
        reads(chars, s, path_tokens(p), s1),
        s1.0 != sym(CommonTokenView::Dot),
    ensures
        path(chars, s) == Ok::<(Seq<Seq<char>>, State), Fault>((p, s1)),
{
    lemma_take_one(chars, s, id(p[0]), dotted_tokens(p.drop_first()), s1);
    let x = advance(chars, s)->Ok_0;
    lemma_path_tail_complete(chars, x, p.drop_first(), s1);
    assert(seq![p[0]] + p.drop_first() =~= p);
}

proof fn lemma_generic_complete(chars: Seq<char>, s: State, g: Option<Seq<char>>, s1: State)
    requires
        reads(chars, s, generic_tokens(g), s1),
        g is None ==> s1.0 != sym(CommonTokenView::Lbracket),
    ensures
        generic(chars, s) == Ok::<(Option<Seq<char>>, State), Fault>((g, s1)),
{
    if let Some(n) = g {
        let open = sym(CommonTokenView::Lbracket);
        let close = sym(CommonTokenView::Rbracket);
        assert(generic_tokens(g) =~= seq![open] + (seq![id(n)] + seq![close]));
        lemma_take_one(chars, s, open, seq![id(n)] + seq![close], s1);
        let x = advance(chars, s)->Ok_0;
        lemma_take_one(chars, x, id(n), seq![close], s1);
        let y = advance(chars, x)->Ok_0;
        lemma_take_last(chars, y, close, s1);
    }
}

/// A binding whose target is `part` or `part.service`.
pub open spec fn bind_ok(b: AstView) -> bool {
    match b {
        AstView::Bind { target, .. } => 1 <= target.len() <= 2,
        _ => false,
    }
}

/// A part whose body is a sequence of such bindings.
pub open spec fn part_ok(a: AstView) -> bool {
    match a {
        AstView::Part { body, .. } => match *body {
            AstView::SEQ(bs) => forall|j: int| 0 <= j < bs.len() ==> bind_ok(#[trigger] bs[j]),
            _ => false,
        },
        _ => false,
    }
}

proof fn lemma_bind_target_complete(chars: Seq<char>, s: State, t: Seq<Seq<char>>, s1: State)
    requires
        1 <= t.len() <= 2,
        reads(chars, s, path_tokens(t), s1),
        t.len() == 1 ==> s1.0 != sym(CommonTokenView::Dot),
    ensures
        bind_target(chars, s) == Ok::<(Seq<Seq<char>>, State), Fault>((t, s1)),
{
    let dot = sym(CommonTokenView::Dot);
    assert(dotted_tokens(Seq::<Seq<char>>::empty()) =~= Seq::<Tok>::empty());
    if t.len() == 1 {
        assert(t.drop_first() =~= Seq::<Seq<char>>::empty());
        lemma_take_last(chars, s, id(t[0]), s1);
        assert(t =~= seq![t[0]]);
    } else {
        assert(t.drop_first() =~= seq![t[1]]);
        assert(seq![t[1]].drop_first() =~= Seq::<Seq<char>>::empty());
        assert(path_tokens(t) =~= seq![id(t[0])] + (seq![dot] + seq![id(t[1])]));
        lemma_take_one(chars, s, id(t[0]), seq![dot] + seq![id(t[1])], s1);
        let x = advance(chars, s)->Ok_0;
        lemma_take_one(chars, x, dot, seq![id(t[1])], s1);
        let y = advance(chars, x)->Ok_0;
        lemma_take_last(chars, y, id(t[1]), s1);
        assert(t =~= seq![t[0], t[1]]);
    }
}

proof fn lemma_binds_complete(chars: Seq<char>, s: State, bs: Seq<AstView>, s1: State)
    requires
        forall|j: int| 0 <= j < bs.len() ==> bind_ok(#[trigger] bs[j]),
        reads(chars, s, binds_tokens(bs), s1),
        s1.0 == sym(CommonTokenView::Rbrace),
    ensures
        binds(chars, s) == Ok::<(Seq<AstView>, State), Fault>((bs, s1)),
    decreases bs.len(),
{
    if bs.len() == 0 {
        assert(bs =~= Seq::<AstView>::empty());
    } else {
        let bind = kw(SpeadlTokenExtension::Bind);
        let to = kw(SpeadlTokenExtension::To);
        assert(bind_ok(bs[0]));
        let name = bs[0]->Bind_name;
        let target = bs[0]->Bind_target;
        let rest = bs.drop_first();
        let tail = binds_tokens(rest);
        assert(binds_tokens(bs) =~= seq![bind] + (seq![id(name)] + (seq![to] + (path_tokens(
            target,
        ) + tail))));
        lemma_take_one(chars, s, bind, seq![id(name)] + (seq![to] + (path_tokens(target) + tail)), s1);
        let x1 = advance(chars, s)->Ok_0;
        lemma_take_one(chars, x1, id(name), seq![to] + (path_tokens(target) + tail), s1);
        let x2 = advance(chars, x1)->Ok_0;
        lemma_take_one(chars, x2, to, path_tokens(target) + tail, s1);
        let x3 = advance(chars, x2)->Ok_0;
        lemma_reads_split(chars, x3, path_tokens(target), tail, s1);
        let x4 = after(chars, x3, path_tokens(target).len());
        if rest.len() > 0 {
            assert(bind_ok(rest[0]));
            assert(tail =~= seq![bind] + (seq![id(rest[0]->Bind_name)] + (seq![to] + (path_tokens(
                rest[0]->Bind_target,
            ) + binds_tokens(rest.drop_first())))));
            lemma_reads_nonempty(chars, x4, tail, s1);
        } else {
            assert(tail =~= Seq::<Tok>::empty());
        }
        lemma_bind_target_complete(chars, x3, target, x4);
        assert forall|j: int| 0 <= j < rest.len() implies bind_ok(#[trigger] rest[j]) by {
            assert(rest[j] == bs[j + 1]);
        }
        lemma_binds_complete(chars, x4, rest, s1);
        assert(seq![AstView::Bind { name, target }] + rest =~= bs);
    }
}

proof fn lemma_part_declaration_complete(chars: Seq<char>, s: State, a: AstView, s1: State)
    requires
        part_ok(a),
        reads(chars, s, part_rest_tokens(a), s1),
    ensures
        part_declaration(chars, s) == Ok::<(AstView, State), Fault>((a, s1)),
{
    let colon = sym(CommonTokenView::Colon);
    let open = sym(CommonTokenView::Lbrace);
    let close = sym(CommonTokenView::Rbrace);
    let name = a->Part_name;
    let typ = a->Part_typ;
    let g = a->Part_generic;
    let bs = a->Part_body->SEQ_0;
    let t5 = binds_tokens(bs) + seq![close];
    let t4 = seq![open] + t5;
    let t3 = generic_tokens(g) + t4;
    let t2 = seq![id(typ)] + t3;
    let t1 = seq![colon] + t2;
    assert(part_rest_tokens(a) =~= seq![id(name)] + t1);
    lemma_take_one(chars, s, id(name), t1, s1);
    let x1 = advance(chars, s)->Ok_0;
    lemma_take_one(chars, x1, colon, t2, s1);
    let x2 = advance(chars, x1)->Ok_0;
    lemma_take_one(chars, x2, id(typ), t3, s1);
    let x3 = advance(chars, x2)->Ok_0;
    lemma_reads_split(chars, x3, generic_tokens(g), t4, s1);
    let x4 = after(chars, x3, generic_tokens(g).len());
    lemma_take_one(chars, x4, open, t5, s1);
    lemma_generic_complete(chars, x3, g, x4);
    let x5 = advance(chars, x4)->Ok_0;
    lemma_reads_split(chars, x5, binds_tokens(bs), seq![close], s1);
    let x6 = after(chars, x5, binds_tokens(bs).len());
    lemma_take_last(chars, x6, close, s1);
    lemma_binds_complete(chars, x5, bs, x6);
    assert(a == AstView::Part { name, typ, generic: g, body: Box::new(AstView::SEQ(bs)) });
}

proof fn lemma_parts_complete(chars: Seq<char>, s: State, qs: Seq<AstView>, s1: State)
    requires
        forall|j: int| 0 <= j < qs.len() ==> part_ok(#[trigger] qs[j]),
        reads(chars, s, items_tokens(qs), s1),
        s1.0 != kw(SpeadlTokenExtension::Part),
    ensures
        parts(chars, s) == Ok::<(Seq<AstView>, State), Fault>((qs, s1)),
    decreases qs.len(),
{
    if qs.len() == 0 {
        assert(qs =~= Seq::<AstView>::empty());
    } else {
        let part = kw(SpeadlTokenExtension::Part);
        let a = qs[0];
        let rest = qs.drop_first();
        assert(part_ok(a));
        assert(items_tokens(qs) =~= seq![part] + (part_rest_tokens(a) + items_tokens(rest)));
        lemma_take_one(chars, s, part, part_rest_tokens(a) + items_tokens(rest), s1);
        let x1 = advance(chars, s)->Ok_0;
        lemma_reads_split(chars, x1, part_rest_tokens(a), items_tokens(rest), s1);
        let x2 = after(chars, x1, part_rest_tokens(a).len());
        lemma_part_declaration_complete(chars, x1, a, x2);
        assert forall|j: int| 0 <= j < rest.len() implies part_ok(#[trigger] rest[j]) by {
            assert(rest[j] == qs[j + 1]);
        }
        lemma_parts_complete(chars, x2, rest, s1);
        assert(seq![a] + rest =~= qs);
    }
}

proof fn lemma_provided_complete(chars: Seq<char>, s: State, a: AstView, s1: State)
    requires
        a is Provides,
        reads(chars, s, provided_rest_tokens(a), s1),
        a->Provides_implementation is Local ==> s1.0 != sym(CommonTokenView::Equals),
    ensures
        provided(chars, s) == Ok::<(AstView, State), Fault>((a, s1)),
{
    let colon = sym(CommonTokenView::Colon);
    let name = a->Provides_name;
    let typ = a->Provides_typ;
    let imp = a->Provides_implementation;
    let t2 = seq![id(typ)] + implementation_tokens(imp);
    let t1 = seq![colon] + t2;
    assert(provided_rest_tokens(a) =~= seq![id(name)] + t1);
    lemma_take_one(chars, s, id(name), t1, s1);
    let x1 = advance(chars, s)->Ok_0;
    lemma_take_one(chars, x1, colon, t2, s1);
    let x2 = advance(chars, x1)->Ok_0;
    lemma_take_one(chars, x2, id(typ), implementation_tokens(imp), s1);
    let x3 = advance(chars, x2)->Ok_0;
    match imp {
        ImplementationView::Local => {
            assert(implementation_tokens(imp) =~= Seq::<Tok>::empty());
        },
        ImplementationView::Delegated { part_name, service_name } => {
            let equals = sym(CommonTokenView::Equals);
            let dot = sym(CommonTokenView::Dot);
            let u2 = seq![dot] + seq![id(service_name)];
            let u1 = seq![id(part_name)] + u2;
            assert(implementation_tokens(imp) =~= seq![equals] + u1);
            lemma_take_one(chars, x3, equals, u1, s1);
            let x4 = advance(chars, x3)->Ok_0;
            lemma_take_one(chars, x4, id(part_name), u2, s1);
            let x5 = advance(chars, x4)->Ok_0;
            lemma_take_one(chars, x5, dot, seq![id(service_name)], s1);
            let x6 = advance(chars, x5)->Ok_0;
            lemma_take_last(chars, x6, id(service_name), s1);
        },
    }
}

/// Every item of `v` is a provided service.
pub open spec fn all_provided(v: Seq<AstView>) -> bool {
    forall|j: int| 0 <= j < v.len() ==> #[trigger] v[j] is Provides
}

/// Every item of `v` is a required service.
pub open spec fn all_required(v: Seq<AstView>) -> bool {
    forall|j: int| 0 <= j < v.len() ==> #[trigger] v[j] is Requires
}

proof fn lemma_provided_list_complete(chars: Seq<char>, s: State, v: Seq<AstView>, s1: State)
    requires
        v.len() > 0,
        all_provided(v),
        reads(chars, s, provided_rest_tokens(v[0]) + items_tokens(v.drop_first()), s1),
        s1.0 != kw(SpeadlTokenExtension::Provides),
        s1.0 != sym(CommonTokenView::Equals),
    ensures
        provided_list(chars, s) == Ok::<(Seq<AstView>, State), Fault>((v, s1)),
    decreases v.len(),
{
    let provides_kw = kw(SpeadlTokenExtension::Provides);
    let a = v[0];
    let rest = v.drop_first();
    lemma_reads_split(chars, s, provided_rest_tokens(a), items_tokens(rest), s1);
    let x1 = after(chars, s, provided_rest_tokens(a).len());
    if rest.len() > 0 {
        assert(rest[0] == v[1]);
        let r0 = provided_rest_tokens(rest[0]) + items_tokens(rest.drop_first());
        assert(items_tokens(rest) =~= seq![provides_kw] + r0);
        lemma_take_one(chars, x1, provides_kw, r0, s1);
        lemma_provided_complete(chars, s, a, x1);
        let x2 = advance(chars, x1)->Ok_0;
        assert forall|j: int| 0 <= j < rest.len() implies #[trigger] rest[j] is Provides by {
            assert(rest[j] == v[j + 1]);
        }
        lemma_provided_list_complete(chars, x2, rest, s1);
        assert(seq![a] + rest =~= v);
    } else {
        assert(items_tokens(rest) =~= Seq::<Tok>::empty());
        lemma_provided_complete(chars, s, a, x1);
        assert(seq![a] =~= v);
    }
}

proof fn lemma_provides_complete(
    chars: Seq<char>,
    s: State,
    pv: Seq<AstView>,
    qs: Seq<AstView>,
    s1: State,
)
    requires
        pv.len() > 0,
        all_provided(pv),
        forall|j: int| 0 <= j < qs.len() ==> part_ok(#[trigger] qs[j]),
        reads(chars, s, items_tokens(pv + qs), s1),
        s1.0 == sym(CommonTokenView::Rbrace),
    ensures
        provides(chars, s) == Ok::<(Seq<AstView>, State), Fault>((pv + qs, s1)),
{
    let provides_kw = kw(SpeadlTokenExtension::Provides);
    lemma_items_tokens_cat(pv, qs);
    lemma_reads_split(chars, s, items_tokens(pv), items_tokens(qs), s1);
    let x2 = after(chars, s, items_tokens(pv).len());
    let r0 = provided_rest_tokens(pv[0]) + items_tokens(pv.drop_first());
    assert(items_tokens(pv) =~= seq![provides_kw] + r0);
    lemma_take_one(chars, s, provides_kw, r0, x2);
    let x1 = advance(chars, s)->Ok_0;
    if qs.len() > 0 {
        assert(part_ok(qs[0]));
        assert(items_tokens(qs) =~= seq![kw(SpeadlTokenExtension::Part)] + (part_rest_tokens(qs[0])
            + items_tokens(qs.drop_first())));
        lemma_reads_nonempty(chars, x2, items_tokens(qs), s1);
    } else {
        assert(items_tokens(qs) =~= Seq::<Tok>::empty());
    }
    lemma_provided_list_complete(chars, x1, pv, x2);
    lemma_parts_complete(chars, x2, qs, s1);
}

proof fn lemma_requirements_complete(chars: Seq<char>, s: State, rs: Seq<AstView>, s1: State)
    requires
        all_required(rs),
        reads(chars, s, items_tokens(rs), s1),
        s1.0 != kw(SpeadlTokenExtension::Requires),
    ensures
        requirements(chars, s) == Ok::<(Seq<AstView>, State), Fault>((rs, s1)),
    decreases rs.len(),
{
    if rs.len() == 0 {
        assert(rs =~= Seq::<AstView>::empty());
    } else {
        let requires_kw = kw(SpeadlTokenExtension::Requires);
        let colon = sym(CommonTokenView::Colon);
        assert(rs[0] is Requires);
        let name = rs[0]->Requires_name;
        let typ = rs[0]->Requires_typ;
        let rest = rs.drop_first();
        let t3 = seq![id(typ)] + items_tokens(rest);
        let t2 = seq![colon] + t3;
        let t1 = seq![id(name)] + t2;
        assert(items_tokens(rs) =~= seq![requires_kw] + t1);
        lemma_take_one(chars, s, requires_kw, t1, s1);
        let x1 = advance(chars, s)->Ok_0;
        lemma_take_one(chars, x1, id(name), t2, s1);
        let x2 = advance(chars, x1)->Ok_0;
        lemma_take_one(chars, x2, colon, t3, s1);
        let x3 = advance(chars, x2)->Ok_0;
        lemma_take_one(chars, x3, id(typ), items_tokens(rest), s1);
        let x4 = advance(chars, x3)->Ok_0;
        assert forall|j: int| 0 <= j < rest.len() implies #[trigger] rest[j] is Requires by {
            assert(rest[j] == rs[j + 1]);
        }
        lemma_requirements_complete(chars, x4, rest, s1);
        assert(seq![AstView::Requires { name, typ }] + rest =~= rs);
    }
}

proof fn lemma_component_body_complete(
    chars: Seq<char>,
    s: State,
    rs: Seq<AstView>,
    pv: Seq<AstView>,
    qs: Seq<AstView>,
    s1: State,
)
    requires
        all_required(rs),
        pv.len() > 0,
        all_provided(pv),
        forall|j: int| 0 <= j < qs.len() ==> part_ok(#[trigger] qs[j]),
        reads(chars, s, items_tokens(rs + pv + qs), s1),
        s1.0 == sym(CommonTokenView::Rbrace),
    ensures
        component_body(chars, s) == Ok::<(Seq<AstView>, State), Fault>((rs + pv + qs, s1)),
{
    assert(rs + pv + qs =~= rs + (pv + qs));
    lemma_items_tokens_cat(rs, pv + qs);
    lemma_reads_split(chars, s, items_tokens(rs), items_tokens(pv + qs), s1);
    let x1 = after(chars, s, items_tokens(rs).len());
    assert((pv + qs)[0] == pv[0]);
    assert(pv[0] is Provides);
    lemma_reads_nonempty(chars, x1, items_tokens(pv + qs), s1);
    lemma_requirements_complete(chars, s, rs, x1);
    lemma_provides_complete(chars, x1, pv, qs, s1);
}

/// The `specializes` clause of a component with the given parent, whose file is not
/// looked up.
pub open spec fn parent_clause(parent: Option<Seq<char>>) -> Option<(Seq<char>, Option<Box<AstView>>)> {
    match parent {
        Some(p) => Some((p, None)),
        None => None,
    }
}

/// The tree of a component.
pub open spec fn component_tree(
    name: Seq<char>,
    parent: Option<Seq<char>>,
    g: Option<Seq<char>>,
    items: Seq<AstView>,
) -> AstView {
    AstView::Component {
        name,
        specializes: parent_clause(parent),
        generic: g,
        body: Box::new(AstView::SEQ(items)),
    }
}

/// The tree of a file: its imports, then its namespace holding the component `c`.
pub open spec fn file_tree(
    import_paths: Seq<Seq<Seq<char>>>,
    namespace_path: Seq<Seq<char>>,
    c: AstView,
) -> AstView {
    AstView::SEQ(
        import_nodes(import_paths) + seq![
            AstView::Namespace { path: namespace_path, body: Box::new(c) },
        ],
    )
}

proof fn lemma_specialization_complete(
    chars: Seq<char>,
    s: State,
    parent: Option<Seq<char>>,
    s1: State,
)
    requires
        reads(chars, s, specialization_tokens(parent_clause(parent)), s1),
        parent is None ==> s1.0 != kw(SpeadlTokenExtension::Specializes),
    ensures
        specialization(chars, s) == Ok::<
            (Option<(Seq<char>, Option<Box<AstView>>)>, State),
            Fault,
        >((parent_clause(parent), s1)),
{
    if let Some(p) = parent {
        let spec_kw = kw(SpeadlTokenExtension::Specializes);
        assert(specialization_tokens(parent_clause(parent)) =~= seq![spec_kw] + seq![id(p)]);
        lemma_take_one(chars, s, spec_kw, seq![id(p)], s1);
        let x1 = advance(chars, s)->Ok_0;
        lemma_take_last(chars, x1, id(p), s1);
    }
}

proof fn lemma_component_complete(
    chars: Seq<char>,
    s: State,
    name: Seq<char>,
    parent: Option<Seq<char>>,
    g: Option<Seq<char>>,
    rs: Seq<AstView>,
    pv: Seq<AstView>,
    qs: Seq<AstView>,
    s1: State,
)
    requires
        all_required(rs),
        pv.len() > 0,
        all_provided(pv),
        forall|j: int| 0 <= j < qs.len() ==> part_ok(#[trigger] qs[j]),
        reads(chars, s, component_tokens(component_tree(name, parent, g, rs + pv + qs)), s1),
    ensures
        component(chars, s) == Ok::<(AstView, State), Fault>(
            (component_tree(name, parent, g, rs + pv + qs), s1),
        ),
{
    let component_kw = kw(SpeadlTokenExtension::Component);
    let open = sym(CommonTokenView::Lbrace);
    let close = sym(CommonTokenView::Rbrace);
    let items = rs + pv + qs;
    let sp = specialization_tokens(parent_clause(parent));
    let t5 = items_tokens(items) + seq![close];
    let t4 = seq![open] + t5;
    let t3 = generic_tokens(g) + t4;
    let t2 = sp + t3;
    let t1 = seq![id(name)] + t2;
    assert(component_tokens(component_tree(name, parent, g, items)) =~= seq![component_kw] + t1);
    lemma_take_one(chars, s, component_kw, t1, s1);
    let x1 = advance(chars, s)->Ok_0;
    lemma_take_one(chars, x1, id(name), t2, s1);
    let x2 = advance(chars, x1)->Ok_0;
    lemma_reads_split(chars, x2, sp, t3, s1);
    let x3 = after(chars, x2, sp.len());
    lemma_reads_nonempty(chars, x3, t3, s1);
    if g is Some {
        assert(t3[0] == sym(CommonTokenView::Lbracket));
    } else {
        assert(t3[0] == open);
    }
    lemma_specialization_complete(chars, x2, parent, x3);
    lemma_reads_split(chars, x3, generic_tokens(g), t4, s1);
    let x4 = after(chars, x3, generic_tokens(g).len());
    lemma_take_one(chars, x4, open, t5, s1);
    lemma_generic_complete(chars, x3, g, x4);
    let x5 = advance(chars, x4)->Ok_0;
    lemma_reads_split(chars, x5, items_tokens(items), seq![close], s1);
    let x6 = after(chars, x5, items_tokens(items).len());
    lemma_take_last(chars, x6, close, s1);
    lemma_component_body_complete(chars, x5, rs, pv, qs, x6);
}

proof fn lemma_imports_complete(
    chars: Seq<char>,
    s: State,
    ps: Seq<Seq<Seq<char>>>,
    s1: State,
)
    requires
        forall|j: int| 0 <= j < ps.len() ==> (#[trigger] ps[j]).len() > 0,
        reads(chars, s, nodes_tokens(import_nodes(ps)), s1),
        s1.0 != kw(SpeadlTokenExtension::Import),
        s1.0 != sym(CommonTokenView::Dot),
    ensures
        imports(chars, s) == Ok::<(Seq<Seq<Seq<char>>>, State), Fault>((ps, s1)),
    decreases ps.len(),
{
    let import_kw = kw(SpeadlTokenExtension::Import);
    if ps.len() == 0 {
        assert(import_nodes(ps) =~= Seq::<AstView>::empty());
        assert(ps =~= Seq::<Seq<Seq<char>>>::empty());
    } else {
        let p = ps[0];
        let rest = ps.drop_first();
        let nodes = import_nodes(ps);
        assert(nodes.drop_first() =~= import_nodes(rest));
        assert(nodes[0] == AstView::Import { path: p, ast: None });
        let tail = nodes_tokens(import_nodes(rest));
        assert(nodes_tokens(nodes) =~= seq![import_kw] + (path_tokens(p) + tail));
        lemma_take_one(chars, s, import_kw, path_tokens(p) + tail, s1);
        let x1 = advance(chars, s)->Ok_0;
        lemma_reads_split(chars, x1, path_tokens(p), tail, s1);
        let x2 = after(chars, x1, path_tokens(p).len());
        if rest.len() > 0 {
            let rn = import_nodes(rest);
            assert(rn[0] == AstView::Import { path: rest[0], ast: None });
            assert(tail =~= node_tokens(rn[0]) + nodes_tokens(rn.drop_first()));
            assert(tail[0] == import_kw);
            lemma_reads_nonempty(chars, x2, tail, s1);
        } else {
            assert(import_nodes(rest) =~= Seq::<AstView>::empty());
            assert(tail =~= Seq::<Tok>::empty());
        }
        lemma_path_complete(chars, x1, p, x2);
        assert forall|j: int| 0 <= j < rest.len() implies (#[trigger] rest[j]).len() > 0 by {
            assert(rest[j] == ps[j + 1]);
        }
        lemma_imports_complete(chars, x2, rest, s1);
        assert(seq![p] + rest =~= ps);
    }
}

/// Parsing gives back what printing wrote. Take the tree of a file: imports with
/// non-empty paths, then a namespace with a non-empty path that holds one component
/// (with or without a parent and a generic parameter) whose body is required
/// services, then at least one provided service, then parts whose bindings aim at
/// `part` or `part.service`. When the lexer reads exactly the tokens of that tree
/// from state `s` to state `s2`, the parser returns that very tree and stops in
/// `s2`: every declaration that was written is parsed back, in its place.
pub proof fn law_printed_file_parses_back(
    chars: Seq<char>,
    s: State,
    import_paths: Seq<Seq<Seq<char>>>,
    namespace_path: Seq<Seq<char>>,
    name: Seq<char>,
    parent: Option<Seq<char>>,
    g: Option<Seq<char>>,
    rs: Seq<AstView>,
    pv: Seq<AstView>,
    qs: Seq<AstView>,
    s2: State,
)
    requires
        forall|j: int| 0 <= j < import_paths.len() ==> (#[trigger] import_paths[j]).len() > 0,
        namespace_path.len() > 0,
        all_required(rs),
        pv.len() > 0,
        all_provided(pv),
        forall|j: int| 0 <= j < qs.len() ==> part_ok(#[trigger] qs[j]),
        reads(
            chars,
            s,
            file_tokens(
                file_tree(import_paths, namespace_path, component_tree(name, parent, g, rs + pv + qs)),
            ),
            s2,
        ),
    ensures
        namespace(chars, s) == Ok::<(AstView, State), Fault>(
            (
                file_tree(import_paths, namespace_path, component_tree(name, parent, g, rs + pv + qs)),
                s2,
            ),
        ),
{
    let namespace_kw = kw(SpeadlTokenExtension::Namespace);
    let open = sym(CommonTokenView::Lbrace);
    let close = sym(CommonTokenView::Rbrace);
    let c = component_tree(name, parent, g, rs + pv + qs);
    let last = AstView::Namespace { path: namespace_path, body: Box::new(c) };
    let ins = import_nodes(import_paths);
    lemma_nodes_tokens_cat(ins, seq![last]);
    assert(seq![last].drop_first() =~= Seq::<AstView>::empty());
    assert(nodes_tokens(Seq::<AstView>::empty()) =~= Seq::<Tok>::empty());
    assert(nodes_tokens(seq![last]) =~= node_tokens(last));
    let t4 = component_tokens(c) + seq![close];
    let t3 = seq![open] + t4;
    let t2 = path_tokens(namespace_path) + t3;
    let t1 = seq![namespace_kw] + t2;
    assert(node_tokens(last) =~= t1);
    lemma_reads_split(chars, s, nodes_tokens(ins), t1, s2);
    let x1 = after(chars, s, nodes_tokens(ins).len());
    lemma_take_one(chars, x1, namespace_kw, t2, s2);
    lemma_imports_complete(chars, s, import_paths, x1);
    let x2 = advance(chars, x1)->Ok_0;
    lemma_reads_split(chars, x2, path_tokens(namespace_path), t3, s2);
    let x3 = after(chars, x2, path_tokens(namespace_path).len());
    lemma_take_one(chars, x3, open, t4, s2);
    lemma_path_complete(chars, x2, namespace_path, x3);
    let x4 = advance(chars, x3)->Ok_0;
    lemma_reads_split(chars, x4, component_tokens(c), seq![close], s2);
    let x5 = after(chars, x4, component_tokens(c).len());
    lemma_take_last(chars, x5, close, s2);
    lemma_component_complete(chars, x4, name, parent, g, rs, pv, qs, x5);
}

} // verus!
