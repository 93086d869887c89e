//! What a Java parse reads: the tokens consumed while parsing a class are exactly
//! the tokens that print the tree it yields.
use vstd::prelude::*;

use super::grammar::{
    access,
    advance,
    class,
    expect,
    function,
    ident,
    kw,
    lemma_advance,
    lemma_expect,
    lemma_ident,
    measure,
    packages,
    sym,
    Context,
    Fault,
    State,
};
use super::token::{JavaTokenExtension, Tok};
use crate::ast::AstView;
use crate::modules::common::token::{CommonTokenView, TokenView};

verus! {

/// The identifier token `n`.
pub open spec fn id(n: Seq<char>) -> Tok {
    TokenView::Common(CommonTokenView::Identifier(n))
}

/// From state `s`, the lexer reads the tokens `toks` one after the other (the first
/// being the current token) and ends in state `s2`.
pub open spec fn reads(chars: Seq<char>, s: State, toks: Seq<Tok>, s2: State) -> bool
    decreases toks.len(),
{
    if toks.len() == 0 {
        s2 == s
    } else {
        &&& toks[0] == s.0
        &&& advance(chars, s) matches Ok(s1) && reads(chars, s1, toks.drop_first(), s2)
    }
}

pub proof fn lemma_reads_cat(
    chars: Seq<char>,
    s: State,
    a: Seq<Tok>,
    s1: State,
    b: Seq<Tok>,
    s2: State,
)
    requires
        reads(chars, s, a, s1),
        reads(chars, s1, b, s2),
    ensures
        reads(chars, s, a + b, s2),
    decreases a.len(),
{
    if a.len() == 0 {
        assert(a + b =~= b);
    } else {
        let t = advance(chars, s)->Ok_0;
        lemma_reads_cat(chars, t, a.drop_first(), s1, b, s2);
        assert((a + b).drop_first() =~= a.drop_first() + b);
    }
}

proof fn lemma_reads_one(chars: Seq<char>, s: State)
    requires
        advance(chars, s) is Ok,
    ensures
        reads(chars, s, seq![s.0], advance(chars, s)->Ok_0),
{
    let s1 = advance(chars, s)->Ok_0;
    assert(seq![s.0].drop_first() =~= Seq::<Tok>::empty());
    assert(reads(chars, s1, Seq::<Tok>::empty(), s1));
}

proof fn lemma_expect_reads(chars: Seq<char>, s: State, t: Tok, c: Context)
    ensures
        expect(chars, s, t, c) matches Ok(s1) ==> reads(chars, s, seq![t], s1),
{
    if expect(chars, s, t, c) is Ok {
        lemma_reads_one(chars, s);
    }
}

proof fn lemma_ident_reads(chars: Seq<char>, s: State)
    ensures
        ident(chars, s) matches Ok((n, s1)) ==> reads(chars, s, seq![id(n)], s1),
{
    if ident(chars, s) is Ok {
        lemma_reads_one(chars, s);
    }
}

/// The tokens of an access modifier: `public`, or nothing.
pub open spec fn access_tokens(a: Option<Seq<char>>) -> Seq<Tok> {
    match a {
        Some(_) => seq![kw(JavaTokenExtension::Public)],
        None => Seq::empty(),
    }
}

/// An access modifier is absent or `public`.
pub open spec fn valid_access(a: Option<Seq<char>>) -> bool {
    a is None || a == Some("public"@)
}

/// The tokens of a method `access Type name() {}`.
pub open spec fn function_tokens(f: AstView) -> Seq<Tok> {
    match f {
        AstView::Function { name, typ, access, .. } => access_tokens(access) + seq![
            id(typ),
            id(name),
            sym(CommonTokenView::Lparentheses),
            sym(CommonTokenView::Rparentheses),
            sym(CommonTokenView::Lbrace),
            sym(CommonTokenView::Rbrace),
        ],
        _ => Seq::empty(),
    }
}

/// The tokens of package declarations `package name;`, one after the other.
pub open spec fn package_tokens(ps: Seq<AstView>) -> Seq<Tok>
    decreases ps.len(),
{
    if ps.len() == 0 {
        Seq::empty()
    } else {
        (match ps[0] {
            AstView::Package { name } => seq![
                kw(JavaTokenExtension::Package),
                id(name),
                sym(CommonTokenView::Semicolon),
            ],
            _ => Seq::empty(),
        }) + package_tokens(ps.drop_first())
    }
}

/// The tokens of a class declaration `access class Name { method }`.
pub open spec fn class_decl_tokens(c: AstView) -> Seq<Tok> {
    match c {
        AstView::Class { name, access, body } => access_tokens(access) + seq![
            kw(JavaTokenExtension::Class),
            id(name),
            sym(CommonTokenView::Lbrace),
        ] + function_tokens(*body) + seq![sym(CommonTokenView::Rbrace)],
        _ => Seq::empty(),
    }
}

/// The tokens of a whole file: its package declarations, then its class.
pub open spec fn file_tokens(tree: AstView) -> Seq<Tok> {
    match tree {
        AstView::SEQ(nodes) => if nodes.len() == 0 {
            Seq::empty()
        } else {
            package_tokens(nodes.drop_last()) + class_decl_tokens(nodes.last())
        },
        _ => Seq::empty(),
    }
}

/// The shape of the tree of a file: package declarations, then one class whose
/// body is one method without a body; each access modifier is absent or `public`.
pub open spec fn file_shape(tree: AstView) -> bool {
    &&& tree is SEQ
    &&& tree->SEQ_0.len() > 0
    &&& forall|j: int|
        0 <= j < tree->SEQ_0.len() - 1 ==> #[trigger] tree->SEQ_0[j] is Package
    &&& class_shape(tree->SEQ_0.last())
}

/// A class whose access modifier is absent or `public`, and whose body is one
/// method without a body.
pub open spec fn class_shape(c: AstView) -> bool {
    match c {
        AstView::Class { access, body, .. } => valid_access(access) && function_shape(*body),
        _ => false,
    }
}

/// A method without a body whose access modifier is absent or `public`.
pub open spec fn function_shape(f: AstView) -> bool {
    match f {
        AstView::Function { access, body, .. } => valid_access(access) && body is None,
        _ => false,
    }
}

proof fn lemma_access_reads(chars: Seq<char>, s: State)
    ensures
        access(chars, s) matches Ok((a, s1)) ==> reads(chars, s, access_tokens(a), s1)
            && valid_access(a),
{
    if s.0 == kw(JavaTokenExtension::Public) {
        if advance(chars, s) is Ok {
            lemma_reads_one(chars, s);
        }
    }
}

proof fn lemma_function_reads(chars: Seq<char>, s: State)
    ensures
        function(chars, s) matches Ok((f, s1)) ==> {
            &&& reads(chars, s, function_tokens(f), s1)
            &&& function_shape(f)
        },
{
    if let Ok((f, s7)) = function(chars, s) {
        let (acc, s1) = access(chars, s)->Ok_0;
        let (typ, s2) = ident(chars, s1)->Ok_0;
        let (name, s3) = ident(chars, s2)->Ok_0;
        let s4 = expect(chars, s3, sym(CommonTokenView::Lparentheses), Context::AfterFunctionName)->Ok_0;
        let s5 = expect(chars, s4, sym(CommonTokenView::Rparentheses), Context::AfterFunctionParameterList)->Ok_0;
        let s6 = expect(chars, s5, sym(CommonTokenView::Lbrace), Context::BeforeFunctionBody)->Ok_0;
        lemma_access_reads(chars, s);
        lemma_ident_reads(chars, s1);
        lemma_ident_reads(chars, s2);
        lemma_expect_reads(chars, s3, sym(CommonTokenView::Lparentheses), Context::AfterFunctionName);
        lemma_expect_reads(chars, s4, sym(CommonTokenView::Rparentheses), Context::AfterFunctionParameterList);
        lemma_expect_reads(chars, s5, sym(CommonTokenView::Lbrace), Context::BeforeFunctionBody);
        lemma_expect_reads(chars, s6, sym(CommonTokenView::Rbrace), Context::AfterFunctionBody);
        let t1 = access_tokens(acc);
        let t2 = t1 + seq![id(typ)];
        let t3 = t2 + seq![id(name)];
        let t4 = t3 + seq![sym(CommonTokenView::Lparentheses)];
        let t5 = t4 + seq![sym(CommonTokenView::Rparentheses)];
        let t6 = t5 + seq![sym(CommonTokenView::Lbrace)];
        let t7 = t6 + seq![sym(CommonTokenView::Rbrace)];
        lemma_reads_cat(chars, s, t1, s1, seq![id(typ)], s2);
        lemma_reads_cat(chars, s, t2, s2, seq![id(name)], s3);
        lemma_reads_cat(chars, s, t3, s3, seq![sym(CommonTokenView::Lparentheses)], s4);
        lemma_reads_cat(chars, s, t4, s4, seq![sym(CommonTokenView::Rparentheses)], s5);
        lemma_reads_cat(chars, s, t5, s5, seq![sym(CommonTokenView::Lbrace)], s6);
        lemma_reads_cat(chars, s, t6, s6, seq![sym(CommonTokenView::Rbrace)], s7);
        assert(t7 =~= function_tokens(f));
    }
}

proof fn lemma_packages_reads(chars: Seq<char>, s: State)
    ensures
        packages(chars, s) matches Ok((ps, s1)) ==> {
            &&& reads(chars, s, package_tokens(ps), s1)
            &&& forall|j: int| 0 <= j < ps.len() ==> #[trigger] ps[j] is Package
        },
    decreases measure(chars, s),
{
    if s.0 == kw(JavaTokenExtension::Package) {
        lemma_advance(chars, s);
        if let Ok(s1) = advance(chars, s) {
            lemma_ident(chars, s1);
            if let Ok((name, s2)) = ident(chars, s1) {
                let semi = sym(CommonTokenView::Semicolon);
                lemma_expect(chars, s2, semi, Context::AfterPackageDeclaration);
                if let Ok(s3) = expect(chars, s2, semi, Context::AfterPackageDeclaration) {
                    lemma_packages_reads(chars, s3);
                    if let Ok((rest, s4)) = packages(chars, s3) {
                        lemma_reads_one(chars, s);
                        lemma_ident_reads(chars, s1);
                        lemma_expect_reads(chars, s2, semi, Context::AfterPackageDeclaration);
                        let head = seq![kw(JavaTokenExtension::Package), id(name), semi];
                        lemma_reads_cat(chars, s, seq![kw(JavaTokenExtension::Package)], s1, seq![id(name)], s2);
                        assert(seq![kw(JavaTokenExtension::Package)] + seq![id(name)] =~= seq![kw(JavaTokenExtension::Package), id(name)]);
                        lemma_reads_cat(chars, s, seq![kw(JavaTokenExtension::Package), id(name)], s2, seq![semi], s3);
                        assert(seq![kw(JavaTokenExtension::Package), id(name)] + seq![semi] =~= head);
                        lemma_reads_cat(chars, s, head, s3, package_tokens(rest), s4);
                        let ps = seq![AstView::Package { name }] + rest;
                        assert(ps.drop_first() =~= rest);
                        assert(ps[0] == AstView::Package { name });
                        assert(package_tokens(ps) == head + package_tokens(rest));
                        assert forall|j: int| 0 <= j < ps.len() implies #[trigger] ps[j] is Package by {
                            if j > 0 {
                                assert(ps[j] == rest[j - 1]);
                            }
                        }
                    }
                }
            }
        }
    } else {
        assert(reads(chars, s, Seq::<Tok>::empty(), s));
    }
}

/// Parsing a file reads back its tree. When the parser accepts a file from state
/// `s` and stops in state `s2`, the tree is a run of package declarations and then
/// one class holding one method, and the tokens read from `s` to `s2` are exactly
/// the tokens of that tree, in order: `package name;` for each package, then the
/// class's modifier, `class`, its name, `{`, the method's modifier, its type, its
/// name, `() {}`, and `}`. So the class is recorded as `public` exactly when
/// `public` stands directly before `class`, whatever the method's own modifier, and
/// the method is recorded as `public` exactly when `public` stands before its type.
pub proof fn law_class_reads_back(chars: Seq<char>, s: State)
    ensures
        class(chars, s) matches Ok((tree, s2)) ==> {
            &&& file_shape(tree)
            &&& reads(chars, s, file_tokens(tree), s2)
        },
{
    if let Ok((tree, s7)) = class(chars, s) {
        let (ps, s1) = packages(chars, s)->Ok_0;
        let (acc, s2) = access(chars, s1)->Ok_0;
        let s3 = expect(chars, s2, kw(JavaTokenExtension::Class), Context::BeforeClassName)->Ok_0;
        let (name, s4) = ident(chars, s3)->Ok_0;
        let s5 = expect(chars, s4, sym(CommonTokenView::Lbrace), Context::BeforeClassBody)->Ok_0;
        let (f, s6) = function(chars, s5)->Ok_0;
        lemma_packages_reads(chars, s);
        lemma_access_reads(chars, s1);
        lemma_expect_reads(chars, s2, kw(JavaTokenExtension::Class), Context::BeforeClassName);
        lemma_ident_reads(chars, s3);
        lemma_expect_reads(chars, s4, sym(CommonTokenView::Lbrace), Context::BeforeClassBody);
        lemma_function_reads(chars, s5);
        lemma_expect_reads(chars, s6, sym(CommonTokenView::Rbrace), Context::AfterClassBody);
        let c = AstView::Class { name, access: acc, body: Box::new(f) };
        let nodes = ps + seq![c];
        assert(tree == AstView::SEQ(nodes));
        assert(nodes.drop_last() =~= ps);
        assert(nodes.last() == c);
        assert forall|j: int| 0 <= j < nodes.len() - 1 implies #[trigger] nodes[j] is Package by {
            assert(nodes[j] == ps[j]);
        }
        let t1 = package_tokens(ps);
        let t2 = t1 + access_tokens(acc);
        let t3 = t2 + seq![kw(JavaTokenExtension::Class)];
        let t4 = t3 + seq![id(name)];
        let t5 = t4 + seq![sym(CommonTokenView::Lbrace)];
        let t6 = t5 + function_tokens(f);
        let t7 = t6 + seq![sym(CommonTokenView::Rbrace)];
        lemma_reads_cat(chars, s, t1, s1, access_tokens(acc), s2);
        lemma_reads_cat(chars, s, t2, s2, seq![kw(JavaTokenExtension::Class)], s3);
        lemma_reads_cat(chars, s, t3, s3, seq![id(name)], s4);
        lemma_reads_cat(chars, s, t4, s4, seq![sym(CommonTokenView::Lbrace)], s5);
        lemma_reads_cat(chars, s, t5, s5, function_tokens(f), s6);
        lemma_reads_cat(chars, s, t6, s6, seq![sym(CommonTokenView::Rbrace)], s7);
        assert(t7 =~= file_tokens(tree));
    }
}

/// The state reached from `s` after reading `n` tokens.
pub open spec fn after(chars: Seq<char>, s: State, n: nat) -> State
    decreases n,
{
    if n == 0 {
        s
    } else {
        match advance(chars, s) {
            Ok(s1) => after(chars, s1, (n - 1) as nat),
            Err(_) => s,
        }
    }
}

proof fn lemma_reads_split(chars: Seq<char>, s: State, a: Seq<Tok>, b: Seq<Tok>, s2: State)
    requires
        reads(chars, s, a + b, s2),
    ensures
        reads(chars, s, a, after(chars, s, a.len())),
        reads(chars, after(chars, s, a.len()), b, s2),
    decreases a.len(),
{
    if a.len() == 0 {
        assert(a + b =~= b);
    } else {
        assert((a + b).drop_first() =~= a.drop_first() + b);
        assert((a + b)[0] == a[0]);
        let s1 = advance(chars, s)->Ok_0;
        lemma_reads_split(chars, s1, a.drop_first(), b, s2);
    }
}

proof fn lemma_take_one(chars: Seq<char>, s: State, t: Tok, rest: Seq<Tok>, s2: State)
    requires
        reads(chars, s, seq![t] + rest, s2),
    ensures
        s.0 == t,
        advance(chars, s) is Ok,
        reads(chars, advance(chars, s)->Ok_0, rest, s2),
{
    assert((seq![t] + rest).drop_first() =~= rest);
    assert((seq![t] + rest)[0] == t);
}

proof fn lemma_take_last(chars: Seq<char>, s: State, t: Tok, s2: State)
    requires
        reads(chars, s, seq![t], s2),
    ensures
        s.0 == t,
        advance(chars, s) == Ok::<State, Fault>(s2),
{
    assert(seq![t].drop_first() =~= Seq::<Tok>::empty());
    assert(reads(chars, advance(chars, s)->Ok_0, Seq::<Tok>::empty(), s2));
}

/// The package declarations with the given names.
pub open spec fn package_nodes(names: Seq<Seq<char>>) -> Seq<AstView> {
    names.map_values(|n: Seq<char>| AstView::Package { name: n })
}

/// The tree of a file: package declarations with the given names, then a class
/// holding one method without a body.
pub open spec fn class_file_tree(
    package_names: Seq<Seq<char>>,
    class_access: Option<Seq<char>>,
    class_name: Seq<char>,
    method_access: Option<Seq<char>>,
    method_type: Seq<char>,
    method_name: Seq<char>,
) -> AstView {
    AstView::SEQ(
        package_nodes(package_names) + seq![
            AstView::Class {
                name: class_name,
                access: class_access,
                body: Box::new(
                    AstView::Function {
                        name: method_name,
                        typ: method_type,
                        access: method_access,
                        body: None,
                    },
                ),
            },
        ],
    )
}

proof fn lemma_access_complete(chars: Seq<char>, s: State, a: Option<Seq<char>>, s1: State)
    requires
        valid_access(a),
        reads(chars, s, access_tokens(a), s1),
        a is None ==> s1.0 != kw(JavaTokenExtension::Public),
    ensures
        access(chars, s) == Ok::<(Option<Seq<char>>, State), Fault>((a, s1)),
{
    if a is Some {
        lemma_take_last(chars, s, kw(JavaTokenExtension::Public), s1);
    }
}

proof fn lemma_packages_complete(chars: Seq<char>, s: State, names: Seq<Seq<char>>, s1: State)
    requires
        reads(chars, s, package_tokens(package_nodes(names)), s1),
        s1.0 != kw(JavaTokenExtension::Package),
    ensures
        packages(chars, s) == Ok::<(Seq<AstView>, State), Fault>((package_nodes(names), s1)),
    decreases names.len(),
{
    if names.len() == 0 {
        assert(package_nodes(names) =~= Seq::<AstView>::empty());
    } else {
        let package = kw(JavaTokenExtension::Package);
        let semi = sym(CommonTokenView::Semicolon);
        let n = names[0];
        let rest = names.drop_first();
        let nodes = package_nodes(names);
        assert(nodes.drop_first() =~= package_nodes(rest));
        assert(nodes[0] == AstView::Package { name: n });
        let tail = package_tokens(package_nodes(rest));
        let t2 = seq![semi] + tail;
        let t1 = seq![id(n)] + t2;
        assert(package_tokens(nodes) =~= seq![package] + t1);
        lemma_take_one(chars, s, package, t1, s1);
        let x1 = advance(chars, s)->Ok_0;
        lemma_take_one(chars, x1, id(n), t2, s1);
        let x2 = advance(chars, x1)->Ok_0;
        lemma_take_one(chars, x2, semi, tail, s1);
        let x3 = advance(chars, x2)->Ok_0;
        lemma_packages_complete(chars, x3, rest, s1);
        assert(seq![AstView::Package { name: n }] + package_nodes(rest) =~= nodes);
    }
}

proof fn lemma_function_complete(chars: Seq<char>, s: State, f: AstView, s1: State)
    requires
        function_shape(f),
        reads(chars, s, function_tokens(f), s1),
    ensures
        function(chars, s) == Ok::<(AstView, State), Fault>((f, s1)),
{
    let open = sym(CommonTokenView::Lbrace);
    let close = sym(CommonTokenView::Rbrace);
    let lpar = sym(CommonTokenView::Lparentheses);
    let rpar = sym(CommonTokenView::Rparentheses);
    let method_access = f->Function_access;
    let u5 = seq![open] + seq![close];
    let u4 = seq![rpar] + u5;
    let u3 = seq![lpar] + u4;
    let u2 = seq![id(f->Function_name)] + u3;
    let u1 = seq![id(f->Function_typ)] + u2;
    assert(function_tokens(f) =~= access_tokens(method_access) + u1);
    lemma_reads_split(chars, s, access_tokens(method_access), u1, s1);
    let x1 = after(chars, s, access_tokens(method_access).len());
    lemma_take_one(chars, x1, id(f->Function_typ), u2, s1);
    lemma_access_complete(chars, s, method_access, x1);
    let x2 = advance(chars, x1)->Ok_0;
    lemma_take_one(chars, x2, id(f->Function_name), u3, s1);
    let x3 = advance(chars, x2)->Ok_0;
    lemma_take_one(chars, x3, lpar, u4, s1);
    let x4 = advance(chars, x3)->Ok_0;
    lemma_take_one(chars, x4, rpar, u5, s1);
    let x5 = advance(chars, x4)->Ok_0;
    lemma_take_one(chars, x5, open, seq![close], s1);
    let x6 = advance(chars, x5)->Ok_0;
    lemma_take_last(chars, x6, close, s1);
}

/// Parsing gives back what printing wrote. Take the tree of a file: package
/// declarations, then a class, `public` or not, holding one method, `public` or
/// not, without a body. When the lexer reads exactly the tokens of that tree from
/// state `s` to state `s2`, the parser returns that very tree and stops in `s2`:
/// in particular the class keeps its own modifier, whatever the method's.
pub proof fn law_printed_class_parses_back(
    chars: Seq<char>,
    s: State,
    package_names: Seq<Seq<char>>,
    class_access: Option<Seq<char>>,
    class_name: Seq<char>,
    method_access: Option<Seq<char>>,
    method_type: Seq<char>,
    method_name: Seq<char>,
    s2: State,
)
    requires
        valid_access(class_access),
        valid_access(method_access),
        reads(
            chars,
            s,
            file_tokens(
                class_file_tree(
                    package_names,
                    class_access,
                    class_name,
                    method_access,
                    method_type,
                    method_name,
                ),
            ),
            s2,
        ),
    ensures
        class(chars, s) == Ok::<(AstView, State), Fault>(
            (
                class_file_tree(
                    package_names,
                    class_access,
                    class_name,
                    method_access,
                    method_type,
                    method_name,
                ),
                s2,
            ),
        ),
{
    let tree = class_file_tree(
        package_names,
        class_access,
        class_name,
        method_access,
        method_type,
        method_name,
    );
    let public = kw(JavaTokenExtension::Public);
    let class_kw = kw(JavaTokenExtension::Class);
    let open = sym(CommonTokenView::Lbrace);
    let close = sym(CommonTokenView::Rbrace);
    let f = AstView::Function {
        name: method_name,
        typ: method_type,
        access: method_access,
        body: None,
    };
    let c = AstView::Class { name: class_name, access: class_access, body: Box::new(f) };
    let pk = package_tokens(package_nodes(package_names));
    let nodes = package_nodes(package_names) + seq![c];
    assert(nodes.drop_last() =~= package_nodes(package_names));
    assert(nodes.last() == c);
    let t4 = function_tokens(f) + seq![close];
    let t3 = seq![open] + t4;
    let t2 = seq![id(class_name)] + t3;
    let t1 = seq![class_kw] + t2;
    let t0 = access_tokens(class_access) + t1;
    assert(file_tokens(tree) =~= pk + t0);
    lemma_reads_split(chars, s, pk, t0, s2);
    let x1 = after(chars, s, pk.len());
    assert(t0[0] == public || t0[0] == class_kw);
    assert(reads(chars, x1, t0, s2));
    lemma_packages_complete(chars, s, package_names, x1);
    lemma_reads_split(chars, x1, access_tokens(class_access), t1, s2);
    let x2 = after(chars, x1, access_tokens(class_access).len());
    lemma_take_one(chars, x2, class_kw, t2, s2);
    lemma_access_complete(chars, x1, class_access, x2);
    let x3 = advance(chars, x2)->Ok_0;
    lemma_take_one(chars, x3, id(class_name), t3, s2);
    let x4 = advance(chars, x3)->Ok_0;
    lemma_take_one(chars, x4, open, t4, s2);
    let x5 = advance(chars, x4)->Ok_0;
    lemma_reads_split(chars, x5, function_tokens(f), seq![close], s2);
    let x6 = after(chars, x5, function_tokens(f).len());
    lemma_take_last(chars, x6, close, s2);
    lemma_function_complete(chars, x5, f, x6);
    assert(package_nodes(package_names) + seq![c] =~= tree->SEQ_0);
}

} // verus!
