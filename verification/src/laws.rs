//! Properties that relate the lexers, the parsers and the generator.
use vstd::prelude::*;

use crate::ast::{AstView, ImplementationView};
use crate::cli::output_plan;
use crate::gen_python::{gather, gather_items, gather_namespace, part_instance, runs_past_end, Gathered};
use crate::modules::common::token::CommonTokenView;
use crate::modules::speadl::grammar::{
    advance,
    component,
    component_body,
    expect,
    ident,
    import_nodes,
    imports,
    kw,
    lemma_advance,
    lemma_expect,
    lemma_ident,
    lemma_part_declaration,
    lemma_path,
    lemma_provided,
    measure,
    namespace,
    part_declaration,
    parts,
    path,
    provided,
    provided_list,
    provides,
    requirements,
    sym,
    Context,
    State,
};
use crate::modules::speadl::parser::{attached, with_parent};
use crate::modules::speadl::token::SpeadlTokenExtension;
use crate::modules::common::lexer::{lemma_skip_ws, skip_ws};
use crate::modules::common::token::TokenView;

verus! {

/// A declaration that the generator turns into Python: a required service, a
/// provided service or a part.
pub open spec fn service_item(a: AstView) -> bool {
    a is Requires || a is Provides || a is Part
}

/// Every item of `v` is a service or part declaration.
pub open spec fn all_service_items(v: Seq<AstView>) -> bool {
    forall|j: int| 0 <= j < v.len() ==> service_item(#[trigger] v[j])
}

proof fn lemma_all_service_items_cons(a: AstView, rest: Seq<AstView>)
    requires
        service_item(a),
        all_service_items(rest),
    ensures
        all_service_items(seq![a] + rest),
{
    assert forall|j: int| 0 <= j < (seq![a] + rest).len() implies service_item(
        #[trigger] (seq![a] + rest)[j],
    ) by {
        if j > 0 {
            assert((seq![a] + rest)[j] == rest[j - 1]);
        }
    }
}

proof fn lemma_gather_items_complete(g: Gathered, items: Seq<AstView>, i: int)
    requires
        0 <= i <= items.len(),
        all_service_items(items),
    ensures
        gather_items(g, items, i).1,
        gather_items(g, items, i).0.imports == g.imports,
    decreases items.len() - i,
{
    if i < items.len() {
        assert(service_item(items[i]));
        match items[i] {
            AstView::Requires { name, typ } => lemma_gather_items_complete(
                Gathered { required: g.required.push((name, typ)), ..g },
                items,
                i + 1,
            ),
            AstView::Provides { name, typ, implementation } => lemma_gather_items_complete(
                Gathered { provided: g.provided.push((name, typ, implementation)), ..g },
                items,
                i + 1,
            ),
            AstView::Part { name, typ, body, .. } => lemma_gather_items_complete(
                match part_instance(name, typ, *body) {
                    Some(p) => Gathered { parts: g.parts.push(p), ..g },
                    None => g,
                },
                items,
                i + 1,
            ),
            _ => {},
        }
    }
}

proof fn lemma_requirements_items(chars: Seq<char>, s: State)
    ensures
        requirements(chars, s) matches Ok((v, _)) ==> all_service_items(v),
    decreases measure(chars, s),
{
    if s.0 == kw(SpeadlTokenExtension::Requires) {
        lemma_advance(chars, s);
        if let Ok(s1) = advance(chars, s) {
            lemma_ident(chars, s1);
            if let Ok((name, s2)) = ident(chars, s1) {
                let colon = sym(CommonTokenView::Colon);
                lemma_expect(chars, s2, colon, Context::AfterRequiredServiceName);
                if let Ok(s3) = expect(chars, s2, colon, Context::AfterRequiredServiceName) {
                    lemma_ident(chars, s3);
                    if let Ok((typ, s4)) = ident(chars, s3) {
                        lemma_requirements_items(chars, s4);
                        if let Ok((rest, _)) = requirements(chars, s4) {
                            lemma_all_service_items_cons(AstView::Requires { name, typ }, rest);
                        }
                    }
                }
            }
        }
    } else {
        assert(all_service_items(Seq::<AstView>::empty()));
    }
}

proof fn lemma_parts_items(chars: Seq<char>, s: State)
    ensures
        parts(chars, s) matches Ok((v, _)) ==> all_service_items(v),
    decreases measure(chars, s),
{
    if s.0 == kw(SpeadlTokenExtension::Part) {
        lemma_advance(chars, s);
        if let Ok(s1) = advance(chars, s) {
            lemma_part_declaration(chars, s1);
            if let Ok((p, s2)) = part_declaration(chars, s1) {
                lemma_parts_items(chars, s2);
                if let Ok((rest, _)) = parts(chars, s2) {
                    lemma_all_service_items_cons(p, rest);
                }
            }
        }
    } else {
        assert(all_service_items(Seq::<AstView>::empty()));
    }
}

proof fn lemma_provided_list_items(chars: Seq<char>, s: State)
    ensures
        provided_list(chars, s) matches Ok((v, _)) ==> all_service_items(v),
    decreases measure(chars, s),
{
    lemma_provided(chars, s);
    if let Ok((p, s1)) = provided(chars, s) {
        assert(service_item(p));
        if s1.0 == kw(SpeadlTokenExtension::Provides) {
            lemma_advance(chars, s1);
            if let Ok(s2) = advance(chars, s1) {
                lemma_provided_list_items(chars, s2);
                if let Ok((rest, _)) = provided_list(chars, s2) {
                    lemma_all_service_items_cons(p, rest);
                }
            }
        } else {
            assert(seq![p] =~= seq![p] + Seq::<AstView>::empty());
            lemma_all_service_items_cons(p, Seq::<AstView>::empty());
        }
    }
}

proof fn lemma_component_body_items(chars: Seq<char>, s: State)
    ensures
        component_body(chars, s) matches Ok((v, _)) ==> all_service_items(v),
{
    lemma_requirements_items(chars, s);
    if let Ok((rs, s1)) = requirements(chars, s) {
        if s1.0 == kw(SpeadlTokenExtension::Provides) {
            if let Ok(s2) = advance(chars, s1) {
                lemma_provided_list_items(chars, s2);
                if let Ok((ps, s3)) = provided_list(chars, s2) {
                    lemma_parts_items(chars, s3);
                    if let Ok((qs, _)) = parts(chars, s3) {
                        let v = rs + (ps + qs);
                        assert forall|j: int| 0 <= j < v.len() implies service_item(#[trigger] v[j]) by {
                            if j < rs.len() {
                                assert(v[j] == rs[j]);
                            } else if j < rs.len() + ps.len() {
                                assert(v[j] == ps[j - rs.len()]);
                            } else {
                                assert(v[j] == qs[j - rs.len() - ps.len()]);
                            }
                        }
                        assert(provides(chars, s1)->Ok_0.0 == ps + qs);
                    }
                }
            }
        }
    }
}

/// The required services that `items` declares, in order.
pub open spec fn required_of(items: Seq<AstView>) -> Seq<(Seq<char>, Seq<char>)>
    decreases items.len(),
{
    if items.len() == 0 {
        Seq::empty()
    } else {
        (match items[0] {
            AstView::Requires { name, typ } => seq![(name, typ)],
            _ => Seq::empty(),
        }) + required_of(items.drop_first())
    }
}

/// The provided services that `items` declares, in order.
pub open spec fn provided_of(items: Seq<AstView>) -> Seq<
    (Seq<char>, Seq<char>, ImplementationView),
>
    decreases items.len(),
{
    if items.len() == 0 {
        Seq::empty()
    } else {
        (match items[0] {
            AstView::Provides { name, typ, implementation } => seq![(name, typ, implementation)],
            _ => Seq::empty(),
        }) + provided_of(items.drop_first())
    }
}

/// The part instances of the parts that `items` declares, in order: one for each
/// part whose body is a sequence.
pub open spec fn parts_of(items: Seq<AstView>) -> Seq<(Seq<char>, Seq<char>, Seq<Seq<char>>)>
    decreases items.len(),
{
    if items.len() == 0 {
        Seq::empty()
    } else {
        (match items[0] {
            AstView::Part { name, typ, body, .. } => match part_instance(name, typ, *body) {
                Some(p) => seq![p],
                None => Seq::empty(),
            },
            _ => Seq::empty(),
        }) + parts_of(items.drop_first())
    }
}

proof fn lemma_gather_items_from(g: Gathered, items: Seq<AstView>, i: int)
    requires
        0 <= i <= items.len(),
    ensures
        gather_items(g, items, i).1 == all_service_items(items.skip(i)),
        all_service_items(items.skip(i)) ==> gather_items(g, items, i).0 == (Gathered {
            required: g.required + required_of(items.skip(i)),
            provided: g.provided + provided_of(items.skip(i)),
            parts: g.parts + parts_of(items.skip(i)),
            ..g
        }),
    decreases items.len() - i,
{
    let rest = items.skip(i);
    if i == items.len() {
        assert(rest.len() == 0);
        assert(g.required + required_of(rest) =~= g.required);
        assert(g.provided + provided_of(rest) =~= g.provided);
        assert(g.parts + parts_of(rest) =~= g.parts);
    } else {
        assert(rest[0] == items[i]);
        assert(rest.drop_first() =~= items.skip(i + 1));
        let tail = items.skip(i + 1);
        assert(all_service_items(rest) == (service_item(items[i]) && all_service_items(tail))) by {
            if all_service_items(rest) {
                assert(service_item(rest[0]));
                assert forall|j: int| 0 <= j < tail.len() implies service_item(#[trigger] tail[j]) by {
                    assert(tail[j] == rest[j + 1]);
                }
            }
            if service_item(items[i]) && all_service_items(tail) {
                assert forall|j: int| 0 <= j < rest.len() implies service_item(#[trigger] rest[j]) by {
                    if j > 0 {
                        assert(rest[j] == tail[j - 1]);
                    }
                }
            }
        }
        match items[i] {
            AstView::Requires { name, typ } => {
                let g1 = Gathered { required: g.required.push((name, typ)), ..g };
                lemma_gather_items_from(g1, items, i + 1);
                assert(g1.required + required_of(tail) =~= g.required + required_of(rest));
                assert(provided_of(rest) =~= provided_of(tail));
                assert(parts_of(rest) =~= parts_of(tail));
            },
            AstView::Provides { name, typ, implementation } => {
                let g1 = Gathered { provided: g.provided.push((name, typ, implementation)), ..g };
                lemma_gather_items_from(g1, items, i + 1);
                assert(g1.provided + provided_of(tail) =~= g.provided + provided_of(rest));
                assert(required_of(rest) =~= required_of(tail));
                assert(parts_of(rest) =~= parts_of(tail));
            },
            AstView::Part { name, typ, body, .. } => {
                let g1 = match part_instance(name, typ, *body) {
                    Some(p) => Gathered { parts: g.parts.push(p), ..g },
                    None => g,
                };
                lemma_gather_items_from(g1, items, i + 1);
                assert(g1.parts + parts_of(tail) =~= g.parts + parts_of(rest));
                assert(required_of(rest) =~= required_of(tail));
                assert(provided_of(rest) =~= provided_of(tail));
            },
            _ => {
                assert(!service_item(items[i]));
            },
        }
    }
}

/// Gathering a component body keeps every declaration: the body is accepted exactly
/// when each of its items is a required service, a provided service or a part, and
/// then the required services, the provided services and the part instances come
/// out one per declaration, in the order of the body, after what was gathered
/// before. So the Python class gets one constructor line for each declared part and
/// one method for each provided service.
pub proof fn law_gather_keeps_every_declaration(g: Gathered, items: Seq<AstView>)
    ensures
        gather_items(g, items, 0).1 == all_service_items(items),
        all_service_items(items) ==> gather_items(g, items, 0).0 == (Gathered {
            required: g.required + required_of(items),
            provided: g.provided + provided_of(items),
            parts: g.parts + parts_of(items),
            ..g
        }),
{
    lemma_gather_items_from(g, items, 0);
    assert(items.skip(0) =~= items);
}

/// Every path in `ps` has at least one segment.
pub open spec fn all_nonempty(ps: Seq<Seq<Seq<char>>>) -> bool {
    forall|j: int| 0 <= j < ps.len() ==> (#[trigger] ps[j]).len() > 0
}

proof fn lemma_imports_nonempty(chars: Seq<char>, s: State)
    ensures
        imports(chars, s) matches Ok((ps, _)) ==> all_nonempty(ps),
    decreases measure(chars, s),
{
    if s.0 == kw(SpeadlTokenExtension::Import) {
        lemma_advance(chars, s);
        if let Ok(s1) = advance(chars, s) {
            lemma_path(chars, s1);
            if let Ok((p, s2)) = path(chars, s1) {
                lemma_imports_nonempty(chars, s2);
                if let Ok((rest, _)) = imports(chars, s2) {
                    let v = seq![p] + rest;
                    assert forall|j: int| 0 <= j < v.len() implies (#[trigger] v[j]).len() > 0 by {
                        if j > 0 {
                            assert(v[j] == rest[j - 1]);
                        }
                    }
                }
            }
        }
    }
}

proof fn lemma_gather_imports(g: Gathered, ps: Seq<Seq<Seq<char>>>, last: AstView, i: int)
    requires
        0 <= i <= ps.len(),
    ensures
        gather_namespace(g, import_nodes(ps) + seq![last], i) == gather_namespace(
            Gathered { imports: g.imports + ps.subrange(i, ps.len() as int), ..g },
            import_nodes(ps) + seq![last],
            ps.len() as int,
        ),
    decreases ps.len() - i,
{
    let nodes = import_nodes(ps) + seq![last];
    if i < ps.len() {
        assert(nodes[i] == AstView::Import { path: ps[i], ast: None });
        let g1 = Gathered { imports: g.imports.push(ps[i]), ..g };
        lemma_gather_imports(g1, ps, last, i + 1);
        assert(g1.imports + ps.subrange(i + 1, ps.len() as int) =~= g.imports + ps.subrange(
            i,
            ps.len() as int,
        ));
    } else {
        assert(g.imports + ps.subrange(i, ps.len() as int) =~= g.imports);
        assert(Gathered { imports: g.imports, ..g } == g);
    }
}

/// Every file that the SpeADL parser parses can be handed to the generator, and
/// the generator then writes a Python file for it: the top-level sequence ends
/// with the namespace, every import names a non-empty path, and the component body
/// holds only service and part declarations.
pub proof fn law_parsed_file_generates(chars: Seq<char>, s: State, g: Gathered)
    requires
        namespace(chars, s) is Ok,
        all_nonempty(g.imports),
    ensures
        !runs_past_end(namespace(chars, s)->Ok_0.0),
        gather(g, namespace(chars, s)->Ok_0.0).1,
        all_nonempty(gather(g, namespace(chars, s)->Ok_0.0).0.imports),
{
    let (ps, s1) = imports(chars, s)->Ok_0;
    let s2 = expect(chars, s1, kw(SpeadlTokenExtension::Namespace), Context::BeforeNamespacePath)->Ok_0;
    let (np, s3) = path(chars, s2)->Ok_0;
    let s4 = expect(chars, s3, sym(CommonTokenView::Lbrace), Context::BeforeNamespaceBody)->Ok_0;
    let (c, s5) = component(chars, s4)->Ok_0;
    let last = AstView::Namespace { path: np, body: Box::new(c) };
    let nodes = import_nodes(ps) + seq![last];
    assert(namespace(chars, s)->Ok_0.0 == AstView::SEQ(nodes));
    assert(nodes[nodes.len() - 1] == last);
    lemma_imports_nonempty(chars, s);
    lemma_gather_imports(g, ps, last, 0);
    assert(ps.subrange(0, ps.len() as int) =~= ps);
    let g2 = Gathered { imports: g.imports + ps, ..g };
    assert(nodes[ps.len() as int] == last);
    let g3 = Gathered { path: np, ..g2 };
    // the component
    let t1 = expect(chars, s4, kw(SpeadlTokenExtension::Component), Context::BeforeComponentName)->Ok_0;
    let (name, t2) = ident(chars, t1)->Ok_0;
    let (sp, t3) = crate::modules::speadl::grammar::specialization(chars, t2)->Ok_0;
    let (gn, t4) = crate::modules::speadl::grammar::generic(chars, t3)->Ok_0;
    let t5 = expect(chars, t4, sym(CommonTokenView::Lbrace), Context::BeforeComponentBody)->Ok_0;
    let (items, t6) = component_body(chars, t5)->Ok_0;
    assert(c == AstView::Component {
        name,
        specializes: sp,
        generic: gn,
        body: Box::new(AstView::SEQ(items)),
    });
    lemma_component_body_items(chars, t5);
    let g4 = Gathered { component_name: name, ..g3 };
    lemma_gather_items_complete(g4, items, 0);
    assert forall|j: int| 0 <= j < g2.imports.len() implies (#[trigger] g2.imports[j]).len() > 0 by {
        if j < g.imports.len() {
            assert(g2.imports[j] == g.imports[j]);
        } else {
            assert(g2.imports[j] == ps[j - g.imports.len()]);
        }
    }
}

/// Linking a parsed file with no parent file changes nothing: the parser itself
/// leaves the parent's file unknown.
pub proof fn law_no_parent_file_keeps_tree(chars: Seq<char>, s: State)
    requires
        namespace(chars, s) is Ok,
    ensures
        with_parent(namespace(chars, s)->Ok_0.0, None) == namespace(chars, s)->Ok_0.0,
{
    let (ps, s1) = imports(chars, s)->Ok_0;
    let s2 = expect(chars, s1, kw(SpeadlTokenExtension::Namespace), Context::BeforeNamespacePath)->Ok_0;
    let (np, s3) = path(chars, s2)->Ok_0;
    let s4 = expect(chars, s3, sym(CommonTokenView::Lbrace), Context::BeforeNamespaceBody)->Ok_0;
    let (c, s5) = component(chars, s4)->Ok_0;
    let last = AstView::Namespace { path: np, body: Box::new(c) };
    let nodes = import_nodes(ps) + seq![last];
    assert(namespace(chars, s)->Ok_0.0 == AstView::SEQ(nodes));
    assert(nodes.last() == last);
    assert(nodes.drop_last() + seq![last] =~= nodes);
    let t1 = expect(chars, s4, kw(SpeadlTokenExtension::Component), Context::BeforeComponentName)->Ok_0;
    let (name, t2) = ident(chars, t1)->Ok_0;
    let (sp, t3) = crate::modules::speadl::grammar::specialization(chars, t2)->Ok_0;
    if let Some((parent, file)) = sp {
        assert(file is None);
        assert(attached(nodes.drop_last(), c) == nodes.drop_last());
    }
}

/// The lexers ignore the whitespace before a token: reading from a position gives
/// the same token, and the same position after it, as reading from the first
/// character that is not whitespace.
pub proof fn law_whitespace_before_token_is_ignored(chars: Seq<char>, pos: int)
    ensures
        crate::modules::speadl::lexer::step(chars, pos) == crate::modules::speadl::lexer::step(
            chars,
            skip_ws(chars, pos),
        ),
        crate::modules::java::lexer::step(chars, pos) == crate::modules::java::lexer::step(
            chars,
            skip_ws(chars, pos),
        ),
{
    lemma_skip_ws(chars, pos);
    let q = skip_ws(chars, pos);
    lemma_skip_ws(chars, q);
    assert(skip_ws(chars, q) == q);
}

/// SpeADL keywords are reserved: an identifier token is a non-empty word that
/// spells no keyword.
pub proof fn law_speadl_identifiers_are_not_keywords(chars: Seq<char>, pos: int)
    ensures
        crate::modules::speadl::lexer::step(chars, pos) matches Ok(
            (TokenView::Common(CommonTokenView::Identifier(w)), _),
        ) ==> {
            &&& w.len() > 0
            &&& w != "import"@ && w != "namespace"@ && w != "component"@
            &&& w != "specializes"@ && w != "provides"@ && w != "requires"@
            &&& w != "part"@ && w != "bind"@ && w != "to"@
        },
{
    let p = skip_ws(chars, pos);
    lemma_skip_ws(chars, pos);
    crate::modules::common::lexer::lemma_word_end(chars, p);
}

/// Java keywords are reserved: an identifier token is a non-empty word that spells
/// no keyword.
pub proof fn law_java_identifiers_are_not_keywords(chars: Seq<char>, pos: int)
    ensures
        crate::modules::java::lexer::step(chars, pos) matches Ok(
            (TokenView::Common(CommonTokenView::Identifier(w)), _),
        ) ==> {
            &&& w.len() > 0
            &&& w != "package"@ && w != "public"@ && w != "class"@
        },
{
    let p = skip_ws(chars, pos);
    lemma_skip_ws(chars, pos);
    crate::modules::common::lexer::lemma_word_end(chars, p);
}

/// When the output paths are accepted, each input file gets exactly one of them.
pub proof fn law_one_output_per_input(
    outputs: Seq<Seq<char>>,
    input_count: nat,
    single_output_is_file: bool,
)
    ensures
        output_plan(outputs, input_count, single_output_is_file) matches Ok(v) ==> v.len()
            == input_count,
{
}

} // verus!
