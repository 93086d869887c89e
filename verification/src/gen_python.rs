//! Generation of a Python class from the tree of a SpeADL file.
use vstd::prelude::*;
use vstd::string::StringExecFns;

use crate::ast::{
    copy_strings,
    texts,
    values,
    Ast,
    AstView,
    ImplementationView,
    ProvidedServiceImplementation,
};

verus! {

/// What the generator has gathered from the trees it has walked.
#[verifier::ext_equal]
pub struct Gathered {
    /// The path of the namespace.
    pub path: Seq<Seq<char>>,
    /// The paths of the imports, in order.
    pub imports: Seq<Seq<Seq<char>>>,
    /// The name of the component, which becomes the name of the class.
    pub component_name: Seq<char>,
    /// The required services: name and type.
    pub required: Seq<(Seq<char>, Seq<char>)>,
    /// The provided services: name, type and implementation.
    pub provided: Seq<(Seq<char>, Seq<char>, ImplementationView)>,
    /// The part instances: name, type and the target of their first binding.
    pub parts: Seq<(Seq<char>, Seq<char>, Seq<Seq<char>>)>,
}

/// A Python source file to write: `directory` (one name per level), the file's
/// name, and its text.
#[derive(Debug, PartialEq, Eq)]
pub struct PythonModule {
    pub directory: Vec<String>,
    pub file_name: String,
    pub source: String,
}

struct ImportList {
    path: Vec<String>,
}

struct RequiredService {
    name: String,
    typ: String,
}

struct ProvidedService {
    name: String,
    typ: String,
    implementation: ProvidedServiceImplementation,
}

struct PartInstance {
    name: String,
    typ: String,
    target: Vec<String>,
}

/// Generates a Python class from the tree of a SpeADL file.
pub struct GenPython {
    ast: Ast,
    path: Vec<String>,
    imports: Vec<ImportList>,
    component_name: String,
    required_services: Vec<RequiredService>,
    provided_services: Vec<ProvidedService>,
    part_instances: Vec<PartInstance>,
}

/// The part instance that a part declaration yields: named after its first binding
/// and aimed at that binding's target, or named after the part with no target when
/// its body holds no binding first. A body that is no sequence yields none.
pub open spec fn part_instance(
    name: Seq<char>,
    typ: Seq<char>,
    body: AstView,
) -> Option<(Seq<char>, Seq<char>, Seq<Seq<char>>)> {
    match body {
        AstView::SEQ(bs) => if bs.len() != 0 {
            match bs[0] {
                AstView::Bind { name: bind_name, target } => Some((bind_name, typ, target)),
                _ => Some((name, typ, Seq::empty())),
            }
        } else {
            Some((name, typ, Seq::empty()))
        },
        _ => None,
    }
}

/// Gathers the services and parts of a component body from `items[i]` on. The
/// flag tells whether every item was a service or part declaration: only then is
/// the Python file written.
pub open spec fn gather_items(g: Gathered, items: Seq<AstView>, i: int) -> (Gathered, bool)
    decreases items.len() - i,
{
    if 0 <= i < items.len() {
        match items[i] {
            AstView::Requires { name, typ } => gather_items(
                Gathered { required: g.required.push((name, typ)), ..g },
                items,
                i + 1,
            ),
            AstView::Provides { name, typ, implementation } => gather_items(
                Gathered { provided: g.provided.push((name, typ, implementation)), ..g },
                items,
                i + 1,
            ),
            AstView::Part { name, typ, body, .. } => gather_items(
                match part_instance(name, typ, *body) {
                    Some(p) => Gathered { parts: g.parts.push(p), ..g },
                    None => g,
                },
                items,
                i + 1,
            ),
            _ => (g, false),
        }
    } else {
        (g, true)
    }
}

/// Gathers what a component declares.
pub open spec fn gather_component(g: Gathered, c: AstView) -> (Gathered, bool) {
    match c {
        AstView::Component { name, body, .. } => {
            let g1 = Gathered { component_name: name, ..g };
            match *body {
                AstView::SEQ(items) => gather_items(g1, items, 0),
                _ => (g1, false),
            }
        },
        _ => (g, false),
    }
}

/// Gathers the imports from `nodes[i]` on, then the namespace that follows them.
pub open spec fn gather_namespace(g: Gathered, nodes: Seq<AstView>, i: int) -> (Gathered, bool)
    decreases nodes.len() - i,
{
    if 0 <= i < nodes.len() {
        match nodes[i] {
            AstView::Import { path, .. } => gather_namespace(
                Gathered { imports: g.imports.push(path), ..g },
                nodes,
                i + 1,
            ),
            AstView::Namespace { path, body } => gather_component(
                Gathered { path, ..g },
                *body,
            ),
            _ => (g, false),
        }
    } else {
        (g, false)
    }
}

/// Gathers what the tree of a SpeADL file declares.
pub open spec fn gather(g: Gathered, tree: AstView) -> (Gathered, bool) {
    match tree {
        AstView::SEQ(nodes) => gather_namespace(g, nodes, 0),
        _ => (g, false),
    }
}

/// The text of each item, one after the other.
pub open spec fn concat<A>(items: Seq<A>, f: spec_fn(A) -> Seq<char>) -> Seq<char> {
    items.map_values(f).flatten()
}

pub proof fn lemma_concat_take<A>(items: Seq<A>, f: spec_fn(A) -> Seq<char>, i: int)
    requires
        0 <= i < items.len(),
    ensures
        concat(items.take(i + 1), f) == concat(items.take(i), f) + f(items[i]),
{
    assert(items.take(i + 1).map_values(f) =~= items.take(i).map_values(f).push(f(items[i])));
    items.take(i).map_values(f).lemma_flatten_push(f(items[i]));
}

pub proof fn lemma_concat_all<A>(items: Seq<A>, f: spec_fn(A) -> Seq<char>)
    ensures
        concat(items.take(items.len() as int), f) == concat(items, f),
{
    assert(items.take(items.len() as int) =~= items);
}

/// A dotted name `a.b.c`.
pub open spec fn dotted(path: Seq<Seq<char>>) -> Seq<char> {
    path[0] + dot_segments(path.drop_first())
}

/// `from a.b import *`, on a line of its own.
pub open spec fn import_line(path: Seq<Seq<char>>) -> Seq<char> {
    "from "@ + dotted(path) + " import *"@ + seq!['\n']
}

/// The parameter `, name : Type` of `__init__`.
pub open spec fn init_parameter(r: (Seq<char>, Seq<char>)) -> Seq<char> {
    ", "@ + r.0 + " : "@ + r.1
}

/// The line of `__init__` that stores a required service.
pub open spec fn init_assignment(r: (Seq<char>, Seq<char>)) -> Seq<char> {
    "\t\tself."@ + r.0 + " = "@ + r.0 + seq!['\n']
}

/// The argument of a part's constructor: `self.a.b` for the target `a.b`, nothing
/// for an empty target.
pub open spec fn target_argument(target: Seq<Seq<char>>) -> Seq<char> {
    if target.len() == 0 {
        Seq::empty()
    } else {
        "self"@ + dot_segments(target)
    }
}

/// The line of `__init__` that builds a part instance.
pub open spec fn part_assignment(p: (Seq<char>, Seq<char>, Seq<Seq<char>>)) -> Seq<char> {
    "\t\tself."@ + p.0 + " = "@ + p.1 + seq!['('] + target_argument(p.2) + ")\n"@
}

/// The method of a provided service; a delegated service returns the part's service.
pub open spec fn method(p: (Seq<char>, Seq<char>, ImplementationView)) -> Seq<char> {
    "\n\tdef "@ + p.0 + "(self) -> "@ + p.1 + ":\n\t\treturn"@ + match p.2 {
        ImplementationView::Local => Seq::empty(),
        ImplementationView::Delegated { part_name, service_name } => " self"@ + seq!['.']
            + part_name + seq!['.'] + service_name + "()\n"@,
    }
}

/// `.a.b` for the segments `a`, `b`.
pub open spec fn dot_segments(segments: Seq<Seq<char>>) -> Seq<char> {
    concat(segments, |s: Seq<char>| seq!['.'] + s)
}

/// The import lines of a Python file.
pub open spec fn import_lines(imports: Seq<Seq<Seq<char>>>) -> Seq<char> {
    concat(imports, |p: Seq<Seq<char>>| import_line(p))
}

/// The parameters of `__init__` after `self`.
pub open spec fn init_parameters(required: Seq<(Seq<char>, Seq<char>)>) -> Seq<char> {
    concat(required, |r: (Seq<char>, Seq<char>)| init_parameter(r))
}

/// The lines of `__init__` that store the required services.
pub open spec fn init_assignments(required: Seq<(Seq<char>, Seq<char>)>) -> Seq<char> {
    concat(required, |r: (Seq<char>, Seq<char>)| init_assignment(r))
}

/// The lines of `__init__` that build the part instances.
pub open spec fn part_assignments(parts: Seq<(Seq<char>, Seq<char>, Seq<Seq<char>>)>) -> Seq<char> {
    concat(parts, |p: (Seq<char>, Seq<char>, Seq<Seq<char>>)| part_assignment(p))
}

/// The methods of the provided services.
pub open spec fn methods(provided: Seq<(Seq<char>, Seq<char>, ImplementationView)>) -> Seq<char> {
    concat(provided, |p: (Seq<char>, Seq<char>, ImplementationView)| method(p))
}

/// The Python source of the class that `g` describes.
pub open spec fn python_source(g: Gathered) -> Seq<char> {
    import_lines(g.imports) + "\nclass "@ + g.component_name + " :\n"@ + "\tdef __init__(self"@
        + init_parameters(g.required) + "):\n"@ + init_assignments(g.required)
        + part_assignments(g.parts) + "\t\treturn\n"@ + methods(g.provided)
}

/// The Python file for the class that `g` describes.
pub open spec fn python_file(g: Gathered) -> (Seq<Seq<char>>, Seq<char>, Seq<char>) {
    (g.path, g.component_name + ".py"@, python_source(g))
}

/// Whether walking `tree` can index past the end of its top-level sequence: it can
/// when every node of that sequence is an import.
pub open spec fn runs_past_end(tree: AstView) -> bool {
    match tree {
        AstView::SEQ(nodes) => forall|k: int| 0 <= k < nodes.len() ==> #[trigger] nodes[k] is Import,
        _ => false,
    }
}

/// Appends `.a.b` for the strings of `v` from index `from` on.
fn push_segments(out: &mut String, v: &Vec<String>, from: usize)
    requires
        from <= v.len(),
    ensures
        final(out)@ == old(out)@ + dot_segments(texts(v@).skip(from as int)),
{
    let ghost start = out@;
    let ghost segments = texts(v@).skip(from as int);
    assert(out@ =~= start + dot_segments(segments.take(0)));
    for j in from..v.len()
        invariant
            from <= v.len(),
            segments == texts(v@).skip(from as int),
            out@ == start + dot_segments(segments.take(j - from)),
    {
        out.push('.');
        out.append(v[j].as_str());
        proof {
            assert(segments[j - from] == v@[j as int]@);
            lemma_concat_take(segments, |s: Seq<char>| seq!['.'] + s, j - from);
        }
    }
    proof {
        lemma_concat_all(segments, |s: Seq<char>| seq!['.'] + s);
    }
}

impl GenPython {
    /// The tree to generate from.
    pub closed spec fn tree(&self) -> AstView {
        self.ast@
    }

    /// What has been gathered so far.
    pub closed spec fn gathered(&self) -> Gathered {
        Gathered {
            path: texts(self.path@),
            imports: self.imports@.map_values(|i: ImportList| texts(i.path@)),
            component_name: self.component_name@,
            required: self.required_services@.map_values(|r: RequiredService| (r.name@, r.typ@)),
            provided: self.provided_services@.map_values(
                |p: ProvidedService| (p.name@, p.typ@, p.implementation@),
            ),
            parts: self.part_instances@.map_values(
                |p: PartInstance| (p.name@, p.typ@, texts(p.target@)),
            ),
        }
    }

    /// A generator for `ast` that has gathered nothing.
    pub fn new(ast: Ast) -> (r: GenPython)
        ensures
            r.tree() == ast@,
            r.gathered() == (Gathered {
                path: Seq::empty(),
                imports: Seq::empty(),
                component_name: Seq::empty(),
                required: Seq::empty(),
                provided: Seq::empty(),
                parts: Seq::empty(),
            }),
    {
        let r = GenPython {
            ast,
            path: Vec::new(),
            imports: Vec::new(),
            component_name: String::new(),
            required_services: Vec::new(),
            provided_services: Vec::new(),
            part_instances: Vec::new(),
        };
        assert(r.gathered().path =~= Seq::empty());
        assert(r.gathered().imports =~= Seq::empty());
        assert(r.gathered().component_name =~= Seq::empty());
        assert(r.gathered().required =~= Seq::empty());
        assert(r.gathered().provided =~= Seq::empty());
        assert(r.gathered().parts =~= Seq::empty());
        assert(r.gathered() =~= Gathered {
            path: Seq::empty(),
            imports: Seq::empty(),
            component_name: Seq::empty(),
            required: Seq::empty(),
            provided: Seq::empty(),
            parts: Seq::empty(),
        });
        r
    }

    /// Gathers the services and parts of a component body from `v[i]` on; true when
    /// every item was a service or part declaration.
    fn vec_service(&mut self, v: &Vec<Ast>, i: usize) -> (complete: bool)
        requires
            i <= v.len(),
        ensures
            final(self).tree() == old(self).tree(),
            (final(self).gathered(), complete) == gather_items(
                old(self).gathered(),
                values(v@),
                i as int,
            ),
        decreases v.len() - i,
    {
        if i < v.len() {
            let ghost g0 = self.gathered();
            assert(values(v@)[i as int] == v@[i as int]@);
            match &v[i] {
                Ast::Requires { name, typ } => {
                    let r = RequiredService { name: name.clone(), typ: typ.clone() };
                    self.required_services.push(r);
                    assert(self.gathered().required =~= g0.required.push((name@, typ@)));
                    assert(self.gathered() =~= Gathered { required: g0.required.push((name@, typ@)), ..g0 });
                    self.vec_service(v, i + 1)
                },
                Ast::Provides { name, typ, implementation } => {
                    let p = ProvidedService {
                        name: name.clone(),
                        typ: typ.clone(),
                        implementation: implementation.duplicate(),
                    };
                    self.provided_services.push(p);
                    assert(self.gathered().provided =~= g0.provided.push(
                        (name@, typ@, implementation@),
                    ));
                    assert(self.gathered() =~= Gathered {
                        provided: g0.provided.push((name@, typ@, implementation@)),
                        ..g0
                    });
                    self.vec_service(v, i + 1)
                },
                Ast::Part { name, typ, body, .. } => {
                    let instance = match &**body {
                        Ast::SEQ(bs) => {
                            if bs.len() != 0 {
                                match &bs[0] {
                                    Ast::Bind { name: bind_name, target } => Some(
                                        PartInstance {
                                            name: bind_name.clone(),
                                            typ: typ.clone(),
                                            target: copy_strings(target),
                                        },
                                    ),
                                    _ => Some(
                                        PartInstance {
                                            name: name.clone(),
                                            typ: typ.clone(),
                                            target: Vec::new(),
                                        },
                                    ),
                                }
                            } else {
                                Some(
                                    PartInstance {
                                        name: name.clone(),
                                        typ: typ.clone(),
                                        target: Vec::new(),
                                    },
                                )
                            }
                        },
                        _ => None,
                    };
                    proof {
                        let bv = (**body)@;
                        if let AstView::SEQ(bvs) = bv {
                            if bvs.len() != 0 {
                                assert(bvs[0] == (**body)->SEQ_0@[0]@);
                            }
                        }
                    }
                    match instance {
                        Some(p) => {
                            assert(texts(p.target@) =~= part_instance(name@, typ@, (**body)@)->Some_0.2);
                            let ghost pv = (p.name@, p.typ@, texts(p.target@));
                            self.part_instances.push(p);
                            assert(self.gathered().parts =~= g0.parts.push(pv));
                            assert(self.gathered() =~= Gathered { parts: g0.parts.push(pv), ..g0 });
                        },
                        None => {},
                    }
                    self.vec_service(v, i + 1)
                },
                _ => false,
            }
        } else {
            true
        }
    }

    /// Gathers what a component body declares.
    fn service(&mut self, b: &Ast) -> (complete: bool)
        ensures
            final(self).tree() == old(self).tree(),
            (final(self).gathered(), complete) == match b@ {
                AstView::SEQ(items) => gather_items(old(self).gathered(), items, 0),
                _ => (old(self).gathered(), false),
            },
    {
        match b {
            Ast::SEQ(v) => {
                proof {
                    crate::ast::lemma_seq_value(*v);
                }
                self.vec_service(v, 0)
            },
            _ => false,
        }
    }

    /// Gathers what a component declares.
    fn component(&mut self, b: &Ast) -> (complete: bool)
        ensures
            final(self).tree() == old(self).tree(),
            (final(self).gathered(), complete) == gather_component(old(self).gathered(), b@),
    {
        match b {
            Ast::Component { name, body, .. } => {
                let ghost g0 = self.gathered();
                self.component_name = name.clone();
                assert(self.gathered() =~= Gathered { component_name: name@, ..g0 });
                self.service(body)
            },
            _ => false,
        }
    }

    /// Gathers the imports from `v[i]` on, then the namespace that follows them.
    fn namespace(&mut self, v: &Vec<Ast>, i: usize) -> (complete: bool)
        requires
            i <= v.len(),
            exists|k: int| i <= k < v.len() && !(#[trigger] values(v@)[k] is Import),
        ensures
            final(self).tree() == old(self).tree(),
            (final(self).gathered(), complete) == gather_namespace(
                old(self).gathered(),
                values(v@),
                i as int,
            ),
        decreases v.len() - i,
    {
        let ghost g0 = self.gathered();
        if i >= v.len() {
            return false;
        }
        assert(values(v@)[i as int] == v@[i as int]@);
        match &v[i] {
            Ast::Import { path, .. } => {
                self.imports.push(ImportList { path: copy_strings(path) });
                assert(self.gathered().imports =~= g0.imports.push(texts(path@)));
                assert(self.gathered() =~= Gathered { imports: g0.imports.push(texts(path@)), ..g0 });
                assert(exists|k: int| i + 1 <= k < v.len() && !(#[trigger] values(v@)[k] is Import));
                self.namespace(v, i + 1)
            },
            Ast::Namespace { path, body } => {
                self.path = copy_strings(path);
                assert(self.gathered() =~= Gathered { path: texts(path@), ..g0 });
                self.component(body)
            },
            _ => false,
        }
    }

    /// Walks the tree and gathers what it declares. When the component body holds
    /// only service and part declarations, returns the Python file to write.
    pub fn generate(&mut self) -> (r: Option<PythonModule>)
        requires
            !runs_past_end(old(self).tree()),
            gather(old(self).gathered(), old(self).tree()).1 ==> forall|j: int|
                0 <= j < gather(old(self).gathered(), old(self).tree()).0.imports.len()
                    ==> (#[trigger] gather(old(self).gathered(), old(self).tree()).0.imports[j]).len()
                    > 0,
        ensures
            final(self).tree() == old(self).tree(),
            final(self).gathered() == gather(old(self).gathered(), old(self).tree()).0,
            match r {
                Some(m) => gather(old(self).gathered(), old(self).tree()).1 && (
                texts(m.directory@),
                m.file_name@,
                m.source@,
            ) == python_file(final(self).gathered()),
                None => !gather(old(self).gathered(), old(self).tree()).1,
            },
    {
        let tree = self.ast.duplicate();
        let complete = match &tree {
            Ast::SEQ(v) => {
                proof {
                    crate::ast::lemma_seq_value(*v);
                    assert(values(v@) == crate::ast::values(v@));
                    let k = choose|k: int| 0 <= k < values(v@).len() && !(values(v@)[k] is Import);
                    assert(!(values(v@)[k] is Import));
                }
                self.namespace(v, 0)
            },
            _ => false,
        };
        assert(self.gathered() == gather(old(self).gathered(), old(self).tree()).0);
        assert(complete == gather(old(self).gathered(), old(self).tree()).1);
        if complete {
            assert forall|j: int| 0 <= j < self.gathered().imports.len() implies (
            #[trigger] self.gathered().imports[j]).len() > 0 by {
                assert(gather(old(self).gathered(), old(self).tree()).0.imports[j]
                    == self.gathered().imports[j]);
            }
            Some(self.python_module())
        } else {
            None
        }
    }

    /// The Python file for what has been gathered.
    fn python_module(&self) -> (m: PythonModule)
        requires
            forall|j: int|
                0 <= j < self.gathered().imports.len() ==> (#[trigger] self.gathered().imports[j]).len()
                    > 0,
        ensures
            (texts(m.directory@), m.file_name@, m.source@) == python_file(self.gathered()),
    {
        let ghost g = self.gathered();
        let mut wr = String::new();
        for i in 0..self.imports.len()
            invariant
                g == self.gathered(),
                forall|j: int| 0 <= j < g.imports.len() ==> (#[trigger] g.imports[j]).len() > 0,
                wr@ == import_lines(g.imports.take(i as int)),
        {
            let import = &self.imports[i];
            assert(g.imports[i as int] == texts(import.path@));
            assert(g.imports[i as int].len() > 0);
            wr.append("from ");
            wr.append(import.path[0].as_str());
            push_segments(&mut wr, &import.path, 1);
            wr.append(" import *");
            wr.push('\n');
            proof {
                assert(texts(import.path@).skip(1) =~= texts(import.path@).drop_first());
                lemma_concat_take(g.imports, |p: Seq<Seq<char>>| import_line(p), i as int);
            }
        }
        proof {
            lemma_concat_all(g.imports, |p: Seq<Seq<char>>| import_line(p));
        }
        wr.append("\nclass ");
        wr.append(self.component_name.as_str());
        wr.append(" :\n");
        wr.append("\tdef __init__(self");
        let ghost head = wr@;
        let mut body = String::new();
        for i in 0..self.required_services.len()
            invariant
                g == self.gathered(),
                wr@ == head + init_parameters(g.required.take(i as int)),
                body@ == init_assignments(g.required.take(i as int)),
        {
            let required = &self.required_services[i];
            assert(g.required[i as int] == (required.name@, required.typ@));
            wr.append(", ");
            wr.append(required.name.as_str());
            wr.append(" : ");
            wr.append(required.typ.as_str());
            body.append("\t\tself.");
            body.append(required.name.as_str());
            body.append(" = ");
            body.append(required.name.as_str());
            body.push('\n');
            proof {
                lemma_concat_take(g.required, |r: (Seq<char>, Seq<char>)| init_parameter(r), i as int);
                lemma_concat_take(g.required, |r: (Seq<char>, Seq<char>)| init_assignment(r), i as int);
            }
        }
        proof {
            lemma_concat_all(g.required, |r: (Seq<char>, Seq<char>)| init_parameter(r));
            lemma_concat_all(g.required, |r: (Seq<char>, Seq<char>)| init_assignment(r));
        }
        let ghost assignments = body@;
        for i in 0..self.part_instances.len()
            invariant
                g == self.gathered(),
                body@ == assignments + part_assignments(g.parts.take(i as int)),
        {
            let part = &self.part_instances[i];
            assert(g.parts[i as int] == (part.name@, part.typ@, texts(part.target@)));
            body.append("\t\tself.");
            body.append(part.name.as_str());
            body.append(" = ");
            body.append(part.typ.as_str());
            body.push('(');
            if part.target.len() != 0 {
                body.append("self");
            }
            push_segments(&mut body, &part.target, 0);
            body.append(")\n");
            proof {
                assert(texts(part.target@).skip(0) =~= texts(part.target@));
                if part.target.len() == 0 {
                    assert(texts(part.target@) =~= Seq::<Seq<char>>::empty());
                    assert(dot_segments(texts(part.target@)) =~= Seq::<char>::empty());
                }
                lemma_concat_take(
                    g.parts,
                    |p: (Seq<char>, Seq<char>, Seq<Seq<char>>)| part_assignment(p),
                    i as int,
                );
            }
        }
        proof {
            lemma_concat_all(g.parts, |p: (Seq<char>, Seq<char>, Seq<Seq<char>>)| part_assignment(p));
        }
        wr.append("):\n");
        body.append("\t\treturn\n");
        wr.append(body.as_str());
        let ghost before_methods = wr@;
        for i in 0..self.provided_services.len()
            invariant
                g == self.gathered(),
                wr@ == before_methods + methods(g.provided.take(i as int)),
        {
            let provided = &self.provided_services[i];
            assert(g.provided[i as int] == (provided.name@, provided.typ@, provided.implementation@));
            wr.append("\n\tdef ");
            wr.append(provided.name.as_str());
            wr.append("(self) -> ");
            wr.append(provided.typ.as_str());
            wr.append(":\n\t\treturn");
            match &provided.implementation {
                ProvidedServiceImplementation::Local => {},
                ProvidedServiceImplementation::Delegated(service_reference) => {
                    wr.append(" self");
                    wr.push('.');
                    wr.append(service_reference.part_name.as_str());
                    wr.push('.');
                    wr.append(service_reference.service_name.as_str());
                    wr.append("()\n");
                },
            }
            proof {
                lemma_concat_take(
                    g.provided,
                    |p: (Seq<char>, Seq<char>, ImplementationView)| method(p),
                    i as int,
                );
            }
        }
        proof {
            lemma_concat_all(g.provided, |p: (Seq<char>, Seq<char>, ImplementationView)| method(p));
        }
        let mut file_name = self.component_name.clone();
        file_name.append(".py");
        let m = PythonModule { directory: copy_strings(&self.path), file_name, source: wr };
        assert(m.source@ =~= python_source(g));
        m
    }
}

} // verus!
