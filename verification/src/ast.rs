use vstd::prelude::*;

verus! {

/// The syntax tree of SpeADL and Java sources.
#[allow(non_camel_case_types, inconsistent_fields)]
#[derive(Debug, PartialEq, Eq)]
pub enum Ast {
    SEQ(Vec<Ast>),
    Import { path: Vec<String>, ast: Option<Box<Ast>> },
    Namespace { path: Vec<String>, body: Box<Ast> },
    Component {
        name: String,
        specializes: Option<Specializes>,
        generic: Option<String>,
        body: Box<Ast>,
    },
    Requires { name: String, typ: String },
    Provides { name: String, typ: String, implementation: ProvidedServiceImplementation },
    Part { name: String, typ: String, generic: Option<String>, body: Box<Ast> },
    Bind { name: String, target: Vec<String> },
    Package { name: String },
    Class { name: String, access: Option<String>, body: Box<Ast> },
    Function {
        name: String,
        typ: String,
        access: Option<String>,
        body: Option<Box<Ast>>,
    },
}

/// The parent that a component specializes, with the parsed file that declares it.
#[derive(Debug, PartialEq, Eq)]
pub struct Specializes {
    pub parent: String,
    pub parent_file: Option<Box<Ast>>,
}

/// How a provided service is implemented.
#[derive(Clone, Debug, PartialEq, Eq)]
pub enum ProvidedServiceImplementation {
    /// By the component itself.
    Local,
    /// By a service of one of the component's parts.
    Delegated(ServiceReference),
}

/// A service of a part: `part_name.service_name`.
#[derive(Clone, Debug, PartialEq, Eq)]
pub struct ServiceReference {
    pub part_name: String,
    pub service_name: String,
}

/// The mathematical value of an `Ast`: names are sequences of characters.
#[allow(non_camel_case_types, inconsistent_fields)]
pub enum AstView {
    SEQ(Seq<AstView>),
    Import { path: Seq<Seq<char>>, ast: Option<Box<AstView>> },
    Namespace { path: Seq<Seq<char>>, body: Box<AstView> },
    Component {
        name: Seq<char>,
        specializes: Option<(Seq<char>, Option<Box<AstView>>)>,
        generic: Option<Seq<char>>,
        body: Box<AstView>,
    },
    Requires { name: Seq<char>, typ: Seq<char> },
    Provides { name: Seq<char>, typ: Seq<char>, implementation: ImplementationView },
    Part { name: Seq<char>, typ: Seq<char>, generic: Option<Seq<char>>, body: Box<AstView> },
    Bind { name: Seq<char>, target: Seq<Seq<char>> },
    Package { name: Seq<char> },
    Class { name: Seq<char>, access: Option<Seq<char>>, body: Box<AstView> },
    Function {
        name: Seq<char>,
        typ: Seq<char>,
        access: Option<Seq<char>>,
        body: Option<Box<AstView>>,
    },
}

/// The mathematical value of a `ProvidedServiceImplementation`.
pub enum ImplementationView {
    Local,
    Delegated { part_name: Seq<char>, service_name: Seq<char> },
}

/// The characters of each string.
pub open spec fn texts(v: Seq<String>) -> Seq<Seq<char>> {
    v.map_values(|s: String| s@)
}

/// The characters of an optional string.
pub open spec fn opt_text(o: Option<String>) -> Option<Seq<char>> {
    match o {
        Some(s) => Some(s@),
        None => None,
    }
}

impl View for ProvidedServiceImplementation {
    type V = ImplementationView;

    open spec fn view(&self) -> ImplementationView {
        match self {
            ProvidedServiceImplementation::Local => ImplementationView::Local,
            ProvidedServiceImplementation::Delegated(r) => ImplementationView::Delegated {
                part_name: r.part_name@,
                service_name: r.service_name@,
            },
        }
    }
}

impl Ast {
    /// The mathematical value of the tree.
    pub open spec fn value(self) -> AstView
        decreases self,
    {
        match self {
            Ast::SEQ(v) => AstView::SEQ(
                Seq::new(
                    v@.len(),
                    |i: int|
                        if 0 <= i < v@.len() {
                            v@[i].value()
                        } else {
                            AstView::SEQ(Seq::empty())
                        },
                ),
            ),
            Ast::Import { path, ast } => AstView::Import {
                path: texts(path@),
                ast: match ast {
                    Some(b) => Some(Box::new((*b).value())),
                    None => None,
                },
            },
            Ast::Namespace { path, body } => AstView::Namespace {
                path: texts(path@),
                body: Box::new((*body).value()),
            },
            Ast::Component { name, specializes, generic, body } => AstView::Component {
                name: name@,
                specializes: match specializes {
                    Some(s) => Some(
                        (
                            s.parent@,
                            match s.parent_file {
                                Some(b) => Some(Box::new((*b).value())),
                                None => None,
                            },
                        ),
                    ),
                    None => None,
                },
                generic: opt_text(generic),
                body: Box::new((*body).value()),
            },
            Ast::Requires { name, typ } => AstView::Requires {
                name: name@,
                typ: typ@,
            },
            Ast::Provides { name, typ, implementation } => AstView::Provides {
                name: name@,
                typ: typ@,
                implementation: implementation@,
            },
            Ast::Part { name, typ, generic, body } => AstView::Part {
                name: name@,
                typ: typ@,
                generic: opt_text(generic),
                body: Box::new((*body).value()),
            },
            Ast::Bind { name, target } => AstView::Bind { name: name@, target: texts(target@) },
            Ast::Package { name } => AstView::Package { name: name@ },
            Ast::Class { name, access, body } => AstView::Class {
                name: name@,
                access: opt_text(access),
                body: Box::new((*body).value()),
            },
            Ast::Function { name, typ, access, body } => AstView::Function {
                name: name@,
                typ: typ@,
                access: opt_text(access),
                body: match body {
                    Some(b) => Some(Box::new((*b).value())),
                    None => None,
                },
            },
        }
    }
}

impl View for Ast {
    type V = AstView;

    open spec fn view(&self) -> AstView {
        self.value()
    }
}

/// The value of an optional boxed tree.
pub open spec fn opt_value(o: Option<Box<Ast>>) -> Option<Box<AstView>> {
    match o {
        Some(b) => Some(Box::new((*b)@)),
        None => None,
    }
}

/// The values of a sequence of trees.
pub open spec fn values(v: Seq<Ast>) -> Seq<AstView> {
    v.map_values(|a: Ast| a@)
}

/// Copies of the strings, in order.
pub fn copy_strings(v: &Vec<String>) -> (r: Vec<String>)
    ensures
        texts(r@) == texts(v@),
{
    let mut r: Vec<String> = Vec::new();
    for i in 0..v.len()
        invariant
            texts(r@) =~= texts(v@.take(i as int)),
    {
        let ghost before = r@;
        r.push(v[i].clone());
        assert(v@.take(i + 1) =~= v@.take(i as int).push(v@[i as int]));
        assert(texts(r@) =~= texts(before).push(v@[i as int]@));
    }
    assert(v@.take(v.len() as int) =~= v@);
    r
}

/// A copy of an optional string.
pub fn copy_opt_string(o: &Option<String>) -> (r: Option<String>)
    ensures
        opt_text(r) == opt_text(*o),
{
    match o {
        Some(s) => Some(s.clone()),
        None => None,
    }
}

impl ProvidedServiceImplementation {
    /// An equal copy.
    pub fn duplicate(&self) -> (r: ProvidedServiceImplementation)
        ensures
            r@ == self@,
    {
        match self {
            ProvidedServiceImplementation::Local => ProvidedServiceImplementation::Local,
            ProvidedServiceImplementation::Delegated(r) => ProvidedServiceImplementation::Delegated(
                ServiceReference {
                    part_name: r.part_name.clone(),
                    service_name: r.service_name.clone(),
                },
            ),
        }
    }
}

impl Ast {
    /// A copy of the tree with the same value.
    pub fn duplicate(&self) -> (r: Ast)
        ensures
            r@ == self@,
        decreases self,
    {
        match self {
            Ast::SEQ(v) => {
                let mut w: Vec<Ast> = Vec::new();
                for i in 0..v.len()
                    invariant
                        *self == Ast::SEQ(*v),
                        values(w@) =~= values(v@.take(i as int)),
                {
                    assert(decreases_to!(*self => v@[i as int])) by {
                        let s = *self;
                        assert(decreases_to!(s => s->SEQ_0));
                        assert(decreases_to!(s->SEQ_0 => s->SEQ_0@));
                        assert(decreases_to!(s->SEQ_0@ => s->SEQ_0@[i as int]));
                    }
                    let c = v[i].duplicate();
                    let ghost before = w@;
                    w.push(c);
                    assert(v@.take(i + 1) =~= v@.take(i as int).push(v@[i as int]));
                    assert(values(w@) =~= values(before).push(v@[i as int]@));
                }
                assert(v@.take(v.len() as int) =~= v@);
                proof {
                    lemma_seq_value(w);
                    lemma_seq_value(*v);
                }
                Ast::SEQ(w)
            },
            Ast::Import { path, ast } => Ast::Import {
                path: copy_strings(path),
                ast: match ast {
                    Some(b) => Some(Box::new(b.duplicate())),
                    None => None,
                },
            },
            Ast::Namespace { path, body } => Ast::Namespace {
                path: copy_strings(path),
                body: Box::new(body.duplicate()),
            },
            Ast::Component { name, specializes, generic, body } => Ast::Component {
                name: name.clone(),
                specializes: match specializes {
                    Some(s) => Some(
                        Specializes {
                            parent: s.parent.clone(),
                            parent_file: match &s.parent_file {
                                Some(b) => Some(Box::new(b.duplicate())),
                                None => None,
                            },
                        },
                    ),
                    None => None,
                },
                generic: copy_opt_string(generic),
                body: Box::new(body.duplicate()),
            },
            Ast::Requires { name, typ } => Ast::Requires { name: name.clone(), typ: typ.clone() },
            Ast::Provides { name, typ, implementation } => Ast::Provides {
                name: name.clone(),
                typ: typ.clone(),
                implementation: implementation.duplicate(),
            },
            Ast::Part { name, typ, generic, body } => Ast::Part {
                name: name.clone(),
                typ: typ.clone(),
                generic: copy_opt_string(generic),
                body: Box::new(body.duplicate()),
            },
            Ast::Bind { name, target } => Ast::Bind {
                name: name.clone(),
                target: copy_strings(target),
            },
            Ast::Package { name } => Ast::Package { name: name.clone() },
            Ast::Class { name, access, body } => Ast::Class {
                name: name.clone(),
                access: copy_opt_string(access),
                body: Box::new(body.duplicate()),
            },
            Ast::Function { name, typ, access, body } => Ast::Function {
                name: name.clone(),
                typ: typ.clone(),
                access: copy_opt_string(access),
                body: match body {
                    Some(b) => Some(Box::new(b.duplicate())),
                    None => None,
                },
            },
        }
    }
}

pub proof fn lemma_seq_value(v: Vec<Ast>)
    ensures
        Ast::SEQ(v)@ == AstView::SEQ(values(v@)),
{
    assert(values(v@) =~= Ast::SEQ(v)@->SEQ_0);
}

} // verus!
