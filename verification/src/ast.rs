use crate::environment::{bind, distinct_names, index_of, lemma_bind_distinct, lemma_index_of, lookup};
use vstd::prelude::*;

verus! {

/// A syntax tree node. Values are nodes too: evaluating a node yields a node.
#[derive(Debug, PartialEq)]
#[allow(inconsistent_fields)]
pub enum AST {
    /// A whole number.
    Number(i64),
    /// A decimal number, held as the bit pattern of an IEEE-754 binary64 value.
    Float(u64),
    /// Text. A literal still carries its quote characters until it is evaluated.
    String(String),
    Boolean(bool),
    /// The absence of a value.
    Null,
    /// A reference to a name.
    Identifer(String),
    LetDeclaration { name: Option<String>, value: Box<AST>, line: usize },
    /// A function written in the language.
    Function { name: String, args: Vec<String>, body: Vec<AST>, line: usize },
    /// A function supplied by the embedding program, found there by `name`.
    InternalFunction { name: String, args: Vec<String>, line: usize },
    /// A flat bag of bindings, as an import produces.
    Object { properties: Environment, line: usize },
    Call { name: String, args: Vec<AST>, line: usize },
    PropertyCall { object: String, property: String, args: Vec<AST>, line: usize },
    PropertyAccess { object: String, property: String, line: usize },
    Import { file: String, as_: String, line: usize },
    Addition { left: Box<AST>, right: Box<AST>, line: usize },
    Subtraction { left: Box<AST>, right: Box<AST>, line: usize },
    IsEqual { left: Box<AST>, right: Box<AST>, line: usize },
    IsUnequal { left: Box<AST>, right: Box<AST>, line: usize },
    Exists { value: Box<AST>, line: usize },
    IfStatement { condition: Box<AST>, body: Vec<AST>, line: usize },
    Semicolon,
}

/// Names bound to values, in the order in which the names were first bound. No name
/// is bound twice.
#[derive(Debug, PartialEq)]
pub struct Environment {
    pub(crate) entries: Vec<(String, AST)>,
}

/// The mathematical value of an [`AST`].
#[allow(inconsistent_fields)]
pub enum Node {
    Number(i64),
    Float(u64),
    String(Seq<char>),
    Boolean(bool),
    Null,
    Identifer(Seq<char>),
    LetDeclaration { name: Option<Seq<char>>, value: Box<Node>, line: usize },
    Function { name: Seq<char>, args: Seq<Seq<char>>, body: Seq<Node>, line: usize },
    InternalFunction { name: Seq<char>, args: Seq<Seq<char>>, line: usize },
    Object { properties: Seq<(Seq<char>, Node)>, line: usize },
    Call { name: Seq<char>, args: Seq<Node>, line: usize },
    PropertyCall { object: Seq<char>, property: Seq<char>, args: Seq<Node>, line: usize },
    PropertyAccess { object: Seq<char>, property: Seq<char>, line: usize },
    Import { file: Seq<char>, as_: Seq<char>, line: usize },
    Addition { left: Box<Node>, right: Box<Node>, line: usize },
    Subtraction { left: Box<Node>, right: Box<Node>, line: usize },
    IsEqual { left: Box<Node>, right: Box<Node>, line: usize },
    IsUnequal { left: Box<Node>, right: Box<Node>, line: usize },
    Exists { value: Box<Node>, line: usize },
    IfStatement { condition: Box<Node>, body: Seq<Node>, line: usize },
    Semicolon,
}

/// The mathematical value of an [`Environment`]: its bindings in order.
pub type Scope = Seq<(Seq<char>, Node)>;

/// The names of a list, each as its characters.
pub open spec fn names_view(names: Vec<String>) -> Seq<Seq<char>> {
    Seq::new(names.len() as nat, |i: int| names[i]@)
}

/// An optional name as its characters.
pub open spec fn option_name_view(name: Option<String>) -> Option<Seq<char>> {
    match name {
        Some(n) => Some(n@),
        None => None,
    }
}

/// The mathematical values of a list of nodes.
pub open spec fn nodes_view(items: Vec<AST>) -> Seq<Node>
    decreases items,
{
    Seq::new(
        items.len() as nat,
        |i: int|
            if 0 <= i < items.len() {
                node_view(items[i])
            } else {
                Node::Null
            },
    )
}

/// The bindings of a list of entries: each name with the value bound to it.
pub open spec fn entries_view(entries: Vec<(String, AST)>) -> Scope
    decreases entries,
{
    Seq::new(
        entries.len() as nat,
        |i: int|
            if 0 <= i < entries.len() {
                (entries[i].0@, node_view(entries[i].1))
            } else {
                (Seq::empty(), Node::Null)
            },
    )
}

/// The bindings of an environment in order: each name with the value bound to it.
pub closed spec fn scope_of(env: Environment) -> Scope
    decreases env,
{
    entries_view(env.entries)
}

/// The mathematical value of a node: the same tree over sequences of characters.
pub open spec fn node_view(a: AST) -> Node
    decreases a,
{
    match a {
        AST::Number(n) => Node::Number(n),
        AST::Float(x) => Node::Float(x),
        AST::String(s) => Node::String(s@),
        AST::Boolean(b) => Node::Boolean(b),
        AST::Null => Node::Null,
        AST::Identifer(name) => Node::Identifer(name@),
        AST::LetDeclaration { name, value, line } => Node::LetDeclaration {
            name: option_name_view(name),
            value: Box::new(node_view(*value)),
            line,
        },
        AST::Function { name, args, body, line } => Node::Function {
            name: name@,
            args: names_view(args),
            body: nodes_view(body),
            line,
        },
        AST::InternalFunction { name, args, line } => Node::InternalFunction {
            name: name@,
            args: names_view(args),
            line,
        },
        AST::Object { properties, line } => Node::Object { properties: scope_of(properties), line },
        AST::Call { name, args, line } => Node::Call { name: name@, args: nodes_view(args), line },
        AST::PropertyCall { object, property, args, line } => Node::PropertyCall {
            object: object@,
            property: property@,
            args: nodes_view(args),
            line,
        },
        AST::PropertyAccess { object, property, line } => Node::PropertyAccess {
            object: object@,
            property: property@,
            line,
        },
        AST::Import { file, as_, line } => Node::Import { file: file@, as_: as_@, line },
        AST::Addition { left, right, line } => Node::Addition {
            left: Box::new(node_view(*left)),
            right: Box::new(node_view(*right)),
            line,
        },
        AST::Subtraction { left, right, line } => Node::Subtraction {
            left: Box::new(node_view(*left)),
            right: Box::new(node_view(*right)),
            line,
        },
        AST::IsEqual { left, right, line } => Node::IsEqual {
            left: Box::new(node_view(*left)),
            right: Box::new(node_view(*right)),
            line,
        },
        AST::IsUnequal { left, right, line } => Node::IsUnequal {
            left: Box::new(node_view(*left)),
            right: Box::new(node_view(*right)),
            line,
        },
        AST::Exists { value, line } => Node::Exists { value: Box::new(node_view(*value)), line },
        AST::IfStatement { condition, body, line } => Node::IfStatement {
            condition: Box::new(node_view(*condition)),
            body: nodes_view(body),
            line,
        },
        AST::Semicolon => Node::Semicolon,
    }
}

impl View for AST {
    type V = Node;

    open spec fn view(&self) -> Node {
        node_view(*self)
    }
}

impl View for Environment {
    type V = Scope;

    open spec fn view(&self) -> Scope {
        scope_of(*self)
    }
}

/// A copy of a list of names.
pub fn clone_names(names: &Vec<String>) -> (copy: Vec<String>)
    ensures
        names_view(copy) == names_view(*names),
{
    let mut copy: Vec<String> = Vec::new();
    let mut i: usize = 0;
    while i < names.len()
        invariant
            i <= names.len(),
            copy.len() == i,
            forall|j: int| 0 <= j < i ==> copy[j]@ == names[j]@,
        decreases names.len() - i,
    {
        copy.push(names[i].clone());
        i += 1;
    }
    assert(names_view(copy) =~= names_view(*names));
    copy
}

/// A copy of a list of nodes.
pub fn clone_nodes(items: &Vec<AST>) -> (copy: Vec<AST>)
    ensures
        nodes_view(copy) == nodes_view(*items),
    decreases items,
{
    let mut copy: Vec<AST> = Vec::new();
    let mut i: usize = 0;
    while i < items.len()
        invariant
            i <= items.len(),
            copy.len() == i,
            forall|j: int| 0 <= j < i ==> copy[j]@ == items[j]@,
        decreases items.len() - i,
    {
        copy.push(items[i].clone());
        i += 1;
    }
    assert(nodes_view(copy) =~= nodes_view(*items));
    copy
}

impl Environment {
    /// What holds of every environment: no name is bound twice.
    #[verifier::type_invariant]
    pub open spec fn names_are_distinct(self) -> bool {
        distinct_names(self@)
    }

    /// An environment that binds nothing.
    pub fn new() -> (env: Environment)
        ensures
            env@ == Seq::<(Seq<char>, Node)>::empty(),
            distinct_names(env@),
    {
        let entries: Vec<(String, AST)> = Vec::new();
        assert(entries_view(entries) =~= Seq::<(Seq<char>, Node)>::empty());
        Environment { entries }
    }

    /// How many names are bound.
    pub fn len(&self) -> (n: usize)
        ensures
            n == self@.len(),
    {
        self.entries.len()
    }

    /// The binding at place `i`, if there are that many: its name and its value.
    pub fn entry(&self, i: usize) -> (binding: Option<(&String, &AST)>)
        ensures
            match binding {
                Some(found) => i < self@.len() && self@[i as int] == (found.0@, found.1@)
                    && decreases_to!(*self => *found.1),
                None => i >= self@.len(),
            },
    {
        if i < self.entries.len() {
            Some((&self.entries[i].0, &self.entries[i].1))
        } else {
            None
        }
    }

    /// The place of the first binding of `name`, or the number of bindings.
    fn find(&self, name: &String) -> (i: usize)
        ensures
            i == index_of(self@, name@),
            i <= self.entries.len(),
    {
        let mut i: usize = 0;
        while i < self.entries.len()
            invariant
                i <= self.entries.len(),
                forall|j: int| 0 <= j < i ==> self@[j].0 != name@,
            decreases self.entries.len() - i,
        {
            if self.entries[i].0 == *name {
                proof {
                    lemma_index_of(self@, name@, i as int);
                }
                return i;
            }
            i += 1;
        }
        proof {
            lemma_index_of(self@, name@, i as int);
        }
        i
    }

    /// The value bound to `name`, if any.
    pub fn get(&self, name: &String) -> (found: Option<&AST>)
        ensures
            match found {
                Some(value) => lookup(self@, name@) == Some(value@),
                None => lookup(self@, name@).is_none(),
            },
    {
        let i = self.find(name);
        if i < self.entries.len() {
            Some(&self.entries[i].1)
        } else {
            None
        }
    }

    /// Binds `name` to `value`, overwriting an earlier binding of the name.
    pub fn insert(&mut self, name: String, value: AST)
        ensures
            final(self)@ == bind(old(self)@, name@, value@),
            distinct_names(final(self)@),
    {
        proof {
            use_type_invariant(&*self);
            lemma_bind_distinct(self@, name@, value@);
        }
        let i = self.find(&name);
        let ghost bound = bind(self@, name@, value@);
        let mut taken = Environment::new();
        core::mem::swap(self, &mut taken);
        let mut entries = taken.entries;
        if i < entries.len() {
            entries.set(i, (name, value));
        } else {
            entries.push((name, value));
        }
        assert(entries_view(entries) =~= bound);
        *self = Environment { entries };
    }
}

impl Clone for Environment {
    fn clone(&self) -> (copy: Self)
        ensures
            copy@ == self@,
        decreases self,
    {
        proof {
            use_type_invariant(self);
        }
        let mut entries: Vec<(String, AST)> = Vec::new();
        let mut i: usize = 0;
        while i < self.entries.len()
            invariant
                i <= self.entries.len(),
                entries.len() == i,
                forall|j: int|
                    0 <= j < i ==> entries[j].0@ == self.entries[j].0@ && entries[j].1@
                        == self.entries[j].1@,
            decreases self.entries.len() - i,
        {
            entries.push((self.entries[i].0.clone(), self.entries[i].1.clone()));
            i += 1;
        }
        assert(entries_view(entries) =~= self@);
        Environment { entries }
    }
}

impl Clone for AST {
    fn clone(&self) -> (copy: Self)
        ensures
            copy@ == self@,
        decreases self,
    {
        match self {
            AST::Number(n) => AST::Number(*n),
            AST::Float(x) => AST::Float(*x),
            AST::String(s) => AST::String(s.clone()),
            AST::Boolean(b) => AST::Boolean(*b),
            AST::Null => AST::Null,
            AST::Identifer(name) => AST::Identifer(name.clone()),
            AST::LetDeclaration { name, value, line } => {
                let name_copy = match name {
                    Some(n) => Some(n.clone()),
                    None => None,
                };
                AST::LetDeclaration {
                    name: name_copy,
                    value: Box::new((&**value).clone()),
                    line: *line,
                }
            },
            AST::Function { name, args, body, line } => AST::Function {
                name: name.clone(),
                args: clone_names(args),
                body: clone_nodes(body),
                line: *line,
            },
            AST::InternalFunction { name, args, line } => AST::InternalFunction {
                name: name.clone(),
                args: clone_names(args),
                line: *line,
            },
            AST::Object { properties, line } => AST::Object {
                properties: properties.clone(),
                line: *line,
            },
            AST::Call { name, args, line } => AST::Call {
                name: name.clone(),
                args: clone_nodes(args),
                line: *line,
            },
            AST::PropertyCall { object, property, args, line } => AST::PropertyCall {
                object: object.clone(),
                property: property.clone(),
                args: clone_nodes(args),
                line: *line,
            },
            AST::PropertyAccess { object, property, line } => AST::PropertyAccess {
                object: object.clone(),
                property: property.clone(),
                line: *line,
            },
            AST::Import { file, as_, line } => AST::Import {
                file: file.clone(),
                as_: as_.clone(),
                line: *line,
            },
            AST::Addition { left, right, line } => AST::Addition {
                left: Box::new((&**left).clone()),
                right: Box::new((&**right).clone()),
                line: *line,
            },
            AST::Subtraction { left, right, line } => AST::Subtraction {
                left: Box::new((&**left).clone()),
                right: Box::new((&**right).clone()),
                line: *line,
            },
            AST::IsEqual { left, right, line } => AST::IsEqual {
                left: Box::new((&**left).clone()),
                right: Box::new((&**right).clone()),
                line: *line,
            },
            AST::IsUnequal { left, right, line } => AST::IsUnequal {
                left: Box::new((&**left).clone()),
                right: Box::new((&**right).clone()),
                line: *line,
            },
            AST::Exists { value, line } => AST::Exists {
                value: Box::new((&**value).clone()),
                line: *line,
            },
            AST::IfStatement { condition, body, line } => AST::IfStatement {
                condition: Box::new((&**condition).clone()),
                body: clone_nodes(body),
                line: *line,
            },
            AST::Semicolon => AST::Semicolon,
        }
    }
}

} // verus!
