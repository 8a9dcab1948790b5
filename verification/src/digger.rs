//! The property tree of a request body, and the digger that builds it from an
//! object schema.

use vstd::prelude::*;
use crate::json::{json_clone, json_null, json_text};
use crate::model::{
    Components, NamedSchema, Property, Schema, SchemaKind, SchemaRef, key_of, reference_key,
    resolve,
};
use crate::text::same_text;

verus! {

/// A property tree as the proofs see it: each node has its name, the text of
/// its JSON value and its children in declared order.
pub ghost struct Tree {
    pub name: Seq<char>,
    pub value: Seq<char>,
    pub children: Seq<Tree>,
}

/// One property of a JSON object: a leaf carries its example value, an
/// object-valued property carries JSON null and the nodes of its own
/// properties. A node owns its children, so a tree has no cycle and every
/// node but the root has exactly one parent.
#[derive(Debug)]
pub struct Node {
    pub name: String,
    pub value: serde_json::Value,
    pub children: Vec<Node>,
}

/// The trees of the first `upto` nodes of a list.
pub open spec fn trees(nodes: Seq<Node>, upto: nat) -> Seq<Tree>
    decreases nodes, upto,
{
    if upto == 0 || upto > nodes.len() {
        Seq::empty()
    } else {
        trees(nodes, (upto - 1) as nat).push(nodes[upto - 1].view())
    }
}

impl View for Node {
    type V = Tree;

    open spec fn view(&self) -> Tree
        decreases self, 0nat,
    {
        Tree {
            name: self.name@,
            value: json_text(self.value),
            children: trees(self.children@, self.children@.len()),
        }
    }
}

/// The trees of a list of nodes are the nodes' own trees, one for one.
pub proof fn lemma_trees(nodes: Seq<Node>, upto: nat)
    requires
        upto <= nodes.len(),
    ensures
        trees(nodes, upto).len() == upto,
        forall|i: int| 0 <= i < upto ==> #[trigger] trees(nodes, upto)[i] == nodes[i]@,
    decreases upto,
{
    if upto > 0 {
        lemma_trees(nodes, (upto - 1) as nat);
        assert(trees(nodes, upto) == trees(nodes, (upto - 1) as nat).push(nodes[upto - 1]@));
    }
}

impl Node {
    /// A node without children.
    pub fn new(name: &str, value: serde_json::Value) -> (r: Node)
        ensures
            r@ == (Tree { name: name@, value: json_text(value), children: Seq::empty() }),
    {
        Node { name: name.to_owned(), value, children: Vec::new() }
    }
}

/// The node that is reached from `t` by going, at each step of `route`, to
/// the child at that position.
pub open spec fn descendant(t: Tree, route: Seq<int>) -> Tree
    decreases route.len(),
{
    if route.len() == 0 {
        t
    } else {
        descendant(t, route.drop_last()).children[route.last()]
    }
}

/// Every step of `route` names a child that is there.
pub open spec fn leads_somewhere(t: Tree, route: Seq<int>) -> bool
    decreases route.len(),
{
    route.len() == 0 || (leads_somewhere(t, route.drop_last()) && 0 <= route.last() < descendant(
        t,
        route.drop_last(),
    ).children.len())
}

/// The parent of the node at the end of a route: the node one step before.
pub open spec fn parent(t: Tree, route: Seq<int>) -> Tree {
    descendant(t, route.drop_last())
}

/// Every node but the root has a parent, which holds it among its children
/// at the last step of the route; and no node is its own ancestor, since what
/// lies below a node is smaller than the node.
pub proof fn lemma_tree_has_no_cycle(t: Tree, route: Seq<int>)
    requires
        leads_somewhere(t, route),
        route.len() > 0,
    ensures
        parent(t, route).children[route.last()] == descendant(t, route),
        decreases_to!(t => descendant(t, route)),
        descendant(t, route) != t,
    decreases route.len(),
{
    let above = route.drop_last();
    if above.len() > 0 {
        lemma_tree_has_no_cycle(t, above);
    }
}

/// The trees of two lists of nodes, one after the other, are the trees of
/// the joined list.
pub proof fn lemma_trees_join(a: Seq<Node>, b: Seq<Node>)
    ensures
        trees(a + b, (a + b).len()) == trees(a, a.len()) + trees(b, b.len()),
{
    lemma_trees(a, a.len());
    lemma_trees(b, b.len());
    lemma_trees(a + b, (a + b).len());
    assert(trees(a + b, (a + b).len()) =~= trees(a, a.len()) + trees(b, b.len()));
}

/// Why a schema could not be dug, as the proofs see it.
pub ghost enum DigFailure {
    UnsupportedSchemaKind,
    UnsupportedType,
    NoExample(Seq<char>),
    UnresolvedReference(Seq<char>),
    CyclicReference(Seq<char>),
}

/// Why a schema could not be dug into a property tree.
#[derive(Debug)]
pub enum DigError {
    /// The schema is not a plain type.
    UnsupportedSchemaKind,
    /// The schema is a plain type other than an object.
    UnsupportedType,
    /// The named inline property declares no example value.
    NoExample(String),
    /// The reference string names no inline schema of the registry.
    UnresolvedReference(String),
    /// The reference string leads back to a schema that is being dug.
    CyclicReference(String),
}

impl View for DigError {
    type V = DigFailure;

    open spec fn view(&self) -> DigFailure {
        match self {
            DigError::UnsupportedSchemaKind => DigFailure::UnsupportedSchemaKind,
            DigError::UnsupportedType => DigFailure::UnsupportedType,
            DigError::NoExample(name) => DigFailure::NoExample(name@),
            DigError::UnresolvedReference(reference) => DigFailure::UnresolvedReference(reference@),
            DigError::CyclicReference(reference) => DigFailure::CyclicReference(reference@),
        }
    }
}

/// The message of a failure.
pub open spec fn failure_message(failure: DigFailure) -> Seq<char> {
    match failure {
        DigFailure::UnsupportedSchemaKind => "Unsupported schema kind"@,
        DigFailure::UnsupportedType => "Unsupported type"@,
        DigFailure::NoExample(name) => "No example found for property: "@ + name,
        DigFailure::UnresolvedReference(reference) => "No schema found for reference: "@
            + reference,
        DigFailure::CyclicReference(reference) => "Cyclic reference: "@ + reference,
    }
}

impl DigError {
    /// The message of the error.
    pub fn message(&self) -> (r: String)
        ensures
            r@ == failure_message(self@),
    {
        match self {
            DigError::UnsupportedSchemaKind => "Unsupported schema kind".to_owned(),
            DigError::UnsupportedType => "Unsupported type".to_owned(),
            DigError::NoExample(name) => {
                "No example found for property: ".to_owned().concat(name.as_str())
            },
            DigError::UnresolvedReference(reference) => {
                "No schema found for reference: ".to_owned().concat(reference.as_str())
            },
            DigError::CyclicReference(reference) => {
                "Cyclic reference: ".to_owned().concat(reference.as_str())
            },
        }
    }
}

/// The names of the registry schemas that are being dug, outermost first.
pub open spec fn path_view(path: Seq<String>) -> Seq<Seq<char>> {
    path.map_values(|s: String| s@)
}

/// The child nodes that the first `upto` properties of an object give, or the
/// failure of the first property that has one. An inline property is a leaf
/// with its example. A referenced one is dug from the schema it resolves to,
/// unless that schema is already being dug under one of the names in `path`;
/// the nesting is never deeper than the registry is long, which only a cycle
/// could ask for.
pub open spec fn dig_properties(
    props: Seq<Property>,
    upto: nat,
    schemas: Seq<NamedSchema>,
    path: Seq<Seq<char>>,
) -> Result<Seq<Tree>, DigFailure>
    decreases schemas.len() - path.len(), 0nat, upto,
{
    if upto == 0 || upto > props.len() {
        Ok(Seq::empty())
    } else {
        match dig_properties(props, (upto - 1) as nat, schemas, path) {
            Err(e) => Err(e),
            Ok(done) => {
                let p = props[upto - 1];
                match p.schema {
                    SchemaRef::Item(item) => match item.example {
                        Some(v) => Ok(
                            done.push(
                                Tree { name: p.name@, value: json_text(v), children: Seq::empty() },
                            ),
                        ),
                        None => Err(DigFailure::NoExample(p.name@)),
                    },
                    SchemaRef::Reference(reference) => {
                        let key = reference_key(reference@);
                        match resolve(schemas, key) {
                            None => Err(DigFailure::UnresolvedReference(reference@)),
                            Some(target) => {
                                if path.contains(key) || path.len() >= schemas.len() {
                                    Err(DigFailure::CyclicReference(reference@))
                                } else {
                                    match dig_schema(target, schemas, path.push(key)) {
                                        Err(e) => Err(e),
                                        Ok(kids) => Ok(
                                            done.push(
                                                Tree {
                                                    name: p.name@,
                                                    value: "null"@,
                                                    children: kids,
                                                },
                                            ),
                                        ),
                                    }
                                }
                            },
                        }
                    },
                }
            },
        }
    }
}

/// The child nodes that an object schema gives, or why it gives none.
pub open spec fn dig_schema(schema: Schema, schemas: Seq<NamedSchema>, path: Seq<Seq<char>>) -> Result<
    Seq<Tree>,
    DigFailure,
>
    decreases schemas.len() - path.len(), 1nat, 0nat,
{
    match schema.kind {
        SchemaKind::Composite => Err(DigFailure::UnsupportedSchemaKind),
        SchemaKind::Object(props) => dig_properties(props@, props@.len(), schemas, path),
        _ => Err(DigFailure::UnsupportedType),
    }
}

/// A failure among the first properties is the failure of any longer prefix.
pub proof fn lemma_dig_failure_stays(
    props: Seq<Property>,
    early: nat,
    upto: nat,
    schemas: Seq<NamedSchema>,
    path: Seq<Seq<char>>,
)
    requires
        early <= upto <= props.len(),
        dig_properties(props, early, schemas, path) is Err,
    ensures
        dig_properties(props, upto, schemas, path) == dig_properties(props, early, schemas, path),
    decreases upto,
{
    if early < upto {
        lemma_dig_failure_stays(props, early, (upto - 1) as nat, schemas, path);
    }
}

/// The children that are dug from the properties of an object mirror them:
/// there is one child for each property, in declared order and under the
/// property's name. The child of an inline property is a leaf with the
/// property's example; the child of a referenced property carries JSON null.
pub proof fn lemma_dig_mirrors_properties(
    props: Seq<Property>,
    upto: nat,
    schemas: Seq<NamedSchema>,
    path: Seq<Seq<char>>,
)
    requires
        upto <= props.len(),
        dig_properties(props, upto, schemas, path) is Ok,
    ensures
        ({
            let kids = dig_properties(props, upto, schemas, path)->Ok_0;
            &&& kids.len() == upto
            &&& forall|i: int|
                0 <= i < upto ==> {
                    &&& (#[trigger] kids[i]).name == props[i].name@
                    &&& match props[i].schema {
                        SchemaRef::Item(item) => item.example is Some && kids[i].value == json_text(
                            item.example->Some_0,
                        ) && kids[i].children.len() == 0,
                        SchemaRef::Reference(_) => kids[i].value == "null"@,
                    }
                }
        }),
    decreases upto,
{
    if upto > 0 {
        lemma_dig_mirrors_properties(props, (upto - 1) as nat, schemas, path);
    }
}

/// The registry key of a reference string and the inline schema that is
/// registered under it. It fails where the registry lacks the key or holds a
/// reference under it.
pub fn reference_to_schema_and_name<'a>(reference: &'a str, components: &'a Components) -> (r: Result<
    (&'a str, &'a Schema),
    DigError,
>)
    ensures
        match resolve(components.schemas@, reference_key(reference@)) {
            Some(schema) => r is Ok && r->Ok_0.0@ == reference_key(reference@) && *r->Ok_0.1
                == schema,
            None => r is Err && r->Err_0@ == DigFailure::UnresolvedReference(reference@),
        },
{
    let name = key_of(reference);
    match components.find_schema(name) {
        Some(SchemaRef::Item(schema)) => Ok((name, schema)),
        _ => Err(DigError::UnresolvedReference(reference.to_owned())),
    }
}

/// Whether `key` is one of the names in `path`.
fn on_path(path: &Vec<String>, key: &str) -> (r: bool)
    ensures
        r == path_view(path@).contains(key@),
{
    let mut i: usize = 0;
    while i < path.len()
        invariant
            i <= path.len(),
            forall|j: int| 0 <= j < i ==> path_view(path@)[j] != key@,
        decreases path.len() - i,
    {
        if same_text(path[i].as_str(), key) {
            assert(path_view(path@)[i as int] == key@);
            return true;
        }
        i += 1;
    }
    false
}

/// Digs the properties of an object into child nodes, in declared order.
fn dig_object(props: &Vec<Property>, components: &Components, path: &mut Vec<String>) -> (r: Result<
    Vec<Node>,
    DigError,
>)
    ensures
        path_view(final(path)@) == path_view(old(path)@),
        match dig_properties(props@, props@.len(), components.schemas@, path_view(old(path)@)) {
            Ok(kids) => r is Ok && trees(r->Ok_0@, r->Ok_0@.len()) == kids,
            Err(e) => r is Err && r->Err_0@ == e,
        },
    decreases components.schemas@.len() - old(path)@.len(), 0nat, props@.len(),
{
    let ghost schemas = components.schemas@;
    let ghost start = path_view(path@);
    let mut nodes: Vec<Node> = Vec::new();
    let mut i: usize = 0;
    while i < props.len()
        invariant
            i <= props.len(),
            schemas == components.schemas@,
            start == path_view(old(path)@),
            path_view(path@) == start,
            path@.len() == old(path)@.len(),
            dig_properties(props@, i as nat, schemas, start) == Ok::<Seq<Tree>, DigFailure>(
                trees(nodes@, nodes@.len()),
            ),
        decreases props.len() - i,
    {
        let ghost done = trees(nodes@, nodes@.len());
        let ghost before = nodes@;
        let p = &props[i];
        proof {
            if dig_properties(props@, (i + 1) as nat, schemas, start) is Err {
                lemma_dig_failure_stays(props@, (i + 1) as nat, props@.len(), schemas, start);
            }
        }
        let node = match &p.schema {
            SchemaRef::Item(item) => match &item.example {
                Some(v) => Node { name: p.name.clone(), value: json_clone(v), children: Vec::new() },
                None => {
                    return Err(DigError::NoExample(p.name.clone()));
                },
            },
            SchemaRef::Reference(reference) => {
                let (key, target) = match reference_to_schema_and_name(
                    reference.as_str(),
                    components,
                ) {
                    Ok(found) => found,
                    Err(e) => {
                        return Err(e);
                    },
                };
                if on_path(path, key) || path.len() >= components.schemas.len() {
                    return Err(DigError::CyclicReference(reference.clone()));
                }
                path.push(key.to_owned());
                assert(path_view(path@) =~= start.push(key@));
                let dug = dig_children(target, components, path);
                let ghost inner = path@;
                assert(path_view(inner).len() == start.len() + 1);
                path.pop();
                assert(path_view(path@) =~= path_view(inner).drop_last());
                assert(path_view(path@) =~= start);
                match dug {
                    Ok(kids) => Node { name: p.name.clone(), value: json_null(), children: kids },
                    Err(e) => {
                        return Err(e);
                    },
                }
            },
        };
        nodes.push(node);
        proof {
            lemma_trees(before, before.len());
            lemma_trees(nodes@, nodes@.len());
            lemma_trees(node.children@, node.children@.len());
            assert(trees(nodes@, nodes@.len()) =~= done.push(node@));
        }
        i += 1;
    }
    Ok(nodes)
}

/// Digs an inline schema into the child nodes of its properties.
fn dig_children(schema: &Schema, components: &Components, path: &mut Vec<String>) -> (r: Result<
    Vec<Node>,
    DigError,
>)
    ensures
        path_view(final(path)@) == path_view(old(path)@),
        match dig_schema(*schema, components.schemas@, path_view(old(path)@)) {
            Ok(kids) => r is Ok && trees(r->Ok_0@, r->Ok_0@.len()) == kids,
            Err(e) => r is Err && r->Err_0@ == e,
        },
    decreases components.schemas@.len() - old(path)@.len(), 1nat, 0nat,
{
    match &schema.kind {
        SchemaKind::Composite => Err(DigError::UnsupportedSchemaKind),
        SchemaKind::Object(props) => dig_object(props, components, path),
        _ => Err(DigError::UnsupportedType),
    }
}

/// The state of one dig: the tree that has been built so far, under a root
/// whose own name and value are not used.
#[derive(Debug)]
pub struct Digger {
    pub root: Node,
}

impl Digger {
    /// A digger with an empty tree.
    pub fn new() -> (r: Digger)
        ensures
            r.root@ == (Tree { name: "root"@, value: "null"@, children: Seq::empty() }),
    {
        Digger { root: Node::new("root", json_null()) }
    }

    /// Builds the property tree of `schema` under the root: one child for
    /// each property, in declared order, after the children that are there.
    /// On failure the tree is left as it was.
    pub fn dig(&mut self, schema: &Schema, components: &Components) -> (r: Result<(), DigError>)
        ensures
            match dig_schema(*schema, components.schemas@, Seq::empty()) {
                Ok(kids) => r is Ok && final(self).root@ == (Tree {
                    name: old(self).root@.name,
                    value: old(self).root@.value,
                    children: old(self).root@.children + kids,
                }),
                Err(e) => r is Err && r->Err_0@ == e && *final(self) == *old(self),
            },
    {
        let mut path: Vec<String> = Vec::new();
        assert(path_view(path@) =~= Seq::<Seq<char>>::empty());
        match dig_children(schema, components, &mut path) {
            Ok(kids) => {
                let mut kids = kids;
                proof {
                    lemma_trees_join(self.root.children@, kids@);
                }
                self.root.children.append(&mut kids);
                Ok(())
            },
            Err(e) => Err(e),
        }
    }
}

} // verus!
