//! The schema model: what the fuzzer reads of an API description.

use vstd::prelude::*;
use crate::text::{same_text, trimmed, trim_start_matches};

verus! {

/// The kind of an inline schema. `Composite` stands for every schema that is
/// not a plain type (a combination or negation of other schemas, or one
/// without a type).
#[derive(Debug, PartialEq)]
pub enum SchemaKind {
    Object(Vec<Property>),
    String,
    Number,
    Integer,
    Boolean,
    Array,
    Composite,
}

/// An inline schema: its kind, its example value if it declares one, and
/// whether it admits null.
#[derive(Debug, PartialEq)]
pub struct Schema {
    pub example: Option<serde_json::Value>,
    pub nullable: bool,
    pub kind: SchemaKind,
}

/// A schema given inline or by a reference string.
#[derive(Debug, PartialEq)]
pub enum SchemaRef {
    Reference(String),
    Item(Schema),
}

/// A property of an object schema. The properties of one object are held in
/// declared order.
#[derive(Debug, PartialEq)]
pub struct Property {
    pub name: String,
    pub schema: SchemaRef,
}

/// An entry of the component registry.
#[derive(Debug, PartialEq)]
pub struct NamedSchema {
    pub name: String,
    pub schema: SchemaRef,
}

/// A security scheme: one of type `http` with its scheme name, a reference,
/// or a scheme of another type.
#[derive(Debug, PartialEq)]
pub enum SecurityScheme {
    Reference(String),
    Http(String),
    Other,
}

/// A named security scheme of the components.
#[derive(Debug, PartialEq)]
pub struct NamedScheme {
    pub name: String,
    pub scheme: SecurityScheme,
}

/// The components of a description: the schema registry and the security
/// schemes, each in declared order.
#[derive(Debug, PartialEq)]
pub struct Components {
    pub schemas: Vec<NamedSchema>,
    pub security_schemes: Vec<NamedScheme>,
}

/// One entry of a request body's content: the media type and its schema.
#[derive(Debug, PartialEq)]
pub struct MediaType {
    pub name: String,
    pub schema: Option<SchemaRef>,
}

/// A request body, inline with its content in declared order, or a reference.
#[derive(Debug, PartialEq)]
pub enum RequestBody {
    Reference(String),
    Item(Vec<MediaType>),
}

/// One operation of a path. Each security requirement group is held as the
/// list of the scheme names it asks for.
#[derive(Debug, PartialEq)]
pub struct Operation {
    pub deprecated: bool,
    pub security: Option<Vec<Vec<String>>>,
    pub request_body: Option<RequestBody>,
}

/// The operations of one path that the fuzzer can drive.
#[derive(Debug, PartialEq)]
pub struct PathItem {
    pub get: Option<Operation>,
    pub post: Option<Operation>,
}

/// A path item, inline or a reference.
#[derive(Debug, PartialEq)]
pub enum PathEntry {
    Reference(String),
    Item(PathItem),
}

/// A path with its item. The paths of a description are held in declared
/// order.
#[derive(Debug, PartialEq)]
pub struct PathRecord {
    pub path: String,
    pub item: PathEntry,
}

/// A template variable of a server, with its default value.
#[derive(Debug, PartialEq)]
pub struct ServerVariable {
    pub name: String,
    pub default: String,
}

/// A declared server.
#[derive(Debug, PartialEq)]
pub struct Server {
    pub url: String,
    pub variables: Option<Vec<ServerVariable>>,
}

/// An API description.
#[derive(Debug, PartialEq)]
pub struct Description {
    pub openapi: String,
    pub servers: Vec<Server>,
    pub paths: Vec<PathRecord>,
    pub components: Option<Components>,
}

/// The prefix of every reference to a schema of the registry.
pub open spec fn schema_prefix() -> Seq<char> {
    "#/components/schemas/"@
}

/// The registry key that a reference string names.
pub open spec fn reference_key(reference: Seq<char>) -> Seq<char> {
    trimmed(reference, schema_prefix())
}

/// `i` is the first position of the registry that holds the name `key`.
pub open spec fn registered_at(schemas: Seq<NamedSchema>, key: Seq<char>, i: int) -> bool {
    &&& 0 <= i < schemas.len()
    &&& schemas[i].name@ == key
    &&& forall|j: int| 0 <= j < i ==> (#[trigger] schemas[j]).name@ != key
}

/// The registry holds the name `key`.
pub open spec fn registered(schemas: Seq<NamedSchema>, key: Seq<char>) -> bool {
    exists|i: int| registered_at(schemas, key, i)
}

/// The first position of the registry that holds the name `key`.
pub open spec fn registered_index(schemas: Seq<NamedSchema>, key: Seq<char>) -> int {
    choose|i: int| registered_at(schemas, key, i)
}

/// The inline schema registered under `key`: there is none where the name is
/// absent or its entry is itself a reference.
pub open spec fn resolve(schemas: Seq<NamedSchema>, key: Seq<char>) -> Option<Schema> {
    if registered(schemas, key) {
        match schemas[registered_index(schemas, key)].schema {
            SchemaRef::Item(s) => Some(s),
            SchemaRef::Reference(_) => None,
        }
    } else {
        None
    }
}

/// The registry key of a reference string.
pub fn key_of(reference: &str) -> (key: &str)
    ensures
        key@ == reference_key(reference@),
{
    proof {
        reveal_strlit("#/components/schemas/");
    }
    trim_start_matches(reference, "#/components/schemas/")
}

impl Components {
    /// The registry entry under `key`, where the registry holds that name.
    pub fn find_schema(&self, key: &str) -> (r: Option<&SchemaRef>)
        ensures
            r is Some == registered(self.schemas@, key@),
            r matches Some(s) ==> *s == self.schemas@[registered_index(self.schemas@, key@)].schema,
    {
        let mut i: usize = 0;
        while i < self.schemas.len()
            invariant
                i <= self.schemas.len(),
                forall|j: int| 0 <= j < i ==> (#[trigger] self.schemas@[j]).name@ != key@,
            decreases self.schemas.len() - i,
        {
            if same_text(self.schemas[i].name.as_str(), key) {
                assert(registered_at(self.schemas@, key@, i as int));
                return Some(&self.schemas[i].schema);
            }
            i += 1;
        }
        None
    }
}

} // verus!
