//! The collector: from the paths of a description to the operations that the
//! fuzzer can drive.

use vstd::prelude::*;
use crate::model::{
    Components, MediaType, NamedSchema, Operation, PathEntry, PathRecord, RequestBody, Schema,
    SchemaRef, reference_key, registered, resolve,
};
use crate::text::same_text;

verus! {

/// One drivable operation: its path, its method (`GET` or `POST`), the
/// operation as the description declares it, with its security requirements,
/// and the resolved schema of its body where it has one. It borrows from the
/// description.
#[derive(Debug)]
pub struct Op<'a> {
    pub path: String,
    pub method: String,
    pub operation: &'a Operation,
    pub payload: Option<&'a Schema>,
}

/// An operation as the proofs see it.
pub ghost struct OpView {
    pub path: Seq<char>,
    pub method: Seq<char>,
    pub operation: Operation,
    pub payload: Option<Schema>,
}

impl<'a> View for Op<'a> {
    type V = OpView;

    open spec fn view(&self) -> OpView {
        OpView {
            path: self.path@,
            method: self.method@,
            operation: *self.operation,
            payload: match self.payload {
                Some(s) => Some(*s),
                None => None,
            },
        }
    }
}

/// The operations of a list, as the proofs see them.
pub open spec fn op_views(ops: Seq<Op>) -> Seq<OpView> {
    ops.map_values(|o: Op| o@)
}

/// The GET operation that a path gives: its item is inline and its `get`
/// operation exists and is not deprecated.
pub open spec fn get_of(record: PathRecord) -> Option<OpView> {
    match record.item {
        PathEntry::Item(item) => match item.get {
            Some(operation) if !operation.deprecated => Some(
                OpView { path: record.path@, method: "GET"@, operation, payload: None },
            ),
            _ => None,
        },
        PathEntry::Reference(_) => None,
    }
}

/// The GET operations of the first `upto` paths, in the order of the paths.
pub open spec fn gets(paths: Seq<PathRecord>, upto: nat) -> Seq<OpView>
    decreases upto,
{
    if upto == 0 || upto > paths.len() {
        Seq::empty()
    } else {
        match get_of(paths[upto - 1]) {
            Some(op) => gets(paths, (upto - 1) as nat).push(op),
            None => gets(paths, (upto - 1) as nat),
        }
    }
}

/// The content has an entry whose media type is exactly `application/json`.
pub open spec fn has_json(content: Seq<MediaType>) -> bool {
    exists|i: int| 0 <= i < content.len() && (#[trigger] content[i]).name@ == "application/json"@
}

/// The operation declares an inline request body with a JSON media type.
pub open spec fn declares_json(operation: Operation) -> bool {
    match operation.request_body {
        Some(RequestBody::Item(content)) => has_json(content@),
        _ => false,
    }
}

/// The body schema after the first `upto` media types have been read,
/// starting from `initial`. An entry whose schema is a non-empty reference to
/// a registered name sets it to what the name resolves to; every other entry
/// leaves it as it is.
pub open spec fn attached(
    content: Seq<MediaType>,
    upto: nat,
    schemas: Seq<NamedSchema>,
    initial: Option<Schema>,
) -> Option<Schema>
    decreases upto,
{
    if upto == 0 || upto > content.len() {
        initial
    } else {
        let before = attached(content, (upto - 1) as nat, schemas, initial);
        match content[upto - 1].schema {
            Some(SchemaRef::Reference(reference)) => {
                if reference@.len() > 0 && registered(schemas, reference_key(reference@)) {
                    resolve(schemas, reference_key(reference@))
                } else {
                    before
                }
            },
            _ => before,
        }
    }
}

/// The body schema of an operation after all its media types have been read.
pub open spec fn payload_of(
    operation: Operation,
    schemas: Seq<NamedSchema>,
    initial: Option<Schema>,
) -> Option<Schema> {
    match operation.request_body {
        Some(RequestBody::Item(content)) => attached(content@, content@.len(), schemas, initial),
        _ => initial,
    }
}

/// The POST operation that a path gives: its item is inline and its `post`
/// operation exists, is not deprecated and declares a JSON body.
pub open spec fn post_of(record: PathRecord, schemas: Seq<NamedSchema>) -> Option<OpView> {
    match record.item {
        PathEntry::Item(item) => match item.post {
            Some(operation) if !operation.deprecated && declares_json(operation) => Some(
                OpView {
                    path: record.path@,
                    method: "POST"@,
                    operation,
                    payload: payload_of(operation, schemas, None),
                },
            ),
            _ => None,
        },
        PathEntry::Reference(_) => None,
    }
}

/// The POST operations of the first `upto` paths, in the order of the paths.
pub open spec fn posts(paths: Seq<PathRecord>, upto: nat, schemas: Seq<NamedSchema>) -> Seq<OpView>
    decreases upto,
{
    if upto == 0 || upto > paths.len() {
        Seq::empty()
    } else {
        match post_of(paths[upto - 1], schemas) {
            Some(op) => posts(paths, (upto - 1) as nat, schemas).push(op),
            None => posts(paths, (upto - 1) as nat, schemas),
        }
    }
}

/// The operations that are collected from a description: the GET operations,
/// then the POST operations.
pub open spec fn collected(paths: Seq<PathRecord>, schemas: Seq<NamedSchema>) -> Seq<OpView> {
    gets(paths, paths.len()) + posts(paths, paths.len(), schemas)
}

/// The path begins with a slash.
pub open spec fn rooted(path: Seq<char>) -> bool {
    path.len() > 0 && path[0] == '/'
}

/// Every collected GET operation is the GET operation of one of the paths.
pub proof fn lemma_gets_come_from_paths(paths: Seq<PathRecord>, upto: nat, k: int)
    requires
        upto <= paths.len(),
        0 <= k < gets(paths, upto).len(),
    ensures
        exists|j: int| 0 <= j < upto && get_of(#[trigger] paths[j]) == Some(gets(paths, upto)[k]),
    decreases upto,
{
    if upto > 0 {
        let before = gets(paths, (upto - 1) as nat);
        if k < before.len() {
            lemma_gets_come_from_paths(paths, (upto - 1) as nat, k);
            let j = choose|j: int|
                0 <= j < upto - 1 && get_of(#[trigger] paths[j]) == Some(before[k]);
            assert(0 <= j < upto && get_of(paths[j]) == Some(gets(paths, upto)[k]));
        } else {
            assert(get_of(paths[upto - 1]) == Some(gets(paths, upto)[k]));
        }
    }
}

/// Every collected POST operation is the POST operation of one of the paths.
pub proof fn lemma_posts_come_from_paths(
    paths: Seq<PathRecord>,
    upto: nat,
    schemas: Seq<NamedSchema>,
    k: int,
)
    requires
        upto <= paths.len(),
        0 <= k < posts(paths, upto, schemas).len(),
    ensures
        exists|j: int|
            0 <= j < upto && post_of(#[trigger] paths[j], schemas) == Some(
                posts(paths, upto, schemas)[k],
            ),
    decreases upto,
{
    if upto > 0 {
        let before = posts(paths, (upto - 1) as nat, schemas);
        if k < before.len() {
            lemma_posts_come_from_paths(paths, (upto - 1) as nat, schemas, k);
            let j = choose|j: int|
                0 <= j < upto - 1 && post_of(#[trigger] paths[j], schemas) == Some(before[k]);
            assert(0 <= j < upto && post_of(paths[j], schemas) == Some(
                posts(paths, upto, schemas)[k],
            ));
        } else {
            assert(post_of(paths[upto - 1], schemas) == Some(posts(paths, upto, schemas)[k]));
        }
    }
}

/// Every collected operation is a GET or a POST on one of the description's
/// paths and is not deprecated. A GET has no body schema. A POST declares an
/// inline request body with a JSON media type, and its body schema is what
/// the media types of that body resolve to. Where every path of the
/// description begins with a slash, so does the path of the operation.
pub proof fn lemma_collected_are_drivable(paths: Seq<PathRecord>, schemas: Seq<NamedSchema>, k: int)
    requires
        0 <= k < collected(paths, schemas).len(),
    ensures
        ({
            let op = collected(paths, schemas)[k];
            &&& op.method == "GET"@ || op.method == "POST"@
            &&& !op.operation.deprecated
            &&& op.method == "GET"@ ==> op.payload is None
            &&& op.method == "POST"@ ==> declares_json(op.operation) && op.payload == payload_of(
                op.operation,
                schemas,
                None,
            )
            &&& exists|j: int| 0 <= j < paths.len() && (#[trigger] paths[j]).path@ == op.path
            &&& (forall|j: int| 0 <= j < paths.len() ==> rooted((#[trigger] paths[j]).path@))
                ==> rooted(op.path)
        }),
{
    reveal_strlit("GET");
    reveal_strlit("POST");
    assert("GET"@ != "POST"@) by {
        assert("GET"@.len() == 3);
        assert("POST"@.len() == 4);
    }
    let op = collected(paths, schemas)[k];
    let n = gets(paths, paths.len()).len();
    if k < n {
        lemma_gets_come_from_paths(paths, paths.len(), k);
        let j = choose|j: int| 0 <= j < paths.len() && get_of(#[trigger] paths[j]) == Some(op);
        assert(paths[j].path@ == op.path);
    } else {
        lemma_posts_come_from_paths(paths, paths.len(), schemas, k - n);
        let j = choose|j: int|
            0 <= j < paths.len() && post_of(#[trigger] paths[j], schemas) == Some(op);
        assert(paths[j].path@ == op.path);
    }
}

/// The GET operations of the description's paths that are not deprecated,
/// in the order of the paths, each without a body schema.
pub fn collect_gets<'a>(paths: &'a Vec<PathRecord>) -> (ops: Vec<Op<'a>>)
    ensures
        op_views(ops@) == gets(paths@, paths@.len()),
{
    let mut ops: Vec<Op<'a>> = Vec::new();
    let mut i: usize = 0;
    assert(op_views(ops@) =~= gets(paths@, 0));
    while i < paths.len()
        invariant
            i <= paths.len(),
            op_views(ops@) == gets(paths@, i as nat),
        decreases paths.len() - i,
    {
        if let PathEntry::Item(item) = &paths[i].item {
            if let Some(operation) = &item.get {
                if !operation.deprecated {
                    let op = Op {
                        path: paths[i].path.clone(),
                        method: "GET".to_owned(),
                        operation,
                        payload: None,
                    };
                    let ghost before = ops@;
                    ops.push(op);
                    assert(op_views(ops@) =~= op_views(before).push(op@));
                }
            }
        }
        i += 1;
    }
    ops
}

/// Whether the content has a media type that is exactly `application/json`.
fn content_has_json(content: &Vec<MediaType>) -> (r: bool)
    ensures
        r == has_json(content@),
{
    let mut i: usize = 0;
    while i < content.len()
        invariant
            i <= content.len(),
            forall|j: int| 0 <= j < i ==> (#[trigger] content@[j]).name@ != "application/json"@,
        decreases content.len() - i,
    {
        if same_text(content[i].name.as_str(), "application/json") {
            return true;
        }
        i += 1;
    }
    false
}

/// Sets the body schema of an operation from the media types of its request
/// body, read in declared order: each reference to a registered schema
/// replaces what was attached before.
pub fn populate_payload<'a>(op: &mut Op<'a>, components: &'a Components)
    ensures
        final(op)@ == (OpView {
            payload: payload_of(old(op)@.operation, components.schemas@, old(op)@.payload),
            ..old(op)@
        }),
{
    let operation = op.operation;
    if let Some(RequestBody::Item(content)) = &operation.request_body {
        let mut payload: Option<&'a Schema> = op.payload;
        let mut i: usize = 0;
        while i < content.len()
            invariant
                i <= content.len(),
                (match payload {
                    Some(s) => Some(*s),
                    None => None,
                }) == attached(content@, i as nat, components.schemas@, old(op)@.payload),
            decreases content.len() - i,
        {
            if let Some(SchemaRef::Reference(reference)) = &content[i].schema {
                if !reference.as_str().is_empty() {
                    let key = crate::model::key_of(reference.as_str());
                    if let Some(found) = components.find_schema(key) {
                        payload = match found {
                            SchemaRef::Item(s) => Some(s),
                            SchemaRef::Reference(_) => None,
                        };
                    }
                }
            }
            i += 1;
        }
        op.payload = payload;
    }
}

/// The POST operations of the description's paths that are not deprecated
/// and declare an inline request body with a JSON media type, in the order
/// of the paths, each with the body schema that its media types resolve to.
pub fn collect_post<'a>(paths: &'a Vec<PathRecord>, components: &'a Components) -> (ops: Vec<Op<'a>>)
    ensures
        op_views(ops@) == posts(paths@, paths@.len(), components.schemas@),
{
    let mut ops: Vec<Op<'a>> = Vec::new();
    let mut i: usize = 0;
    assert(op_views(ops@) =~= posts(paths@, 0, components.schemas@));
    while i < paths.len()
        invariant
            i <= paths.len(),
            op_views(ops@) == posts(paths@, i as nat, components.schemas@),
        decreases paths.len() - i,
    {
        if let PathEntry::Item(item) = &paths[i].item {
            if let Some(operation) = &item.post {
                if !operation.deprecated {
                    if let Some(RequestBody::Item(content)) = &operation.request_body {
                        if content_has_json(content) {
                            let mut op = Op {
                                path: paths[i].path.clone(),
                                method: "POST".to_owned(),
                                operation,
                                payload: None,
                            };
                            populate_payload(&mut op, components);
                            let ghost before = ops@;
                            ops.push(op);
                            assert(op_views(ops@) =~= op_views(before).push(op@));
                        }
                    }
                }
            }
        }
        i += 1;
    }
    ops
}

} // verus!
