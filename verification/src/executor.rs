//! The executor and the orchestrator: which HTTP requests a run is made of,
//! and how their outcomes are recorded. Sending them is left to the caller.

use vstd::prelude::*;
use crate::collector::{Op, OpView, collect_gets, collect_post, collected, op_views};
use vstd::arithmetic::power2::{lemma_pow2_pos, pow2};
use crate::digger::{Digger, Tree, dig_properties, dig_schema};
use crate::json::object_text;
use crate::model::{
    Components, Description, NamedScheme, NamedSchema, Property, Schema, SchemaRef, SecurityScheme,
    Server,
};
use crate::shuffler::{
    Entries, Variant, enumerable, is_enumerable, lemma_shuffle_of_leaves, shuffle, variant_views,
};
use crate::text::{lowercase, same_text, to_lowercase};

verus! {

/// The outcome of one request: the full URL, the body that was sent (empty
/// for a GET) and the status code of the response.
#[derive(Debug)]
pub struct CallResult {
    payload: String,
    path: String,
    pub status_code: u16,
}

/// A call result as the proofs see it.
pub ghost struct CallResultView {
    pub payload: Seq<char>,
    pub path: Seq<char>,
    pub status_code: u16,
}

impl View for CallResult {
    type V = CallResultView;

    closed spec fn view(&self) -> CallResultView {
        CallResultView {
            payload: self.payload@,
            path: self.path@,
            status_code: self.status_code,
        }
    }
}

impl CallResult {
    /// A call result with the given body, URL and status code.
    pub fn new(payload: String, path: String, status_code: u16) -> (r: CallResult)
        ensures
            r@ == (CallResultView { payload: payload@, path: path@, status_code }),
    {
        CallResult { payload, path, status_code }
    }

    /// The body that was sent.
    pub fn payload(&self) -> (r: &String)
        ensures
            r@ == self@.payload,
    {
        &self.payload
    }

    /// The URL that the request went to.
    pub fn path(&self) -> (r: &String)
        ensures
            r@ == self@.path,
    {
        &self.path
    }

    /// The status code of the response.
    pub fn status_code(&self) -> (r: u16)
        ensures
            r == self@.status_code,
    {
        self.status_code
    }
}

/// One header of a request.
#[derive(Debug)]
pub struct Header {
    pub name: String,
    pub value: String,
}

/// One HTTP request of a run.
#[derive(Debug)]
pub struct Request {
    pub method: String,
    pub url: String,
    pub headers: Vec<Header>,
    pub body: String,
}

/// A request as the proofs see it.
pub ghost struct RequestView {
    pub method: Seq<char>,
    pub url: Seq<char>,
    pub headers: Seq<(Seq<char>, Seq<char>)>,
    pub body: Seq<char>,
}

/// The headers of a list, as pairs of name and value.
pub open spec fn header_views(headers: Seq<Header>) -> Seq<(Seq<char>, Seq<char>)> {
    headers.map_values(|h: Header| (h.name@, h.value@))
}

impl View for Request {
    type V = RequestView;

    open spec fn view(&self) -> RequestView {
        RequestView {
            method: self.method@,
            url: self.url@,
            headers: header_views(self.headers@),
            body: self.body@,
        }
    }
}

/// The requests of a list, as the proofs see them.
pub open spec fn request_views(requests: Seq<Request>) -> Seq<RequestView> {
    requests.map_values(|r: Request| r@)
}

/// The requests of each operation of a run, as the proofs see them.
pub open spec fn run_views(run: Seq<Vec<Request>>) -> Seq<Seq<RequestView>> {
    run.map_values(|rs: Vec<Request>| request_views(rs@))
}

/// Records the outcome of a request: its URL, its body and the status code
/// that came back.
pub fn record(request: &Request, status_code: u16) -> (r: CallResult)
    ensures
        r@ == (CallResultView { payload: request@.body, path: request@.url, status_code }),
{
    CallResult::new(request.body.clone(), request.url.clone(), status_code)
}

/// Why a run cannot start.
#[derive(Debug, PartialEq, Eq, Structural)]
pub enum ConfigError {
    /// The caller gives no base URL and the description declares no server.
    NoServers,
    /// The description has no components.
    NoComponents,
}

/// The base URL that a server declares: the default of its first template
/// variable where it has one, its URL otherwise.
pub open spec fn server_url(server: Server) -> Seq<char> {
    match server.variables {
        Some(variables) if variables@.len() > 0 => variables@[0].default@,
        _ => server.url@,
    }
}

/// The base URL of the description's first server, where it declares one.
pub fn retrieve_base_url(description: &Description) -> (r: Option<String>)
    ensures
        r is Some == (description.servers@.len() > 0),
        r matches Some(url) ==> url@ == server_url(description.servers@[0]),
{
    if description.servers.len() == 0 {
        return None;
    }
    let server = &description.servers[0];
    match &server.variables {
        Some(variables) => {
            if variables.len() > 0 {
                Some(variables[0].default.clone())
            } else {
                Some(server.url.clone())
            }
        },
        None => Some(server.url.clone()),
    }
}

/// The scheme is of type `http` and its scheme name is `bearer`, whatever
/// the case of its letters.
pub open spec fn is_bearer_scheme(scheme: SecurityScheme) -> bool {
    match scheme {
        SecurityScheme::Http(name) => lowercase(name@) == "bearer"@,
        _ => false,
    }
}

/// `i` is the first position of a bearer scheme among the security schemes.
pub open spec fn bearer_at(schemes: Seq<NamedScheme>, i: int) -> bool {
    &&& 0 <= i < schemes.len()
    &&& is_bearer_scheme(schemes[i].scheme)
    &&& forall|j: int| 0 <= j < i ==> !is_bearer_scheme((#[trigger] schemes[j]).scheme)
}

/// The name of the first bearer scheme among the security schemes.
pub open spec fn bearer_name(schemes: Seq<NamedScheme>) -> Option<Seq<char>> {
    if exists|i: int| bearer_at(schemes, i) {
        Some(schemes[choose|i: int| bearer_at(schemes, i)].name@)
    } else {
        None
    }
}

/// Whether a scheme name, already in lowercase, is `bearer`.
pub fn is_bearer(lowered: &str) -> (r: bool)
    ensures
        r == (lowered@ == "bearer"@),
{
    same_text(lowered, "bearer")
}

/// The key of the first security scheme of type `http` whose scheme name is
/// `bearer` in any case.
pub fn get_jwt_token(components: &Components) -> (r: Option<String>)
    ensures
        match bearer_name(components.security_schemes@) {
            Some(name) => r is Some && r->Some_0@ == name,
            None => r is None,
        },
{
    let mut i: usize = 0;
    while i < components.security_schemes.len()
        invariant
            i <= components.security_schemes.len(),
            forall|j: int|
                0 <= j < i ==> !is_bearer_scheme((#[trigger] components.security_schemes@[j]).scheme),
        decreases components.security_schemes.len() - i,
    {
        if let SecurityScheme::Http(scheme) = &components.security_schemes[i].scheme {
            let lowered = to_lowercase(scheme.as_str());
            if is_bearer(lowered.as_str()) {
                assert(bearer_at(components.security_schemes@, i as int));
                return Some(components.security_schemes[i].name.clone());
            }
        }
        i += 1;
    }
    None
}

/// How many of the first `upto` scheme names of a requirement group are
/// `name`.
pub open spec fn group_matches(group: Seq<String>, name: Seq<char>, upto: nat) -> nat
    decreases upto,
{
    if upto == 0 || upto > group.len() {
        0
    } else {
        group_matches(group, name, (upto - 1) as nat) + if group[upto - 1]@ == name {
            1nat
        } else {
            0nat
        }
    }
}

/// How many scheme names in the first `upto` requirement groups are `name`.
pub open spec fn security_matches(security: Seq<Vec<String>>, name: Seq<char>, upto: nat) -> nat
    decreases upto,
{
    if upto == 0 || upto > security.len() {
        0
    } else {
        security_matches(security, name, (upto - 1) as nat) + group_matches(
            security[upto - 1]@,
            name,
            security[upto - 1]@.len(),
        )
    }
}

/// The text of an optional string.
pub open spec fn text_of(s: Option<String>) -> Option<Seq<char>> {
    match s {
        Some(t) => Some(t@),
        None => None,
    }
}

/// The bearer header for a token.
pub open spec fn bearer_header(token: Seq<char>) -> (Seq<char>, Seq<char>) {
    ("Authorization"@, "Bearer "@ + token)
}

/// The authorization headers of a request: one bearer header for each scheme
/// name of the operation's security requirements that is the bearer scheme's
/// name, and none unless requirements, scheme name and token are all there.
pub open spec fn bearer_headers(
    security: Option<Vec<Vec<String>>>,
    jwt_name: Option<Seq<char>>,
    jwt: Option<Seq<char>>,
) -> Seq<(Seq<char>, Seq<char>)> {
    match (security, jwt_name, jwt) {
        (Some(groups), Some(name), Some(token)) => Seq::new(
            security_matches(groups@, name, groups@.len()),
            |i: int| bearer_header(token),
        ),
        _ => Seq::empty(),
    }
}

/// Some requirement group of the security requirements asks for the scheme
/// `name`.
pub open spec fn names_scheme(security: Seq<Vec<String>>, name: Seq<char>) -> bool {
    exists|g: int, k: int|
        0 <= g < security.len() && 0 <= k < security[g]@.len() && #[trigger] security[g]@[k]@
            == name
}

/// A group has a match among its first names exactly where one of them is
/// the name.
pub proof fn lemma_group_matches(group: Seq<String>, name: Seq<char>, upto: nat)
    requires
        upto <= group.len(),
    ensures
        group_matches(group, name, upto) > 0 <==> exists|k: int|
            0 <= k < upto && (#[trigger] group[k])@ == name,
    decreases upto,
{
    if upto > 0 {
        lemma_group_matches(group, name, (upto - 1) as nat);
        if group_matches(group, name, (upto - 1) as nat) > 0 {
            let k = choose|k: int| 0 <= k < upto - 1 && (#[trigger] group[k])@ == name;
            assert(0 <= k < upto && group[k]@ == name);
        } else if group[upto - 1]@ == name {
        } else {
            assert forall|k: int| 0 <= k < upto implies (#[trigger] group[k])@ != name by {
                if k < upto - 1 {
                }
            }
        }
    }
}

/// The requirements have a match among their first groups exactly where one
/// of those groups asks for the name.
pub proof fn lemma_security_matches(security: Seq<Vec<String>>, name: Seq<char>, upto: nat)
    requires
        upto <= security.len(),
    ensures
        security_matches(security, name, upto) > 0 <==> exists|g: int, k: int|
            0 <= g < upto && 0 <= k < security[g]@.len() && #[trigger] security[g]@[k]@ == name,
    decreases upto,
{
    if upto > 0 {
        let last = security[upto - 1]@;
        lemma_security_matches(security, name, (upto - 1) as nat);
        lemma_group_matches(last, name, last.len());
        if security_matches(security, name, (upto - 1) as nat) > 0 {
            let (g, k) = choose|g: int, k: int|
                0 <= g < upto - 1 && 0 <= k < security[g]@.len() && #[trigger] security[g]@[k]@
                    == name;
            assert(0 <= g < upto && 0 <= k < security[g]@.len() && security[g]@[k]@ == name);
        } else if group_matches(last, name, last.len()) > 0 {
            let k = choose|k: int| 0 <= k < last.len() && (#[trigger] last[k])@ == name;
            assert(0 <= upto - 1 < upto && 0 <= k < security[upto - 1]@.len() && security[upto
                - 1]@[k]@ == name);
        } else {
            assert forall|g: int, k: int|
                0 <= g < upto && 0 <= k < security[g]@.len() implies #[trigger] security[g]@[k]@
                != name by {
                if g == upto - 1 {
                    assert(last[k]@ != name);
                }
            }
        }
    }
}

/// A bearer header is attached exactly where the operation declares security
/// requirements that ask for the bearer scheme's name, a token is given and
/// a bearer scheme was found; and every header that is attached is the
/// bearer header of the token.
pub proof fn lemma_bearer_attached(
    security: Option<Vec<Vec<String>>>,
    jwt_name: Option<Seq<char>>,
    jwt: Option<Seq<char>>,
)
    ensures
        bearer_headers(security, jwt_name, jwt).len() > 0 <==> (security is Some && jwt_name is Some
            && jwt is Some && names_scheme(security->Some_0@, jwt_name->Some_0)),
        forall|i: int|
            0 <= i < bearer_headers(security, jwt_name, jwt).len() ==> #[trigger] bearer_headers(
                security,
                jwt_name,
                jwt,
            )[i] == bearer_header(jwt->Some_0),
{
    if security is Some && jwt_name is Some && jwt is Some {
        lemma_security_matches(security->Some_0@, jwt_name->Some_0, security->Some_0@.len());
    }
}

/// Appends to `headers` the authorization headers that the security
/// requirements ask for.
pub fn attach_bearer(
    headers: &mut Vec<Header>,
    security: &Option<Vec<Vec<String>>>,
    jwt_name: &Option<String>,
    jwt: &Option<String>,
)
    ensures
        header_views(final(headers)@) == header_views(old(headers)@) + bearer_headers(
            *security,
            text_of(*jwt_name),
            text_of(*jwt),
        ),
{
    let ghost start = header_views(headers@);
    if let Some(groups) = security {
        if let Some(name) = jwt_name {
            if let Some(token) = jwt {
                let mut g: usize = 0;
                while g < groups.len()
                    invariant
                        g <= groups.len(),
                        header_views(headers@) == start + Seq::new(
                            security_matches(groups@, name@, g as nat),
                            |i: int| bearer_header(token@),
                        ),
                    decreases groups.len() - g,
                {
                    let group = &groups[g];
                    let ghost outer = security_matches(groups@, name@, g as nat);
                    let mut k: usize = 0;
                    while k < group.len()
                        invariant
                            k <= group.len(),
                            header_views(headers@) == start + Seq::new(
                                outer + group_matches(group@, name@, k as nat),
                                |i: int| bearer_header(token@),
                            ),
                        decreases group.len() - k,
                    {
                        if group[k] == *name {
                            let ghost before = headers@;
                            let value = "Bearer ".to_owned().concat(token.as_str());
                            headers.push(Header { name: "Authorization".to_owned(), value });
                            assert(header_views(headers@) =~= header_views(before).push(
                                bearer_header(token@),
                            ));
                            assert(header_views(headers@) =~= start + Seq::new(
                                outer + group_matches(group@, name@, (k + 1) as nat),
                                |i: int| bearer_header(token@),
                            ));
                        }
                        k += 1;
                    }
                    g += 1;
                }
                return ;
            }
        }
    }
    assert(header_views(headers@) =~= start + bearer_headers(
        *security,
        text_of(*jwt_name),
        text_of(*jwt),
    ));
}

/// The one request of a GET operation.
pub open spec fn get_requests(
    base_url: Seq<char>,
    path: Seq<char>,
    jwt_name: Option<Seq<char>>,
    jwt: Option<Seq<char>>,
    security: Option<Vec<Vec<String>>>,
) -> Seq<RequestView> {
    seq![
        RequestView {
            method: "GET"@,
            url: base_url + path,
            headers: bearer_headers(security, jwt_name, jwt),
            body: Seq::empty(),
        },
    ]
}

/// The request of a GET operation: one request without a body to the base
/// URL followed by the path, with the authorization headers that the
/// operation's security requirements ask for.
pub fn drill_get_endpoint(
    base_url: &str,
    path: &str,
    jwt_name: &Option<String>,
    jwt: &Option<String>,
    security: &Option<Vec<Vec<String>>>,
) -> (requests: Vec<Request>)
    ensures
        request_views(requests@) == get_requests(
            base_url@,
            path@,
            text_of(*jwt_name),
            text_of(*jwt),
            *security,
        ),
{
    let url = base_url.to_owned().concat(path);
    let mut headers: Vec<Header> = Vec::new();
    assert(header_views(headers@) =~= Seq::empty());
    attach_bearer(&mut headers, security, jwt_name, jwt);
    assert(header_views(headers@) =~= bearer_headers(*security, text_of(*jwt_name), text_of(*jwt)));
    let request = Request { method: "GET".to_owned(), url, headers, body: String::new() };
    let mut requests: Vec<Request> = Vec::new();
    requests.push(request);
    assert(request_views(requests@) =~= get_requests(
        base_url@,
        path@,
        text_of(*jwt_name),
        text_of(*jwt),
        *security,
    ));
    requests
}

/// The POST request that carries one payload.
pub open spec fn post_request(
    url: Seq<char>,
    payload: Entries,
    jwt_name: Option<Seq<char>>,
    jwt: Option<Seq<char>>,
    security: Option<Vec<Vec<String>>>,
) -> RequestView {
    RequestView {
        method: "POST"@,
        url,
        headers: seq![("Content-Type"@, "application/json"@)] + bearer_headers(
            security,
            jwt_name,
            jwt,
        ),
        body: object_text(payload),
    }
}

/// The payloads of a POST operation: the variants of the body's property
/// tree, then the empty payload. There is none where the body cannot be dug
/// or some object in it has 64 properties or more.
pub open spec fn post_payloads(payload: Schema, schemas: Seq<NamedSchema>) -> Seq<Entries> {
    match dig_schema(payload, schemas, Seq::empty()) {
        Err(_) => Seq::empty(),
        Ok(kids) => {
            let tree = Tree { name: "root"@, value: "null"@, children: kids };
            if enumerable(tree) {
                shuffle(tree).push(Seq::empty())
            } else {
                Seq::empty()
            }
        },
    }
}

/// The requests of a POST operation: one for each payload, in order.
pub open spec fn post_requests(
    base_url: Seq<char>,
    path: Seq<char>,
    payload: Schema,
    jwt_name: Option<Seq<char>>,
    jwt: Option<Seq<char>>,
    security: Option<Vec<Vec<String>>>,
    schemas: Seq<NamedSchema>,
) -> Seq<RequestView> {
    post_payloads(payload, schemas).map_values(
        |p: Entries| post_request(base_url + path, p, jwt_name, jwt, security),
    )
}

/// Every property is inline and declares an example.
pub open spec fn scalar_properties(props: Seq<Property>) -> bool {
    forall|i: int|
        0 <= i < props.len() ==> match (#[trigger] props[i]).schema {
            SchemaRef::Item(item) => item.example is Some,
            SchemaRef::Reference(_) => false,
        }
}

/// Inline properties with examples are dug into as many leaves.
pub proof fn lemma_dig_scalars(
    props: Seq<Property>,
    upto: nat,
    schemas: Seq<NamedSchema>,
    path: Seq<Seq<char>>,
)
    requires
        upto <= props.len(),
        scalar_properties(props),
    ensures
        dig_properties(props, upto, schemas, path) is Ok,
        dig_properties(props, upto, schemas, path)->Ok_0.len() == upto,
        forall|i: int|
            0 <= i < upto ==> (#[trigger] dig_properties(
                props,
                upto,
                schemas,
                path,
            )->Ok_0[i]).children.len() == 0,
    decreases upto,
{
    if upto > 0 {
        lemma_dig_scalars(props, (upto - 1) as nat, schemas, path);
        assert(match props[upto - 1].schema {
            SchemaRef::Item(item) => item.example is Some,
            SchemaRef::Reference(_) => false,
        });
    }
}

/// A POST operation whose body is an object of `n` inline properties with
/// examples, `n` below 64, has exactly `2^n` requests, and the last of them
/// carries the empty payload.
pub proof fn lemma_scalar_post_count(
    base_url: Seq<char>,
    path: Seq<char>,
    payload: Schema,
    jwt_name: Option<Seq<char>>,
    jwt: Option<Seq<char>>,
    security: Option<Vec<Vec<String>>>,
    schemas: Seq<NamedSchema>,
)
    requires
        payload.kind is Object,
        scalar_properties(payload.kind->Object_0@),
        payload.kind->Object_0@.len() < 64,
    ensures
        post_requests(base_url, path, payload, jwt_name, jwt, security, schemas).len() == pow2(
            payload.kind->Object_0@.len(),
        ),
        post_payloads(payload, schemas).len() == pow2(payload.kind->Object_0@.len()),
        post_payloads(payload, schemas).last() == Seq::<(Seq<char>, Seq<char>)>::empty(),
{
    let props = payload.kind->Object_0@;
    lemma_dig_scalars(props, props.len(), schemas, Seq::empty());
    let kids = dig_properties(props, props.len(), schemas, Seq::empty())->Ok_0;
    let tree = Tree { name: "root"@, value: "null"@, children: kids };
    assert forall|i: int| 0 <= i < kids.len() implies enumerable(#[trigger] tree.children[i]) by {
        assert(kids[i].children.len() == 0);
    }
    assert(enumerable(tree));
    lemma_shuffle_of_leaves(tree);
    lemma_pow2_pos(props.len());
}

/// The payloads of a POST operation whose body has the schema `payload`.
pub fn payload_variants(payload: &Schema, components: &Components) -> (variants: Vec<Variant>)
    ensures
        variant_views(variants@) == post_payloads(*payload, components.schemas@),
{
    let mut digger = Digger::new();
    let dug = digger.dig(payload, components);
    if dug.is_err() || !is_enumerable(&digger.root) {
        let none: Vec<Variant> = Vec::new();
        assert(variant_views(none@) =~= Seq::empty());
        return none;
    }
    let mut variants = crate::shuffler::do_it(&digger.root);
    let ghost before = variants@;
    let last = Variant::new();
    variants.push(last);
    assert(variant_views(variants@) =~= variant_views(before).push(last@));
    variants
}

/// The requests of a POST operation: for each variant of the body's property
/// tree, and last for the empty payload, one request to the base URL followed
/// by the path, with the payload as its JSON body, the JSON content type and
/// the authorization headers that the operation's security requirements ask
/// for. There is none where the body cannot be dug.
pub fn drill_post_endpoint(
    base_url: &str,
    path: &str,
    payload: &Schema,
    jwt_name: &Option<String>,
    jwt: &Option<String>,
    security: &Option<Vec<Vec<String>>>,
    components: &Components,
) -> (requests: Vec<Request>)
    ensures
        request_views(requests@) == post_requests(
            base_url@,
            path@,
            *payload,
            text_of(*jwt_name),
            text_of(*jwt),
            *security,
            components.schemas@,
        ),
{
    let variants = payload_variants(payload, components);
    let mut requests: Vec<Request> = Vec::new();
    let mut i: usize = 0;
    while i < variants.len()
        invariant
            i <= variants.len(),
            variant_views(variants@) == post_payloads(*payload, components.schemas@),
            requests@.len() == i,
            forall|k: int|
                0 <= k < i ==> (#[trigger] requests@[k])@ == post_request(
                    base_url@ + path@,
                    variants@[k]@,
                    text_of(*jwt_name),
                    text_of(*jwt),
                    *security,
                ),
        decreases variants.len() - i,
    {
        let body = variants[i].to_json();
        let url = base_url.to_owned().concat(path);
        let mut headers: Vec<Header> = Vec::new();
        headers.push(
            Header { name: "Content-Type".to_owned(), value: "application/json".to_owned() },
        );
        assert(header_views(headers@) =~= seq![("Content-Type"@, "application/json"@)]);
        attach_bearer(&mut headers, security, jwt_name, jwt);
        requests.push(Request { method: "POST".to_owned(), url, headers, body });
        i += 1;
    }
    assert(request_views(requests@) =~= post_requests(
        base_url@,
        path@,
        *payload,
        text_of(*jwt_name),
        text_of(*jwt),
        *security,
        components.schemas@,
    ));
    requests
}

/// The requests of one operation: those of a GET, those of a POST with a
/// body schema, and none for any other operation.
pub open spec fn op_requests(
    op: OpView,
    base_url: Seq<char>,
    jwt_name: Option<Seq<char>>,
    jwt: Option<Seq<char>>,
    schemas: Seq<NamedSchema>,
) -> Seq<RequestView> {
    if op.method == "GET"@ {
        get_requests(base_url, op.path, jwt_name, jwt, op.operation.security)
    } else if op.method == "POST"@ {
        match op.payload {
            Some(payload) => post_requests(
                base_url,
                op.path,
                payload,
                jwt_name,
                jwt,
                op.operation.security,
                schemas,
            ),
            None => Seq::empty(),
        }
    } else {
        Seq::empty()
    }
}

/// The requests of one operation against a base URL.
pub fn exec_operation(
    components: &Components,
    op: &Op,
    base_url: &str,
    jwt_name: &Option<String>,
    jwt: &Option<String>,
) -> (requests: Vec<Request>)
    ensures
        request_views(requests@) == op_requests(
            op@,
            base_url@,
            text_of(*jwt_name),
            text_of(*jwt),
            components.schemas@,
        ),
{
    if same_text(op.method.as_str(), "GET") {
        drill_get_endpoint(base_url, op.path.as_str(), jwt_name, jwt, &op.operation.security)
    } else if same_text(op.method.as_str(), "POST") {
        match op.payload {
            Some(payload) => drill_post_endpoint(
                base_url,
                op.path.as_str(),
                payload,
                jwt_name,
                jwt,
                &op.operation.security,
                components,
            ),
            None => {
                let none: Vec<Request> = Vec::new();
                assert(request_views(none@) =~= Seq::empty());
                none
            },
        }
    } else {
        let none: Vec<Request> = Vec::new();
        assert(request_views(none@) =~= Seq::empty());
        none
    }
}

/// The operations of a run: the GET operations, then the POST operations.
pub open spec fn operations(description: Description) -> Seq<OpView> {
    match description.components {
        Some(components) => collected(description.paths@, components.schemas@),
        None => Seq::empty(),
    }
}

/// The base URL of a run: the one that the caller gives, or else the one of
/// the first server.
pub open spec fn base_url_of(description: Description, url: Option<String>) -> Seq<char> {
    match url {
        Some(u) => u@,
        None => server_url(description.servers@[0]),
    }
}

/// The requests of a whole run, operation by operation.
pub open spec fn run_requests(
    description: Description,
    url: Option<String>,
    jwt: Option<String>,
) -> Seq<Seq<RequestView>> {
    let components = description.components->Some_0;
    let ops = operations(description);
    Seq::new(
        ops.len(),
        |i: int|
            op_requests(
                ops[i],
                base_url_of(description, url),
                bearer_name(components.security_schemes@),
                text_of(jwt),
                components.schemas@,
            ),
    )
}

/// The requests of a run, or why it cannot start: a run needs a base URL,
/// from the caller or from a declared server, and components.
pub open spec fn run_plan(
    description: Description,
    url: Option<String>,
    jwt: Option<String>,
) -> Result<Seq<Seq<RequestView>>, ConfigError> {
    if url is None && description.servers@.len() == 0 {
        Err(ConfigError::NoServers)
    } else if description.components is None {
        Err(ConfigError::NoComponents)
    } else {
        Ok(run_requests(description, url, jwt))
    }
}

/// Lays out a whole run: the requests of every drivable operation of the
/// description, the GET operations first, then the POST operations, each
/// against the base URL that the caller gives or else the one of the first
/// server, with `jwt` as the bearer token.
pub fn do_it<'a>(description: &'a Description, url: Option<String>, jwt: Option<String>) -> (r: Result<
    Vec<Vec<Request>>,
    ConfigError,
>)
    ensures
        match run_plan(*description, url, jwt) {
            Ok(run) => r is Ok && run_views(r->Ok_0@) == run,
            Err(e) => r == Err::<Vec<Vec<Request>>, ConfigError>(e),
        },
{
    let base_url = match &url {
        Some(u) => u.clone(),
        None => match retrieve_base_url(description) {
            Some(declared) => declared,
            None => {
                return Err(ConfigError::NoServers);
            },
        },
    };
    let components = match &description.components {
        Some(components) => components,
        None => {
            return Err(ConfigError::NoComponents);
        },
    };
    let jwt_name = get_jwt_token(components);
    let posts = collect_post(&description.paths, components);
    let mut operations = collect_gets(&description.paths);
    let ghost get_views = op_views(operations@);
    let mut posts = posts;
    let ghost post_views = op_views(posts@);
    operations.append(&mut posts);
    assert(op_views(operations@) =~= get_views + post_views);
    let mut all: Vec<Vec<Request>> = Vec::new();
    let mut i: usize = 0;
    while i < operations.len()
        invariant
            i <= operations.len(),
            all@.len() == i,
            forall|k: int|
                0 <= k < i ==> request_views((#[trigger] all@[k])@) == op_requests(
                    operations@[k]@,
                    base_url@,
                    text_of(jwt_name),
                    text_of(jwt),
                    components.schemas@,
                ),
        decreases operations.len() - i,
    {
        let requests = exec_operation(components, &operations[i], base_url.as_str(), &jwt_name, &jwt);
        all.push(requests);
        i += 1;
    }
    assert(run_views(all@) =~= run_requests(*description, url, jwt));
    Ok(all)
}

} // verus!
