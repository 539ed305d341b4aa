//! The per-request pipeline: classify the path, short-circuit OPTIONS,
//! extract the app key and the credential, validate it, look the API up,
//! resolve the endpoint, check the permission, and decide between answering,
//! forwarding, and upgrading. Every response the gateway originates is
//! paired with exactly one metrics commit carrying its labels.

use vstd::prelude::*;
use vstd::string::StrSliceExecFns;
use vstd::string::StringExecFns;
use crate::strutil::{str_eq, concat, first_index_of, lemma_first_index_of,
    lemma_first_index_of_has_char, has_char, find_char, spec_split};
use crate::endpoint::{Endpoint, EndpointView, spec_permission, full_access};
use crate::api::{ApiDefinition, ApiDefinitionView, ApiDefinitionSpecView, ApiMode, ApiModeView,
    spec_api_valid, spec_conflict_free, check_for_conflicts};
use crate::route::{Node, NodeView, node_view, assoc_get, assoc_set, lemma_assoc_get_at,
    lemma_assoc_get_none, lemma_assoc_set_at, lemma_assoc_set_none, lemma_assoc_get_some_in,
    spec_match, spec_strip, spec_build};
use crate::auth::{Claims, ClaimsView, TokenSource, get_claims};
use crate::permission::{PermCache, PermCacheView, spec_has_perm, has_perm, spec_roles_string,
    roles_for};
use crate::metrics::HttpCommit;

verus! {

broadcast use vstd::std_specs::vec::group_vec_axioms, vstd::seq::group_seq_axioms;

/// What `hyper::Uri::from_str` accepts: a function of the text alone.
pub uninterp spec fn uri_accepts(s: Seq<char>) -> bool;

/// Relies on hyper::Uri::from_str (the `http` crate): whether a text parses
/// as a URI depends on the text alone.
#[verifier::external_body]
fn parse_uri_ok(s: &str) -> (r: bool)
    ensures
        r == uri_accepts(s@),
{
    <hyper::Uri as core::str::FromStr>::from_str(s).is_ok()
}

/// The `(name, value)` pairs that `url::form_urlencoded::parse` decodes out
/// of a query string: a function of the text alone.
pub uninterp spec fn form_decoded_pairs(q: Seq<char>) -> Seq<(Seq<char>, Seq<char>)>;

/// Relies on url::form_urlencoded::parse: decodes a query string into its
/// `(name, value)` pairs, percent-decoding both sides; an empty text decodes
/// to no pairs.
#[verifier::external_body]
fn query_pairs(query: &str) -> (r: Vec<(String, String)>)
    ensures
        r.deep_view() == form_decoded_pairs(query@),
        query@.len() == 0 ==> r@.len() == 0,
{
    url::form_urlencoded::parse(query.as_bytes()).into_owned().collect()
}

/// The query part of a path-and-query text: what follows the first `?`.
pub open spec fn spec_query_of(path_and_query: Seq<char>) -> Seq<char> {
    let i = first_index_of(path_and_query, '?');
    if i == path_and_query.len() {
        Seq::empty()
    } else {
        path_and_query.subrange(i + 1, path_and_query.len() as int)
    }
}

/// The first value bound to the key among the pairs.
pub open spec fn spec_pairs_value(
    pairs: Seq<(Seq<char>, Seq<char>)>,
    key: Seq<char>,
) -> Option<Seq<char>>
    decreases pairs.len(),
{
    if pairs.len() == 0 {
        None
    } else if pairs[0].0 == key {
        Some(pairs[0].1)
    } else {
        spec_pairs_value(pairs.subrange(1, pairs.len() as int), key)
    }
}

/// The synthesized credential, when the text has a query string that carries
/// `_auth_token`.
pub open spec fn spec_auth_token_of(path_and_query: Seq<char>) -> Option<Seq<char>> {
    if !has_char(path_and_query, '?') {
        None
    } else {
        match spec_pairs_value(
            form_decoded_pairs(spec_query_of(path_and_query)),
            "_auth_token"@,
        ) {
            Some(v) => Some("Bearer "@ + v),
            None => None,
        }
    }
}

/// Falls back to the `_auth_token` query key when the Authorization header
/// is absent, prefixing the value with `"Bearer "`.
pub fn get_auth_from_url(path_and_query: &str) -> (r: Option<String>)
    ensures
        match r {
            Some(s) => spec_auth_token_of(path_and_query@) == Some(s@),
            None => spec_auth_token_of(path_and_query@) is None,
        },
{
    let n = path_and_query.unicode_len();
    let qm = find_char(path_and_query, '?');
    proof {
        lemma_first_index_of(path_and_query@, '?');
        lemma_first_index_of_has_char(path_and_query@, '?');
    }
    if qm == n {
        return None;
    }
    let query = path_and_query.substring_char(qm + 1, n);
    proof {
        assert(query@ == spec_query_of(path_and_query@));
    }
    let pairs = query_pairs(query);
    let ghost pv = pairs.deep_view();
    let mut i: usize = 0;
    while i < pairs.len()
        invariant
            i <= pairs.len(),
            has_char(path_and_query@, '?'),
            pv == pairs.deep_view(),
            pv == form_decoded_pairs(spec_query_of(path_and_query@)),
            pv.len() == pairs.len() as int,
            forall|j: int| 0 <= j < i ==> (#[trigger] pv[j]).0 != "_auth_token"@,
        decreases pairs.len() - i,
    {
        proof {
            assert(pv[i as int] == (pairs@[i as int].0@, pairs@[i as int].1@));
        }
        if str_eq(pairs[i].0.as_str(), "_auth_token") {
            let token = concat("Bearer ", pairs[i].1.as_str());
            proof {
                lemma_pairs_value_at(pv, "_auth_token"@, i as int);
            }
            return Some(token);
        }
        i += 1;
    }
    proof {
        lemma_pairs_value_none(pv, "_auth_token"@);
    }
    None
}

proof fn lemma_pairs_value_at(pairs: Seq<(Seq<char>, Seq<char>)>, key: Seq<char>, idx: int)
    requires
        0 <= idx < pairs.len(),
        pairs[idx].0 == key,
        forall|j: int| 0 <= j < idx ==> pairs[j].0 != key,
    ensures
        spec_pairs_value(pairs, key) == Some(pairs[idx].1),
    decreases pairs.len(),
{
    if idx > 0 {
        let t = pairs.subrange(1, pairs.len() as int);
        assert forall|j: int| 0 <= j < idx - 1 implies (#[trigger] t[j]).0 != key by {
            assert(t[j] == pairs[j + 1]);
        }
        lemma_pairs_value_at(t, key, idx - 1);
        assert(t[idx - 1] == pairs[idx]);
    }
}

proof fn lemma_pairs_value_none(pairs: Seq<(Seq<char>, Seq<char>)>, key: Seq<char>)
    requires
        forall|j: int| 0 <= j < pairs.len() ==> (#[trigger] pairs[j]).0 != key,
    ensures
        spec_pairs_value(pairs, key) is None,
    decreases pairs.len(),
{
    if pairs.len() > 0 {
        let t = pairs.subrange(1, pairs.len() as int);
        assert forall|j: int| 0 <= j < t.len() implies (#[trigger] t[j]).0 != key by {
            assert(t[j] == pairs[j + 1]);
        }
        lemma_pairs_value_none(t, key);
    }
}

/// A response the gateway itself originates.
#[derive(Debug, Clone)]
pub struct GatewayResponse {
    pub status_code: u16,
    pub body: String,
}

/// Builds a gateway-originated response together with its one metrics
/// commit; the commit's labels are the response's.
pub fn get_response(app: &str, method: &str, status_code: u16, body: &str) -> (r: (
    GatewayResponse,
    HttpCommit,
))
    ensures
        r.0.status_code == status_code,
        r.0.body@ == body@,
        r.1.app@ == app@,
        r.1.method@ == method@,
        r.1.status_code == status_code,
{
    let response = GatewayResponse { status_code, body: body.to_owned() };
    let commit = HttpCommit { app: app.to_owned(), method: method.to_owned(), status_code };
    (response, commit)
}

/// The permissive CORS header set carried by every gateway-originated
/// response.
pub open spec fn spec_cors_headers() -> Seq<(Seq<char>, Seq<char>)> {
    seq![
        ("Access-Control-Allow-Origin"@, "*"@),
        ("Access-Control-Allow-Headers"@, "*"@),
        ("Access-Control-Allow-Methods"@, "*"@),
        ("Access-Control-Expose-Headers"@, "Location, Retry-After"@),
        ("Access-Control-Allow-Credentials"@, "true"@),
        ("Access-Control-Max-Age"@, "86400"@),
    ]
}

/// The permissive CORS header set, as `(name, value)` pairs.
pub fn cors_headers() -> (r: Vec<(String, String)>)
    ensures
        r.deep_view() == spec_cors_headers(),
{
    let mut out: Vec<(String, String)> = Vec::new();
    out.push(("Access-Control-Allow-Origin".to_owned(), "*".to_owned()));
    out.push(("Access-Control-Allow-Headers".to_owned(), "*".to_owned()));
    out.push(("Access-Control-Allow-Methods".to_owned(), "*".to_owned()));
    out.push(("Access-Control-Expose-Headers".to_owned(), "Location, Retry-After".to_owned()));
    out.push(("Access-Control-Allow-Credentials".to_owned(), "true".to_owned()));
    out.push(("Access-Control-Max-Age".to_owned(), "86400".to_owned()));
    proof {
        assert(out.deep_view() =~= spec_cors_headers());
    }
    out
}

/// The one header injected into a forwarded backend response.
pub fn allow_origin_header() -> (r: (String, String))
    ensures
        r.0@ == "Access-Control-Allow-Origin"@,
        r.1@ == "*"@,
{
    ("Access-Control-Allow-Origin".to_owned(), "*".to_owned())
}

/// The health answer: 200 with body `Ok` and the three permissive headers;
/// deliberately no metrics commit.
pub fn health_response() -> (r: (GatewayResponse, Vec<(String, String)>))
    ensures
        r.0.status_code == 200,
        r.0.body@ == "Ok"@,
        r.1.deep_view() == spec_cors_headers().subrange(0, 3),
{
    let response = GatewayResponse { status_code: 200, body: "Ok".to_owned() };
    let mut headers: Vec<(String, String)> = Vec::new();
    headers.push(("Access-Control-Allow-Origin".to_owned(), "*".to_owned()));
    headers.push(("Access-Control-Allow-Headers".to_owned(), "*".to_owned()));
    headers.push(("Access-Control-Allow-Methods".to_owned(), "*".to_owned()));
    proof {
        assert(headers.deep_view() =~= spec_cors_headers().subrange(0, 3));
    }
    (response, headers)
}

/// The forwarded identity headers built from the validated claims.
pub open spec fn spec_forwarded_headers(
    c: ClaimsView,
    roles: Seq<char>,
    token_type: Seq<char>,
) -> Seq<(Seq<char>, Seq<char>)> {
    seq![
        ("X-Forwarded-User"@, c.token_id),
        ("X-Forwarded-User-Username"@, c.preferred_username),
        ("X-Forwarded-User-First-Name"@, c.given_name),
        ("X-Forwarded-User-Last-Name"@, c.family_name),
        ("X-Forwarded-User-Email"@, c.email),
        ("X-Forwarded-User-Roles"@, roles),
        ("X-Forwarded-User-Type"@, token_type),
    ]
}

/// The identity headers a forwarded request carries, from the validated
/// claims, the user's roles for this app, and the token source's label.
pub fn forwarded_headers(claims: &Claims, roles: &str, token_type: &str) -> (r: Vec<
    (String, String),
>)
    ensures
        r.deep_view() == spec_forwarded_headers(claims@, roles@, token_type@),
{
    let mut out: Vec<(String, String)> = Vec::new();
    out.push(("X-Forwarded-User".to_owned(), claims.token_id.clone()));
    out.push(("X-Forwarded-User-Username".to_owned(), claims.preferred_username.clone()));
    out.push(("X-Forwarded-User-First-Name".to_owned(), claims.given_name.clone()));
    out.push(("X-Forwarded-User-Last-Name".to_owned(), claims.family_name.clone()));
    out.push(("X-Forwarded-User-Email".to_owned(), claims.email.clone()));
    out.push(("X-Forwarded-User-Roles".to_owned(), roles.to_owned()));
    out.push(("X-Forwarded-User-Type".to_owned(), token_type.to_owned()));
    proof {
        assert(out.deep_view() =~= spec_forwarded_headers(claims@, roles@, token_type@));
    }
    out
}

/// Finds the first entry of one app key.
fn find_table_entry(l: &Vec<(String, (ApiDefinition, Node))>, k: &str) -> (r: Option<usize>)
    ensures
        match r {
            Some(idx) => idx < l.len() && l@[idx as int].0@ == k@ && (forall|j: int|
                0 <= j < idx ==> (#[trigger] l@[j]).0@ != k@),
            None => forall|j: int| 0 <= j < l.len() ==> (#[trigger] l@[j]).0@ != k@,
        },
{
    let mut idx: usize = 0;
    while idx < l.len()
        invariant
            idx <= l.len(),
            forall|j: int| 0 <= j < idx ==> (#[trigger] l@[j]).0@ != k@,
        decreases l.len() - idx,
    {
        if str_eq(l[idx].0.as_str(), k) {
            return Some(idx);
        }
        idx += 1;
    }
    None
}

/// The live API table: one entry per app key, holding the built definition
/// and its route tree.
pub struct ApiTable {
    pub entries: Vec<(String, (ApiDefinition, Node))>,
}

impl View for ApiTable {
    type V = Seq<(Seq<char>, (ApiDefinitionView, NodeView))>;

    open spec fn view(&self) -> Seq<(Seq<char>, (ApiDefinitionView, NodeView))> {
        self.entries@.map_values(
            |e: (String, (ApiDefinition, Node))| (e.0@, (e.1.0@, node_view(e.1.1))),
        )
    }
}

/// Every stored definition has a non-empty app name.
pub open spec fn table_wf(t: Seq<(Seq<char>, (ApiDefinitionView, NodeView))>) -> bool {
    forall|j: int| 0 <= j < t.len() ==> (#[trigger] t[j]).1.0.spec.app_name.len() >= 1
}

/// A definition with its two backend URI roots filled in.
pub open spec fn spec_built_def(d: ApiDefinitionView) -> ApiDefinitionView {
    ApiDefinitionView {
        spec: ApiDefinitionSpecView {
            uri_http: "http://"@ + d.spec.host + d.spec.forward_path,
            uri_ws: "ws://"@ + d.spec.host + d.spec.forward_path,
            ..d.spec
        },
    }
}

impl ApiTable {
    /// A table with no APIs.
    pub fn new() -> (t: ApiTable)
        ensures
            t@ == Seq::<(Seq<char>, (ApiDefinitionView, NodeView))>::empty(),
            table_wf(t@),
    {
        let t = ApiTable { entries: Vec::new() };
        proof {
            assert(t@ =~= Seq::<(Seq<char>, (ApiDefinitionView, NodeView))>::empty());
        }
        t
    }

    /// Finds the entry of one app key.
    fn lookup<'a>(&'a self, app: &str) -> (r: Option<&'a (String, (ApiDefinition, Node))>)
        ensures
            match r {
                Some(e) => assoc_get(self@, app@) == Some((e.1.0@, node_view(e.1.1))),
                None => assoc_get(self@, app@) is None,
            },
    {
        let mut idx: usize = 0;
        while idx < self.entries.len()
            invariant
                idx <= self.entries.len(),
                forall|j: int| 0 <= j < idx ==> (#[trigger] self.entries@[j]).0@ != app@,
            decreases self.entries.len() - idx,
        {
            if str_eq(self.entries[idx].0.as_str(), app) {
                proof {
                    assert forall|j: int| 0 <= j < idx implies (#[trigger] self@[j]).0 != app@ by {
                        assert(self@[j].0 == self.entries@[j].0@);
                    }
                    assert(self@[idx as int] == (
                        self.entries@[idx as int].0@,
                        (
                            self.entries@[idx as int].1.0@,
                            node_view(self.entries@[idx as int].1.1),
                        ),
                    ));
                    lemma_assoc_get_at(self@, app@, idx as int);
                }
                return Some(&self.entries[idx]);
            }
            idx += 1;
        }
        proof {
            assert forall|j: int| 0 <= j < self@.len() implies (#[trigger] self@[j]).0 != app@ by {
                assert(self@[j].0 == self.entries@[j].0@);
            }
            lemma_assoc_get_none(self@, app@);
        }
        None
    }

    /// Validates one incoming definition and, when it passes, builds its
    /// URIs and route tree and enters it under its app name, replacing any
    /// earlier entry; a rejected definition leaves the table untouched.
    pub fn update_api(&mut self, apidefinition: ApiDefinition) -> (r: Result<(), String>)
        requires
            table_wf(old(self)@),
        ensures
            table_wf(final(self)@),
            r is Ok <==> spec_api_valid(apidefinition@.spec) && spec_conflict_free(
                apidefinition@.spec.mode,
            ),
            r is Err ==> final(self)@ == old(self)@,
            r is Ok ==> final(self)@ == assoc_set(
                old(self)@,
                apidefinition@.spec.app_name,
                (spec_built_def(apidefinition@), spec_build(apidefinition@.spec)),
            ),
    {
        match apidefinition.check_fields() {
            Ok(_) => {},
            Err(e) => {
                return Err(e);
            },
        }
        match check_for_conflicts(&apidefinition) {
            Ok(_) => {},
            Err(e) => {
                return Err(e);
            },
        }
        let mut built = apidefinition;
        built.build_uri();
        let node = Node::new(&built);
        let ghost key = built@.spec.app_name;
        let ghost value = (built@, node_view(node));
        let app_name = built.spec.app_name.clone();
        let ghost pre = self@;
        proof {
            assert(pre.len() == self.entries@.len());
        }
        let found = find_table_entry(&self.entries, app_name.as_str());
        if let Some(found) = found {
            let ghost eprev = self.entries@;
            proof {
                assert forall|j: int| 0 <= j < found implies (#[trigger] pre[j]).0 != key by {
                    assert(pre[j].0 == self.entries@[j].0@);
                }
                assert(pre[found as int].0 == self.entries@[found as int].0@);
            }
            let _ = self.entries.remove(found);
            self.entries.insert(found, (app_name, (built, node)));
            proof {
                assert(self.entries@ =~= eprev.update(found as int, self.entries@[found as int]));
                assert(pre[found as int].0 == key);
                lemma_assoc_set_at(pre, key, value, found as int);
                assert(self@ =~= pre.update(found as int, (key, value)));
                assert(table_wf(self@)) by {
                    assert forall|j: int| 0 <= j < self@.len() implies (
                    #[trigger] self@[j]).1.0.spec.app_name.len() >= 1 by {
                        if j != found {
                            assert(self@[j] == pre[j]);
                        }
                    }
                }
            }
            Ok(())
        } else {
            let ghost eprev = self.entries@;
            proof {
                assert forall|j: int| 0 <= j < pre.len() implies (#[trigger] pre[j]).0 != key by {
                    assert(pre[j].0 == self.entries@[j].0@);
                }
            }
            self.entries.push((app_name, (built, node)));
            proof {
                lemma_assoc_set_none(pre, key, value);
                assert(self@ =~= pre.push((key, value)));
                assert(table_wf(self@)) by {
                    assert forall|j: int| 0 <= j < self@.len() implies (
                    #[trigger] self@[j]).1.0.spec.app_name.len() >= 1 by {
                        if j < pre.len() {
                            assert(self@[j] == pre[j]);
                        }
                    }
                }
            }
            Ok(())
        }
    }
}

/// What one request's pipeline arrives at.
pub enum OutcomeView {
    Metrics,
    Health,
    Respond {
        status_code: u16,
        body: Seq<char>,
        commit_app: Seq<char>,
        commit_method: Seq<char>,
        commit_status: u16,
    },
    ForwardHttp {
        uri: Seq<char>,
        headers: Seq<(Seq<char>, Seq<char>)>,
        app: Seq<char>,
        method: Seq<char>,
    },
    UpgradeWebsocket { uri: Seq<char>, app: Seq<char>, method: Seq<char> },
}

/// The pipeline's decision: expose metrics, answer health, answer directly
/// (with the one metrics commit for that answer), forward over HTTP, or
/// upgrade to a WebSocket tunnel.
#[derive(Debug)]
pub enum Outcome {
    Metrics,
    Health,
    Respond { response: GatewayResponse, commit: HttpCommit },
    ForwardHttp { uri: String, headers: Vec<(String, String)>, app: String, method: String },
    UpgradeWebsocket { uri: String, app: String, method: String },
}

impl View for Outcome {
    type V = OutcomeView;

    open spec fn view(&self) -> OutcomeView {
        match self {
            Outcome::Metrics => OutcomeView::Metrics,
            Outcome::Health => OutcomeView::Health,
            Outcome::Respond { response, commit } => OutcomeView::Respond {
                status_code: response.status_code,
                body: response.body@,
                commit_app: commit.app@,
                commit_method: commit.method@,
                commit_status: commit.status_code,
            },
            Outcome::ForwardHttp { uri, headers, app, method } => OutcomeView::ForwardHttp {
                uri: uri@,
                headers: headers.deep_view(),
                app: app@,
                method: method@,
            },
            Outcome::UpgradeWebsocket { uri, app, method } => OutcomeView::UpgradeWebsocket {
                uri: uri@,
                app: app@,
                method: method@,
            },
        }
    }
}

/// A direct answer and its commit, labelled alike.
pub open spec fn spec_respond_view(
    status: u16,
    body: Seq<char>,
    app: Seq<char>,
    method: Seq<char>,
) -> OutcomeView {
    OutcomeView::Respond {
        status_code: status,
        body: body,
        commit_app: app,
        commit_method: method,
        commit_status: status,
    }
}

/// The call step on a resolved endpoint: permission check, websocket
/// branches, the backend URI gate, and the forwarded headers.
pub open spec fn spec_call(
    cache: PermCacheView,
    api: ApiDefinitionSpecView,
    endpoint: EndpointView,
    app: Seq<char>,
    method: Seq<char>,
    forwarded_uri: Seq<char>,
    is_upgrade: bool,
    claims: ClaimsView,
    token_type: Seq<char>,
) -> OutcomeView {
    if endpoint.check_permission && !spec_has_perm(cache, endpoint.permission, claims.token_id) {
        spec_respond_view(403, "Forbidden"@, app, method)
    } else if endpoint.is_websocket && is_upgrade {
        OutcomeView::UpgradeWebsocket { uri: api.uri_ws + forwarded_uri, app: app, method: method }
    } else if endpoint.is_websocket {
        spec_respond_view(426, ""@, app, method)
    } else if !uri_accepts(api.uri_http + forwarded_uri) {
        spec_respond_view(404, "Not Found"@, app, method)
    } else {
        OutcomeView::ForwardHttp {
            uri: api.uri_http + forwarded_uri,
            headers: spec_forwarded_headers(
                claims,
                spec_roles_string(
                    cache.roles,
                    claims.token_id,
                    api.app_name.subrange(1, api.app_name.len() as int),
                ),
                token_type,
            ),
            app: app,
            method: method,
        }
    }
}

/// Dispatch past credential validation: look the app up, resolve the
/// endpoint by mode, and run the call step.
pub open spec fn spec_dispatch(
    table: Seq<(Seq<char>, (ApiDefinitionView, NodeView))>,
    cache: PermCacheView,
    app: Seq<char>,
    path: Seq<char>,
    path_and_query: Seq<char>,
    method: Seq<char>,
    is_upgrade: bool,
    claims: ClaimsView,
    token_type: Seq<char>,
) -> OutcomeView {
    let forwarded_uri = path_and_query.subrange(app.len() as int, path_and_query.len() as int);
    let forwarded_path = path.subrange(app.len() as int, path.len() as int);
    match assoc_get(table, app) {
        None => spec_respond_view(404, "Not Found"@, app, method),
        Some(entry) => {
            let api = entry.0.spec;
            match api.mode {
                ApiModeView::ForwardAll => {
                    let endpoint = EndpointView {
                        path: forwarded_path,
                        method: method,
                        is_websocket: false,
                        check_permission: true,
                        permission: spec_permission(
                            app.subrange(1, app.len() as int),
                            method,
                            full_access(),
                        ),
                    };
                    spec_call(
                        cache,
                        api,
                        endpoint,
                        app,
                        method,
                        forwarded_uri,
                        is_upgrade,
                        claims,
                        token_type,
                    )
                },
                ApiModeView::ForwardStrict(eps) => {
                    match spec_match(entry.1, spec_split(spec_strip(forwarded_path), '/'), 0, method) {
                        None => spec_respond_view(404, "Not Found"@, app, method),
                        Some(endpoint) => spec_call(
                            cache,
                            api,
                            endpoint,
                            app,
                            method,
                            forwarded_uri,
                            is_upgrade,
                            claims,
                            token_type,
                        ),
                    }
                },
            }
        },
    }
}

/// The call step on a resolved endpoint.
fn dispatch_call(
    cache: &PermCache,
    api: &ApiDefinition,
    endpoint: &Endpoint,
    app: &str,
    method: &str,
    forwarded_uri: &str,
    is_upgrade: bool,
    claims: &Claims,
    token_type: &str,
) -> (r: Outcome)
    requires
        api@.spec.app_name.len() >= 1,
    ensures
        r@ == spec_call(
            cache@,
            api@.spec,
            endpoint@,
            app@,
            method@,
            forwarded_uri@,
            is_upgrade,
            claims@,
            token_type@,
        ),
{
    if endpoint.check_permission && !has_perm(
        cache,
        endpoint.permission.as_str(),
        claims.token_id.as_str(),
    ) {
        let (response, commit) = get_response(app, method, 403, "Forbidden");
        return Outcome::Respond { response, commit };
    }
    if endpoint.is_websocket && is_upgrade {
        let ws_uri = concat(api.spec.uri_ws.as_str(), forwarded_uri);
        return Outcome::UpgradeWebsocket {
            uri: ws_uri,
            app: app.to_owned(),
            method: method.to_owned(),
        };
    }
    if endpoint.is_websocket {
        let (response, commit) = get_response(app, method, 426, "");
        return Outcome::Respond { response, commit };
    }
    let http_uri = concat(api.spec.uri_http.as_str(), forwarded_uri);
    if !parse_uri_ok(http_uri.as_str()) {
        let (response, commit) = get_response(app, method, 404, "Not Found");
        return Outcome::Respond { response, commit };
    }
    let app_name_len = api.spec.app_name.unicode_len();
    let app_tail = api.spec.app_name.as_str().substring_char(1, app_name_len);
    let roles = roles_for(cache, claims.token_id.as_str(), app_tail);
    let headers = forwarded_headers(claims, roles.as_str(), token_type);
    Outcome::ForwardHttp {
        uri: http_uri,
        headers,
        app: app.to_owned(),
        method: method.to_owned(),
    }
}

/// One request, reduced to plain values by the process around the library.
pub struct RequestInfo {
    pub method: String,
    pub path: String,
    pub path_and_query: String,
    pub authorization: Option<String>,
    pub authorization_invalid: bool,
    pub is_upgrade: bool,
}

/// Dispatch past credential validation: resolves the app's API and endpoint
/// and decides the call, exactly as [`spec_dispatch`] says for the given
/// claims.
pub fn dispatch_authorized(
    table: &ApiTable,
    cache: &PermCache,
    req: &RequestInfo,
    app: &str,
    claims: &Claims,
    token_type: &str,
) -> (r: Outcome)
    requires
        table_wf(table@),
        1 <= app@.len() <= req.path@.len(),
        req.path_and_query@.len() >= req.path@.len(),
    ensures
        r@ == spec_dispatch(
            table@,
            cache@,
            app@,
            req.path@,
            req.path_and_query@,
            req.method@,
            req.is_upgrade,
            claims@,
            token_type@,
        ),
{
    let np = req.path.unicode_len();
    let npq = req.path_and_query.unicode_len();
    let na = app.unicode_len();
    let forwarded_uri = req.path_and_query.as_str().substring_char(na, npq);
    let forwarded_path = req.path.as_str().substring_char(na, np);
    match table.lookup(app) {
        None => {
            let (response, commit) = get_response(app, req.method.as_str(), 404, "Not Found");
            Outcome::Respond { response, commit }
        },
        Some(entry) => {
            let api: &ApiDefinition = &entry.1.0;
            let node: &Node = &entry.1.1;
            proof {
                lemma_assoc_get_some_in(table@, app@, (api@, node_view(*node)));
                let j = choose|j: int|
                    0 <= j < table@.len() && #[trigger] table@[j] == (
                        app@,
                        (api@, node_view(*node)),
                    );
                assert(table@[j].1.0.spec.app_name.len() >= 1);
            }
            match &api.spec.mode {
                ApiMode::ForwardAll => {
                    let endpoint = Endpoint::from_forward_all(
                        forwarded_path.to_owned(),
                        req.method.clone(),
                        app,
                    );
                    dispatch_call(
                        cache,
                        api,
                        &endpoint,
                        app,
                        req.method.as_str(),
                        forwarded_uri,
                        req.is_upgrade,
                        claims,
                        token_type,
                    )
                },
                ApiMode::ForwardStrict(_) => {
                    match node.match_path(forwarded_path, req.method.as_str()) {
                        None => {
                            let (response, commit) = get_response(
                                app,
                                req.method.as_str(),
                                404,
                                "Not Found",
                            );
                            Outcome::Respond { response, commit }
                        },
                        Some(endpoint) => dispatch_call(
                            cache,
                            api,
                            endpoint,
                            app,
                            req.method.as_str(),
                            forwarded_uri,
                            req.is_upgrade,
                            claims,
                            token_type,
                        ),
                    }
                },
            }
        },
    }
}

/// The reserved top-level paths that bypass the pipeline.
pub open spec fn spec_reserved(path: Seq<char>) -> bool {
    path == "/metrics"@ || path == "/health"@
}

/// The app key of a path: its first segment with the leading slash, present
/// exactly when a second slash follows the first character.
pub open spec fn spec_app_of(path: Seq<char>) -> Option<Seq<char>> {
    let i = first_index_of(path.subrange(1, path.len() as int), '/');
    if i == path.len() - 1 {
        None
    } else {
        Some(path.subrange(0, i + 1))
    }
}

/// The whole per-request pipeline. Reserved paths bypass it, OPTIONS
/// answers 204 with no app label, a path without an app key answers 404, and
/// a request without a usable credential answers 403. Past those gates every
/// outcome is pinned: it is the 403 Forbidden answer for the request's app
/// (a credential the sources reject), or [`spec_dispatch`]'s decision for
/// the validated claims.
#[verifier::rlimit(60)]
pub fn route_request(
    table: &ApiTable,
    cache: &PermCache,
    sources: &Vec<TokenSource>,
    req: &RequestInfo,
) -> (r: Outcome)
    requires
        table_wf(table@),
        req.path@.len() >= 1,
        req.path@[0] == '/',
        req.path_and_query@.len() >= req.path@.len(),
        req.path_and_query@.subrange(0, req.path@.len() as int) == req.path@,
    ensures
        r is Metrics <==> req.path@ == "/metrics"@,
        r is Health <==> req.path@ == "/health"@,
        r matches Outcome::Respond { response, commit } ==> commit.status_code
            == response.status_code && commit.method@ == req.method@,
        (!spec_reserved(req.path@) && req.method@ == "OPTIONS"@) ==> (r matches Outcome::Respond {
            response,
            commit,
        } && response.status_code == 204 && response.body@ == Seq::<char>::empty() && commit.app@
            == Seq::<char>::empty()),
        (!spec_reserved(req.path@) && req.method@ != "OPTIONS"@ && spec_app_of(req.path@) is None)
            ==> (r matches Outcome::Respond { response, commit } && response.status_code == 404
            && response.body@ == "Not Found"@ && commit.app@ == Seq::<char>::empty()),
        (!spec_reserved(req.path@) && req.method@ != "OPTIONS"@ && req.authorization is None
            && req.authorization_invalid) ==> (spec_app_of(req.path@) matches Some(app) ==> (
        r matches Outcome::Respond { response, commit } && response.status_code == 403
            && response.body@ == "Forbidden"@ && commit.app@ == app)),
        (!spec_reserved(req.path@) && req.method@ != "OPTIONS"@ && req.authorization is None
            && !req.authorization_invalid && spec_auth_token_of(req.path_and_query@) is None) ==> (
        spec_app_of(req.path@) matches Some(app) ==> (r matches Outcome::Respond {
            response,
            commit,
        } && response.status_code == 403 && response.body@ == "Forbidden"@ && commit.app@
            == app)),
        (!spec_reserved(req.path@) && req.method@ != "OPTIONS"@ && (req.authorization matches Some(
            a,
        ) && a@.len() <= 7)) ==> (spec_app_of(req.path@) matches Some(app) ==> (r matches
            Outcome::Respond { response, commit } && response.status_code == 403
            && response.body@ == "Forbidden"@ && commit.app@ == app)),
        (r is ForwardHttp || r is UpgradeWebsocket) ==> spec_app_of(req.path@) is Some,
        (!spec_reserved(req.path@) && req.method@ != "OPTIONS"@) ==> (spec_app_of(req.path@)
            matches Some(app) ==> (r@ == spec_respond_view(403, "Forbidden"@, app, req.method@)
            || exists|c: ClaimsView, t: Seq<char>|
            r@ == #[trigger] spec_dispatch(
                table@,
                cache@,
                app,
                req.path@,
                req.path_and_query@,
                req.method@,
                req.is_upgrade,
                c,
                t,
            ))),
{
    proof {
        reveal_strlit("/metrics");
        reveal_strlit("/health");
        assert("/metrics"@ != "/health"@) by {
            assert("/metrics"@.len() == 8 && "/health"@.len() == 7);
        }
    }
    if str_eq(req.path.as_str(), "/metrics") {
        return Outcome::Metrics;
    }
    if str_eq(req.path.as_str(), "/health") {
        return Outcome::Health;
    }
    if str_eq(req.method.as_str(), "OPTIONS") {
        let (response, commit) = get_response("", req.method.as_str(), 204, "");
        proof {
            reveal_strlit("");
            assert(""@ =~= Seq::<char>::empty());
        }
        return Outcome::Respond { response, commit };
    }
    let np = req.path.unicode_len();
    let rest = req.path.as_str().substring_char(1, np);
    let i = find_char(rest, '/');
    proof {
        lemma_first_index_of(rest@, '/');
    }
    if i == np - 1 {
        let (response, commit) = get_response("", req.method.as_str(), 404, "Not Found");
        proof {
            reveal_strlit("");
            assert(""@ =~= Seq::<char>::empty());
        }
        return Outcome::Respond { response, commit };
    }
    let app = req.path.as_str().substring_char(0, i + 1);
    proof {
        assert(spec_app_of(req.path@) == Some(app@));
    }
    let authorization: String = match &req.authorization {
        Some(a) => a.clone(),
        None => {
            if req.authorization_invalid {
                let (response, commit) = get_response(app, req.method.as_str(), 403, "Forbidden");
                let r = Outcome::Respond { response, commit };
                proof {
                    assert(r@ == spec_respond_view(403, "Forbidden"@, app@, req.method@));
                }
                return r;
            }
            match get_auth_from_url(req.path_and_query.as_str()) {
                None => {
                    let (response, commit) = get_response(
                        app,
                        req.method.as_str(),
                        403,
                        "Forbidden",
                    );
                    let r = Outcome::Respond { response, commit };
                    proof {
                        assert(r@ == spec_respond_view(403, "Forbidden"@, app@, req.method@));
                    }
                    return r;
                },
                Some(a) => a,
            }
        },
    };
    match get_claims(authorization.as_str(), sources) {
        None => {
            let (response, commit) = get_response(app, req.method.as_str(), 403, "Forbidden");
            let r = Outcome::Respond { response, commit };
            proof {
                assert(r@ == spec_respond_view(403, "Forbidden"@, app@, req.method@));
            }
            r
        },
        Some((claims, token_type)) => {
            let r = dispatch_authorized(table, cache, req, app, &claims, token_type.as_str());
            proof {
                assert(r@ == spec_dispatch(
                    table@,
                    cache@,
                    app@,
                    req.path@,
                    req.path_and_query@,
                    req.method@,
                    req.is_upgrade,
                    claims@,
                    token_type@,
                ));
                let appv = spec_app_of(req.path@)->Some_0;
                assert(appv == app@);
                assert(exists|c: ClaimsView, t: Seq<char>|
                    r@ == #[trigger] spec_dispatch(
                        table@,
                        cache@,
                        appv,
                        req.path@,
                        req.path_and_query@,
                        req.method@,
                        req.is_upgrade,
                        c,
                        t,
                    ));
            }
            r
        },
    }
}

} // verus!
