//! API definitions: one backend service, its dispatch mode, and the
//! validation rules an incoming definition must pass.

use vstd::prelude::*;
use vstd::string::StrSliceExecFns;
use vstd::string::StringExecFns;
use crate::strutil::{concat, str_eq, has_char, contains_char};
use crate::endpoint::{Endpoint, EndpointView, spec_endpoint_valid};
use crate::pattern::{spec_template_matches, template_matches};

verus! {

broadcast use vstd::std_specs::vec::group_vec_axioms, vstd::seq::group_seq_axioms;

/// The mathematical content of an [`ApiMode`].
pub enum ApiModeView {
    ForwardAll,
    ForwardStrict(Seq<EndpointView>),
}

/// Dispatch mode of an API: forward any subpath, or only declared endpoints.
#[derive(Debug, Clone)]
pub enum ApiMode {
    ForwardAll,
    ForwardStrict(Vec<Endpoint>),
}

impl View for ApiMode {
    type V = ApiModeView;

    open spec fn view(&self) -> ApiModeView {
        match self {
            ApiMode::ForwardAll => ApiModeView::ForwardAll,
            ApiMode::ForwardStrict(eps) => ApiModeView::ForwardStrict(eps.deep_view()),
        }
    }
}

/// The mathematical content of an [`ApiDefinitionSpec`].
pub struct ApiDefinitionSpecView {
    pub app_name: Seq<char>,
    pub host: Seq<char>,
    pub mode: ApiModeView,
    pub forward_path: Seq<char>,
    pub uri_http: Seq<char>,
    pub uri_ws: Seq<char>,
}

/// The declared fields of one API: its app prefix, backend authority,
/// dispatch mode, and forward path, plus the two derived backend URI roots.
#[derive(Debug, Clone)]
pub struct ApiDefinitionSpec {
    pub app_name: String,
    pub host: String,
    pub mode: ApiMode,
    pub forward_path: String,
    pub uri_http: String,
    pub uri_ws: String,
}

impl View for ApiDefinitionSpec {
    type V = ApiDefinitionSpecView;

    open spec fn view(&self) -> ApiDefinitionSpecView {
        ApiDefinitionSpecView {
            app_name: self.app_name@,
            host: self.host@,
            mode: self.mode@,
            forward_path: self.forward_path@,
            uri_http: self.uri_http@,
            uri_ws: self.uri_ws@,
        }
    }
}

/// The mathematical content of an [`ApiDefinition`].
pub struct ApiDefinitionView {
    pub spec: ApiDefinitionSpecView,
}

/// One API definition as delivered by the definition stream.
#[derive(Debug, Clone)]
pub struct ApiDefinition {
    pub spec: ApiDefinitionSpec,
}

impl View for ApiDefinition {
    type V = ApiDefinitionView;

    open spec fn view(&self) -> ApiDefinitionView {
        ApiDefinitionView { spec: self.spec@ }
    }
}

/// What `url::Url::parse` accepts: a function of the text alone.
pub uninterp spec fn url_accepts(s: Seq<char>) -> bool;

/// Relies on url::Url::parse: whether a text parses as an absolute URL
/// depends on the text alone.
#[verifier::external_body]
fn parse_url_ok(s: &str) -> (r: bool)
    ensures
        r == url_accepts(s@),
{
    url::Url::parse(s).is_ok()
}

/// A well-formed app name: at least two characters, a leading `/` and no
/// second one, and not one of the two reserved gateway paths.
pub open spec fn spec_app_name_valid(s: Seq<char>) -> bool {
    &&& s.len() >= 2
    &&& s[0] == '/'
    &&& !has_char(s.subrange(1, s.len() as int), '/')
    &&& s != "/metrics"@
    &&& s != "/health"@
}

/// A well-formed forward path: empty or beginning with `/`.
pub open spec fn spec_forward_path_valid(s: Seq<char>) -> bool {
    s.len() == 0 || s[0] == '/'
}

/// Every declared endpoint of a strict API is well-formed.
pub open spec fn spec_endpoints_valid(m: ApiModeView) -> bool {
    match m {
        ApiModeView::ForwardAll => true,
        ApiModeView::ForwardStrict(eps) => forall|i: int|
            0 <= i < eps.len() ==> spec_endpoint_valid(#[trigger] eps[i]),
    }
}

/// All field checks of an API definition together.
pub open spec fn spec_api_valid(v: ApiDefinitionSpecView) -> bool {
    &&& spec_app_name_valid(v.app_name)
    &&& url_accepts("http://"@ + v.host)
    &&& spec_endpoints_valid(v.mode)
    &&& spec_forward_path_valid(v.forward_path)
}

/// No two endpoints of a strict API share `(path, method)`.
pub open spec fn spec_no_duplicates(eps: Seq<EndpointView>) -> bool {
    forall|a: int, b: int|
        0 <= a < b < eps.len() ==> !(eps[a].path == eps[b].path && eps[a].method == eps[b].method)
}

/// No endpoint template subsumes a different sibling path under the same
/// method.
pub open spec fn spec_no_subsumption(eps: Seq<EndpointView>) -> bool {
    forall|a: int, b: int|
        0 <= a < eps.len() && 0 <= b < eps.len() && eps[a].method == eps[b].method && eps[a].path
            != eps[b].path ==> !spec_template_matches(eps[a].path, eps[b].path)
}

/// A strict API is free of duplicate and mutually shadowing endpoints.
pub open spec fn spec_conflict_free(m: ApiModeView) -> bool {
    match m {
        ApiModeView::ForwardAll => true,
        ApiModeView::ForwardStrict(eps) => spec_no_duplicates(eps) && spec_no_subsumption(eps),
    }
}

/// Rejects a strict API whose endpoints repeat a `(path, method)` pair or
/// whose parameterized path subsumes a sibling path under the same method.
pub fn check_for_conflicts(api: &ApiDefinition) -> (r: Result<(), String>)
    ensures
        r is Ok <==> spec_conflict_free(api@.spec.mode),
{
    let eps: &Vec<Endpoint> = match &api.spec.mode {
        ApiMode::ForwardAll => {
            return Ok(());
        },
        ApiMode::ForwardStrict(eps) => eps,
    };
    let n = eps.len();
    let mut a: usize = 0;
    while a < n
        invariant
            n == eps.len(),
            a <= n,
            api@.spec.mode == ApiModeView::ForwardStrict(eps.deep_view()),
            eps.deep_view().len() == n as int,
            forall|x: int, y: int|
                0 <= x < y < n && x < a ==> !(eps.deep_view()[x].path == eps.deep_view()[y].path
                    && eps.deep_view()[x].method == eps.deep_view()[y].method),
            forall|x: int, y: int|
                0 <= x < a && 0 <= y < n && eps.deep_view()[x].method
                    == eps.deep_view()[y].method && eps.deep_view()[x].path
                    != eps.deep_view()[y].path ==> !spec_template_matches(
                    eps.deep_view()[x].path,
                    eps.deep_view()[y].path,
                ),
        decreases n - a,
    {
        let mut b: usize = 0;
        while b < n
            invariant
                n == eps.len(),
                a < n,
                b <= n,
                api@.spec.mode == ApiModeView::ForwardStrict(eps.deep_view()),
                eps.deep_view().len() == n as int,
                forall|y: int|
                    a < y < b ==> !(eps.deep_view()[a as int].path == eps.deep_view()[y].path
                        && eps.deep_view()[a as int].method == eps.deep_view()[y].method),
                forall|y: int|
                    0 <= y < b && eps.deep_view()[a as int].method
                        == eps.deep_view()[y].method && eps.deep_view()[a as int].path
                        != eps.deep_view()[y].path ==> !spec_template_matches(
                        eps.deep_view()[a as int].path,
                        eps.deep_view()[y].path,
                    ),
            decreases n - b,
        {
            proof {
                assert(eps.deep_view()[a as int] == eps@[a as int]@);
                assert(eps.deep_view()[b as int] == eps@[b as int]@);
            }
            if b > a {
                if str_eq(eps[a].path.as_str(), eps[b].path.as_str()) && str_eq(
                    eps[a].method.as_str(),
                    eps[b].method.as_str(),
                ) {
                    return Err(concat("duplicate endpoints in ", api.spec.app_name.as_str()));
                }
            }
            if str_eq(eps[a].method.as_str(), eps[b].method.as_str()) && !str_eq(
                eps[a].path.as_str(),
                eps[b].path.as_str(),
            ) {
                if template_matches(eps[a].path.as_str(), eps[b].path.as_str()) {
                    let err_msg = concat(" conflicts with `", eps[a].path.as_str());
                    let err_head = concat("endpoint `", eps[b].path.as_str());
                    let err_tail = concat(err_msg.as_str(), "`");
                    return Err(concat(err_head.as_str(), err_tail.as_str()));
                }
            }
            b += 1;
        }
        a += 1;
    }
    Ok(())
}

impl ApiDefinition {
    /// Validates app name, host, endpoints, and forward path.
    pub fn check_fields(&self) -> (r: Result<(), String>)
        ensures
            r is Ok <==> spec_api_valid(self@.spec),
    {
        self.check_app_name()?;
        self.check_host()?;
        self.check_endpoints()?;
        self.check_forward_path()?;
        Ok(())
    }

    /// Fills the derived backend URI roots from host and forward path.
    pub fn build_uri(&mut self)
        ensures
            final(self).spec.app_name == old(self).spec.app_name,
            final(self).spec.host == old(self).spec.host,
            final(self).spec.mode == old(self).spec.mode,
            final(self).spec.forward_path == old(self).spec.forward_path,
            final(self)@.spec.uri_http == "http://"@ + old(self)@.spec.host + old(
                self,
            )@.spec.forward_path,
            final(self)@.spec.uri_ws == "ws://"@ + old(self)@.spec.host + old(
                self,
            )@.spec.forward_path,
    {
        let tail = concat(self.spec.host.as_str(), self.spec.forward_path.as_str());
        self.spec.uri_http = concat("http://", tail.as_str());
        self.spec.uri_ws = concat("ws://", tail.as_str());
        proof {
            assert(self.spec.uri_http@ =~= "http://"@ + self.spec.host@
                + self.spec.forward_path@);
            assert(self.spec.uri_ws@ =~= "ws://"@ + self.spec.host@ + self.spec.forward_path@);
        }
    }

    /// App name rules: length, a single leading `/`, and not a reserved path.
    fn check_app_name(&self) -> (r: Result<(), String>)
        ensures
            r is Ok <==> spec_app_name_valid(self.spec.app_name@),
    {
        let name = self.spec.app_name.as_str();
        let n = name.unicode_len();
        if n < 2 {
            let err_msg = concat(name, " must be at least 2 characters");
            return Err(concat("app_name: ", err_msg.as_str()));
        }
        if name.get_char(0) != '/' {
            let err_msg = concat(name, " should start with `/`");
            return Err(concat("app_name: ", err_msg.as_str()));
        }
        if contains_char(name.substring_char(1, n), '/') {
            let err_msg = concat(name, " should only have one `/`");
            return Err(concat("app_name: ", err_msg.as_str()));
        }
        if str_eq(name, "/metrics") || str_eq(name, "/health") {
            let err_msg = concat(name, " cannot be `/metrics` or `/health`");
            return Err(concat("app_name: ", err_msg.as_str()));
        }
        Ok(())
    }

    /// The host must parse as the authority of an absolute URL.
    fn check_host(&self) -> (r: Result<(), String>)
        ensures
            r is Ok <==> url_accepts("http://"@ + self.spec.host@),
    {
        let candidate = concat("http://", self.spec.host.as_str());
        if parse_url_ok(candidate.as_str()) {
            Ok(())
        } else {
            let err_msg = concat(self.spec.host.as_str(), " isn't valid");
            Err(concat("host: ", err_msg.as_str()))
        }
    }

    /// The forward path must be empty or begin with `/`.
    fn check_forward_path(&self) -> (r: Result<(), String>)
        ensures
            r is Ok <==> spec_forward_path_valid(self.spec.forward_path@),
    {
        let fp = self.spec.forward_path.as_str();
        if fp.unicode_len() == 0 {
            return Ok(());
        }
        if fp.get_char(0) == '/' {
            return Ok(());
        }
        let err_msg = concat(fp, " should start with `/`");
        Err(concat("Forward_path: ", err_msg.as_str()))
    }

    /// Every endpoint of a strict API must pass its own field checks.
    fn check_endpoints(&self) -> (r: Result<(), String>)
        ensures
            r is Ok <==> spec_endpoints_valid(self.spec.mode@),
    {
        if let ApiMode::ForwardStrict(eps) = &self.spec.mode {
            let mut i: usize = 0;
            while i < eps.len()
                invariant
                    i <= eps.len(),
                    self.spec.mode@ == ApiModeView::ForwardStrict(eps.deep_view()),
                    eps.deep_view().len() == eps.len() as int,
                    forall|k: int| 0 <= k < i ==> spec_endpoint_valid(eps.deep_view()[k]),
                decreases eps.len() - i,
            {
                proof {
                    assert(eps.deep_view()[i as int] == eps@[i as int]@);
                }
                match eps[i].check_fields() {
                    Ok(_) => {},
                    Err(e) => {
                        proof {
                            let dv = eps.deep_view();
                            let m = ApiModeView::ForwardStrict(dv);
                            assert(m->ForwardStrict_0 == dv);
                            assert(!spec_endpoint_valid(dv[i as int]));
                            assert(!spec_endpoints_valid(m));
                        }
                        return Err(e);
                    },
                }
                i += 1;
            }
        }
        Ok(())
    }
}

} // verus!
