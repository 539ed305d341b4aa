//! Endpoints: one `(path template, method)` entry of an API's route table,
//! with its derived permission string.

use vstd::prelude::*;
use vstd::string::StrSliceExecFns;
use vstd::string::StringExecFns;
use crate::strutil::concat;
use crate::pattern::{params_ok, check_params, spec_collapse_path, collapse_path};

verus! {

/// The mathematical content of an [`Endpoint`].
pub struct EndpointView {
    pub path: Seq<char>,
    pub method: Seq<char>,
    pub is_websocket: bool,
    pub permission: Seq<char>,
    pub check_permission: bool,
}

/// One declared route of an API: a path template and a method, an optional
/// websocket marker, and the permission string derived from them.
#[derive(Debug, Clone)]
pub struct Endpoint {
    pub path: String,
    pub method: String,
    pub is_websocket: bool,
    pub permission: String,
    pub check_permission: bool,
}

impl View for Endpoint {
    type V = EndpointView;

    open spec fn view(&self) -> EndpointView {
        EndpointView {
            path: self.path@,
            method: self.method@,
            is_websocket: self.is_websocket,
            permission: self.permission@,
            check_permission: self.check_permission,
        }
    }
}

impl DeepView for Endpoint {
    type V = EndpointView;

    open spec fn deep_view(&self) -> EndpointView {
        self.view()
    }
}

/// The `::` separator of permission strings.
pub open spec fn double_colon() -> Seq<char> {
    seq![':', ':']
}

/// The path part of a forward-all permission.
pub open spec fn full_access() -> Seq<char> {
    seq!['F', 'U', 'L', 'L', '_', 'A', 'C', 'C', 'E', 'S', 'S']
}

/// `"{app}::{method}::{path_part}"`.
pub open spec fn spec_permission(app: Seq<char>, method: Seq<char>, path_part: Seq<char>) -> Seq<
    char,
> {
    app + double_colon() + method + double_colon() + path_part
}

/// The characters that an HTTP method token may hold.
pub open spec fn is_method_char(c: char) -> bool {
    ||| c == '!'
    ||| c == '#'
    ||| c == '$'
    ||| c == '%'
    ||| c == '&'
    ||| c == '\''
    ||| c == '*'
    ||| c == '+'
    ||| c == '-'
    ||| c == '.'
    ||| c == '^'
    ||| c == '_'
    ||| c == '`'
    ||| c == '|'
    ||| c == '~'
    ||| '0' <= c && c <= '9'
    ||| 'A' <= c && c <= 'Z'
    ||| 'a' <= c && c <= 'z'
}

/// A non-empty string of method-token characters.
pub open spec fn is_method_token(s: Seq<char>) -> bool {
    s.len() > 0 && forall|i: int| 0 <= i < s.len() ==> is_method_char(s[i])
}

/// Relies on hyper::Method::from_str (the `http` crate): parsing succeeds
/// exactly for a non-empty token of the RFC 9110 method characters
/// `!#$%&'*+-.^_`|~`, digits and letters; every other byte is refused by its
/// character table.
#[verifier::external_body]
fn parse_method_ok(s: &str) -> (r: bool)
    ensures
        r == is_method_token(s@),
{
    <hyper::Method as core::str::FromStr>::from_str(s).is_ok()
}

/// A structurally sound endpoint: non-empty absolute path, well-placed
/// parameters, and a method token.
pub open spec fn spec_endpoint_valid(e: EndpointView) -> bool {
    &&& e.path.len() > 0
    &&& e.path[0] == '/'
    &&& params_ok(e.path)
    &&& is_method_token(e.method)
}

impl Endpoint {
    /// A field-for-field copy.
    pub fn duplicate(&self) -> (r: Endpoint)
        ensures
            r@ == self@,
    {
        Endpoint {
            path: self.path.clone(),
            method: self.method.clone(),
            is_websocket: self.is_websocket,
            permission: self.permission.clone(),
            check_permission: self.check_permission,
        }
    }

    /// The endpoint synthesized for a forward-all API: any path, permission
    /// `"{app[1..]}::{method}::FULL_ACCESS"`, always permission-checked.
    pub fn from_forward_all(path: String, method: String, app: &str) -> (r: Endpoint)
        requires
            app@.len() >= 1,
        ensures
            r@.path == path@,
            r@.method == method@,
            !r@.is_websocket,
            r@.check_permission,
            r@.permission == spec_permission(
                app@.subrange(1, app@.len() as int),
                method@,
                full_access(),
            ),
    {
        let app_len = app.unicode_len();
        let app_tail = app.substring_char(1, app_len);
        let mut permission = app_tail.to_owned();
        permission.append("::");
        permission.append(method.as_str());
        permission.append("::FULL_ACCESS");
        proof {
            reveal_strlit("::");
            reveal_strlit("::FULL_ACCESS");
            assert("::"@ =~= double_colon());
            assert("::FULL_ACCESS"@ =~= double_colon() + full_access());
            assert(permission@ =~= spec_permission(
                app@.subrange(1, app@.len() as int),
                method@,
                full_access(),
            ));
        }
        Endpoint { permission, path, method, is_websocket: false, check_permission: true }
    }

    /// Validates path shape, parameter placement, and the method token.
    pub fn check_fields(&self) -> (r: Result<(), String>)
        ensures
            r is Ok <==> spec_endpoint_valid(self@),
    {
        self.check_path()?;
        self.check_parameters()?;
        self.check_method()?;
        Ok(())
    }

    /// Rewrites the permission string to
    /// `"{app}::{method}::{path with parameters collapsed}"`.
    pub fn build_permission(&mut self, app: &str)
        ensures
            final(self).path == old(self).path,
            final(self).method == old(self).method,
            final(self).is_websocket == old(self).is_websocket,
            final(self).check_permission == old(self).check_permission,
            final(self)@.permission == spec_permission(
                app@,
                old(self).method@,
                spec_collapse_path(old(self).path@),
            ),
    {
        let collapsed = collapse_path(self.path.as_str());
        let mut permission = app.to_owned();
        permission.append("::");
        permission.append(self.method.as_str());
        permission.append("::");
        permission.append(collapsed.as_str());
        proof {
            reveal_strlit("::");
            assert("::"@ =~= double_colon());
            assert(permission@ =~= spec_permission(
                app@,
                self.method@,
                spec_collapse_path(self.path@),
            ));
        }
        self.permission = permission;
    }

    /// The path must be non-empty and begin with `/`.
    fn check_path(&self) -> (r: Result<(), String>)
        ensures
            r is Ok <==> (self.path@.len() > 0 && self.path@[0] == '/'),
    {
        if self.path.unicode_len() == 0 {
            let err_msg = concat(self.path.as_str(), " must be at least 1 characters");
            return Err(concat("path: ", err_msg.as_str()));
        }
        if self.path.as_str().get_char(0) != '/' {
            let err_msg = concat(self.path.as_str(), " should start with `/`");
            return Err(concat("path: ", err_msg.as_str()));
        }
        Ok(())
    }

    /// Every `{...}` parameter must directly follow a `/`.
    fn check_parameters(&self) -> (r: Result<(), String>)
        ensures
            r is Ok <==> params_ok(self.path@),
    {
        if check_params(self.path.as_str()) {
            Ok(())
        } else {
            let err_msg = concat(self.path.as_str(), "`");
            Err(concat("param: not preceded by `/` in path `", err_msg.as_str()))
        }
    }

    /// The method must be a parsable HTTP method token.
    fn check_method(&self) -> (r: Result<(), String>)
        ensures
            r is Ok <==> is_method_token(self.method@),
    {
        if parse_method_ok(self.method.as_str()) {
            Ok(())
        } else {
            let err_msg = concat(self.method.as_str(), "`");
            Err(concat("couldn't parse method: `", err_msg.as_str()))
        }
    }
}

} // verus!
