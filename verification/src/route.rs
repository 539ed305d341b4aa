//! The per-API route table: a trie keyed by URL segments, with literal
//! children and one optional parameter child per level.

use vstd::prelude::*;
use vstd::string::StrSliceExecFns;
use crate::endpoint::{Endpoint, EndpointView, spec_permission};
use crate::api::{ApiDefinition, ApiDefinitionSpecView, ApiMode, ApiModeView};
use crate::strutil::{spec_split, split_char, str_eq};
use crate::pattern::{seg_has_param, has_param, spec_collapse_path};

verus! {

broadcast use vstd::std_specs::vec::group_vec_axioms, vstd::seq::group_seq_axioms;

/// One trie level: endpoints that terminate here by method, literal children
/// by segment, and at most one parameter child.
#[derive(Debug)]
pub struct Node {
    pub endpoint_set: Vec<(String, Endpoint)>,
    pub sub_route: Vec<(String, Node)>,
    pub param: Option<Box<Node>>,
}

/// The mathematical content of a [`Node`].
pub struct NodeView {
    pub endpoint_set: Seq<(Seq<char>, EndpointView)>,
    pub sub_route: Seq<(Seq<char>, NodeView)>,
    pub param: Option<Box<NodeView>>,
}

/// The view of a node, level by level.
pub open spec fn node_view(n: Node) -> NodeView
    decreases n,
{
    NodeView {
        endpoint_set: eps_view(n.endpoint_set@),
        sub_route: subs_view(n.sub_route@),
        param: match n.param {
            Some(b) => Some(Box::new(node_view(*b))),
            None => None,
        },
    }
}

/// The views of the literal children, in order.
pub open spec fn subs_view(l: Seq<(String, Node)>) -> Seq<(Seq<char>, NodeView)>
    decreases l,
{
    if l.len() == 0 {
        Seq::empty()
    } else {
        seq![(l[0].0@, node_view(l[0].1))] + subs_view(l.subrange(1, l.len() as int))
    }
}

/// The views of the terminal endpoints, in order.
pub open spec fn eps_view(l: Seq<(String, Endpoint)>) -> Seq<(Seq<char>, EndpointView)> {
    l.map_values(|p: (String, Endpoint)| (p.0@, p.1@))
}

impl View for Node {
    type V = NodeView;

    open spec fn view(&self) -> NodeView {
        node_view(*self)
    }
}

pub proof fn lemma_subs_view(l: Seq<(String, Node)>)
    ensures
        subs_view(l).len() == l.len(),
        forall|i: int|
            0 <= i < l.len() ==> #[trigger] subs_view(l)[i] == (l[i].0@, node_view(l[i].1)),
    decreases l,
{
    if l.len() > 0 {
        let t = l.subrange(1, l.len() as int);
        lemma_subs_view(t);
        assert forall|i: int| 0 <= i < l.len() implies #[trigger] subs_view(l)[i] == (
        l[i].0@,
        node_view(l[i].1),
        ) by {
            if i >= 1 {
                assert(t[i - 1] == l[i]);
            }
        }
    }
}

/// First-match lookup in an association sequence.
pub open spec fn assoc_get<V>(l: Seq<(Seq<char>, V)>, k: Seq<char>) -> Option<V>
    decreases l.len(),
{
    if l.len() == 0 {
        None
    } else if l[0].0 == k {
        Some(l[0].1)
    } else {
        assoc_get(l.subrange(1, l.len() as int), k)
    }
}

/// Replace the first binding of `k`, or append one.
pub open spec fn assoc_set<V>(l: Seq<(Seq<char>, V)>, k: Seq<char>, v: V) -> Seq<(Seq<char>, V)>
    decreases l.len(),
{
    if l.len() == 0 {
        seq![(k, v)]
    } else if l[0].0 == k {
        seq![(k, v)] + l.subrange(1, l.len() as int)
    } else {
        seq![l[0]] + assoc_set(l.subrange(1, l.len() as int), k, v)
    }
}

pub proof fn lemma_assoc_get_at<V>(l: Seq<(Seq<char>, V)>, k: Seq<char>, idx: int)
    requires
        0 <= idx < l.len(),
        l[idx].0 == k,
        forall|j: int| 0 <= j < idx ==> l[j].0 != k,
    ensures
        assoc_get(l, k) == Some(l[idx].1),
    decreases l.len(),
{
    if idx > 0 {
        let t = l.subrange(1, l.len() as int);
        assert(l[0].0 != k);
        assert forall|j: int| 0 <= j < idx - 1 implies t[j].0 != k by {
            assert(t[j] == l[j + 1]);
        }
        lemma_assoc_get_at(t, k, idx - 1);
        assert(t[idx - 1] == l[idx]);
    }
}

pub proof fn lemma_assoc_get_none<V>(l: Seq<(Seq<char>, V)>, k: Seq<char>)
    requires
        forall|j: int| 0 <= j < l.len() ==> l[j].0 != k,
    ensures
        assoc_get(l, k) is None,
    decreases l.len(),
{
    if l.len() > 0 {
        let t = l.subrange(1, l.len() as int);
        assert forall|j: int| 0 <= j < t.len() implies t[j].0 != k by {
            assert(t[j] == l[j + 1]);
        }
        lemma_assoc_get_none(t, k);
    }
}

pub proof fn lemma_assoc_set_at<V>(l: Seq<(Seq<char>, V)>, k: Seq<char>, v: V, idx: int)
    requires
        0 <= idx < l.len(),
        l[idx].0 == k,
        forall|j: int| 0 <= j < idx ==> l[j].0 != k,
    ensures
        assoc_set(l, k, v) =~= l.update(idx, (k, v)),
    decreases l.len(),
{
    if idx > 0 {
        let t = l.subrange(1, l.len() as int);
        assert(l[0].0 != k);
        assert forall|j: int| 0 <= j < idx - 1 implies t[j].0 != k by {
            assert(t[j] == l[j + 1]);
        }
        lemma_assoc_set_at(t, k, v, idx - 1);
        assert(t[idx - 1] == l[idx]);
        assert(assoc_set(l, k, v) =~= seq![l[0]] + t.update(idx - 1, (k, v)));
    }
}

pub proof fn lemma_assoc_set_none<V>(l: Seq<(Seq<char>, V)>, k: Seq<char>, v: V)
    requires
        forall|j: int| 0 <= j < l.len() ==> l[j].0 != k,
    ensures
        assoc_set(l, k, v) =~= l.push((k, v)),
    decreases l.len(),
{
    if l.len() > 0 {
        let t = l.subrange(1, l.len() as int);
        assert forall|j: int| 0 <= j < t.len() implies t[j].0 != k by {
            assert(t[j] == l[j + 1]);
        }
        lemma_assoc_set_none(t, k, v);
    }
}

/// A successful lookup names an element of the list.
pub proof fn lemma_assoc_get_some_in<V>(l: Seq<(Seq<char>, V)>, k: Seq<char>, v: V)
    requires
        assoc_get(l, k) == Some(v),
    ensures
        exists|j: int| 0 <= j < l.len() && #[trigger] l[j] == (k, v),
    decreases l.len(),
{
    if l.len() > 0 {
        if l[0].0 == k {
            assert(l[0] == (k, v));
        } else {
            let t = l.subrange(1, l.len() as int);
            lemma_assoc_get_some_in(t, k, v);
            let j = choose|j: int| 0 <= j < t.len() && #[trigger] t[j] == (k, v);
            assert(l[j + 1] == (k, v));
        }
    }
}

/// The empty trie level.
pub open spec fn empty_node_view() -> NodeView {
    NodeView { endpoint_set: Seq::empty(), sub_route: Seq::empty(), param: None }
}

/// Walks the trie along `segs[i..]`: a literal child outranks the parameter
/// child at every level, and the endpoint for `method` on the terminal node
/// is the result.
pub open spec fn spec_match(n: NodeView, segs: Seq<Seq<char>>, i: int, method: Seq<char>) -> Option<
    EndpointView,
>
    decreases segs.len() - i,
{
    if i < 0 || i >= segs.len() {
        assoc_get(n.endpoint_set, method)
    } else {
        match assoc_get(n.sub_route, segs[i]) {
            Some(child) => spec_match(child, segs, i + 1, method),
            None => match n.param {
                Some(p) => spec_match(*p, segs, i + 1, method),
                None => None,
            },
        }
    }
}

/// Inserts an endpoint along `segs[i..]`: a parameter-marked segment goes to
/// the parameter child, any other to its literal child, and the endpoint
/// lands on the terminal node keyed by its method.
pub open spec fn spec_insert(n: NodeView, segs: Seq<Seq<char>>, i: int, ep: EndpointView) -> NodeView
    decreases segs.len() - i,
{
    if i < 0 || i >= segs.len() {
        NodeView { endpoint_set: assoc_set(n.endpoint_set, ep.method, ep), ..n }
    } else if seg_has_param(segs[i]) {
        let child = match n.param {
            Some(p) => *p,
            None => empty_node_view(),
        };
        NodeView { param: Some(Box::new(spec_insert(child, segs, i + 1, ep))), ..n }
    } else {
        let child = match assoc_get(n.sub_route, segs[i]) {
            Some(c) => c,
            None => empty_node_view(),
        };
        NodeView { sub_route: assoc_set(n.sub_route, segs[i], spec_insert(child, segs, i + 1, ep)), ..n }
    }
}

/// A path with exactly one leading slash stripped, and at most one trailing
/// slash stripped; paths shorter than two characters stay as they are.
pub open spec fn spec_strip(p: Seq<char>) -> Seq<char> {
    if p.len() < 2 {
        p
    } else if p[p.len() - 1] == '/' {
        p.subrange(1, p.len() - 1)
    } else {
        p.subrange(1, p.len() as int)
    }
}

/// Strips one leading slash and at most one trailing slash.
pub fn strip_path(path: &str) -> (r: &str)
    ensures
        r@ == spec_strip(path@),
{
    let n = path.unicode_len();
    if n < 2 {
        return path;
    }
    if path.get_char(n - 1) == '/' {
        path.substring_char(1, n - 1)
    } else {
        path.substring_char(1, n)
    }
}

/// The tree that the endpoints of a strict API build, one insertion after
/// the other, each with its permission derived from `app_tail`.
pub open spec fn spec_build_loop(
    eps: Seq<EndpointView>,
    app_tail: Seq<char>,
    i: int,
    acc: NodeView,
) -> NodeView
    decreases eps.len() - i,
{
    if i < 0 || i >= eps.len() {
        acc
    } else {
        let built = EndpointView {
            permission: spec_permission(app_tail, eps[i].method, spec_collapse_path(eps[i].path)),
            ..eps[i]
        };
        spec_build_loop(
            eps,
            app_tail,
            i + 1,
            spec_insert(acc, spec_split(spec_strip(eps[i].path), '/'), 0, built),
        )
    }
}

/// The route tree of an API: empty for forward-all, the endpoint trie for
/// forward-strict.
pub open spec fn spec_build(v: ApiDefinitionSpecView) -> NodeView {
    match v.mode {
        ApiModeView::ForwardAll => empty_node_view(),
        ApiModeView::ForwardStrict(eps) => spec_build_loop(
            eps,
            v.app_name.subrange(1, v.app_name.len() as int),
            0,
            empty_node_view(),
        ),
    }
}

/// Finds the first binding of `k` among the literal children.
fn find_sub(l: &Vec<(String, Node)>, k: &str) -> (r: Option<usize>)
    ensures
        match r {
            Some(idx) => idx < l.len() && l@[idx as int].0@ == k@ && (forall|j: int|
                0 <= j < idx ==> l@[j].0@ != k@),
            None => forall|j: int| 0 <= j < l.len() ==> l@[j].0@ != k@,
        },
{
    let mut idx: usize = 0;
    while idx < l.len()
        invariant
            idx <= l.len(),
            forall|j: int| 0 <= j < idx ==> l@[j].0@ != k@,
        decreases l.len() - idx,
    {
        if str_eq(l[idx].0.as_str(), k) {
            return Some(idx);
        }
        idx += 1;
    }
    None
}

/// Finds the first binding of `k` among the terminal endpoints.
fn find_ep(l: &Vec<(String, Endpoint)>, k: &str) -> (r: Option<usize>)
    ensures
        match r {
            Some(idx) => idx < l.len() && l@[idx as int].0@ == k@ && (forall|j: int|
                0 <= j < idx ==> l@[j].0@ != k@),
            None => forall|j: int| 0 <= j < l.len() ==> l@[j].0@ != k@,
        },
{
    let mut idx: usize = 0;
    while idx < l.len()
        invariant
            idx <= l.len(),
            forall|j: int| 0 <= j < idx ==> l@[j].0@ != k@,
        decreases l.len() - idx,
    {
        if str_eq(l[idx].0.as_str(), k) {
            return Some(idx);
        }
        idx += 1;
    }
    None
}

impl Node {
    /// A trie level with nothing in it.
    pub fn empty() -> (n: Node)
        ensures
            n@ == empty_node_view(),
    {
        let n = Node { endpoint_set: Vec::new(), sub_route: Vec::new(), param: None };
        proof {
            lemma_subs_view(n.sub_route@);
            assert(n@.endpoint_set =~= empty_node_view().endpoint_set);
            assert(n@.sub_route =~= empty_node_view().sub_route);
        }
        n
    }

    /// Inserts `endpoint` along the path segments `segs[i..]`.
    pub fn insert(self, segs: &Vec<String>, i: usize, endpoint: Endpoint) -> (r: Node)
        requires
            i <= segs.len(),
        ensures
            r@ == spec_insert(self@, segs.deep_view(), i as int, endpoint@),
        decreases segs.len() - i,
    {
        let ghost pre = node_view(self);
        let Node { mut endpoint_set, mut sub_route, param } = self;
        if i == segs.len() {
            let method = endpoint.method.clone();
            match find_ep(&endpoint_set, method.as_str()) {
                Some(idx) => {
                    let ghost prev = endpoint_set@;
                    let _ = endpoint_set.remove(idx);
                    endpoint_set.insert(idx, (method, endpoint));
                    proof {
                        assert(endpoint_set@ =~= prev.update(idx as int, endpoint_set@[idx as int]));
                        assert forall|j: int| 0 <= j < idx implies eps_view(prev)[j].0
                            != endpoint.method@ by {
                            assert(eps_view(prev)[j] == (prev[j].0@, prev[j].1@));
                        }
                        assert(eps_view(prev)[idx as int].0 == endpoint.method@);
                        lemma_assoc_set_at(eps_view(prev), endpoint.method@, endpoint@, idx as int);
                        assert(eps_view(endpoint_set@) =~= assoc_set(
                            eps_view(prev),
                            endpoint.method@,
                            endpoint@,
                        ));
                    }
                },
                None => {
                    let ghost prev = endpoint_set@;
                    endpoint_set.push((method, endpoint));
                    proof {
                        assert forall|j: int| 0 <= j < prev.len() implies eps_view(prev)[j].0
                            != endpoint.method@ by {
                            assert(eps_view(prev)[j] == (prev[j].0@, prev[j].1@));
                        }
                        lemma_assoc_set_none(eps_view(prev), endpoint.method@, endpoint@);
                        assert(eps_view(endpoint_set@) =~= assoc_set(
                            eps_view(prev),
                            endpoint.method@,
                            endpoint@,
                        ));
                    }
                },
            }
            let r = Node { endpoint_set, sub_route, param };
            proof {
                assert(r@.sub_route == pre.sub_route);
                assert(r@.param == pre.param);
            }
            r
        } else {
            let seg: &String = &segs[i];
            proof {
                assert(segs.deep_view()[i as int] == segs@[i as int]@);
            }
            if has_param(seg.as_str()) {
                let child = match param {
                    Some(b) => *b,
                    None => Node::empty(),
                };
                let ghost childv = node_view(child);
                let new_child = child.insert(segs, i + 1, endpoint);
                let r = Node { endpoint_set, sub_route, param: Some(Box::new(new_child)) };
                proof {
                    assert(r@.endpoint_set == pre.endpoint_set);
                    assert(r@.sub_route == pre.sub_route);
                }
                r
            } else {
                match find_sub(&sub_route, seg.as_str()) {
                    Some(idx) => {
                        let ghost prev = sub_route@;
                        let (key, child) = sub_route.remove(idx);
                        let ghost childv = node_view(child);
                        let new_child = child.insert(segs, i + 1, endpoint);
                        sub_route.insert(idx, (key, new_child));
                        let ghost newcv = node_view(sub_route@[idx as int].1);
                        proof {
                            lemma_subs_view(prev);
                            assert forall|j: int| 0 <= j < idx implies subs_view(prev)[j].0
                                != seg@ by {
                                assert(subs_view(prev)[j] == (prev[j].0@, node_view(prev[j].1)));
                            }
                            assert(subs_view(prev)[idx as int].0 == seg@);
                            assert(assoc_get(subs_view(prev), seg@) == Some(childv)) by {
                                lemma_assoc_get_at(subs_view(prev), seg@, idx as int);
                            }
                            lemma_assoc_set_at(subs_view(prev), seg@, newcv, idx as int);
                            assert(sub_route@ =~= prev.update(
                                idx as int,
                                sub_route@[idx as int],
                            ));
                            lemma_subs_view(sub_route@);
                            assert(subs_view(sub_route@) =~= assoc_set(
                                subs_view(prev),
                                seg@,
                                newcv,
                            ));
                        }
                        let r = Node { endpoint_set, sub_route, param };
                        proof {
                            assert(r@.endpoint_set == pre.endpoint_set);
                            assert(r@.param == pre.param);
                        }
                        r
                    },
                    None => {
                        let ghost prev = sub_route@;
                        let child = Node::empty();
                        let new_child = child.insert(segs, i + 1, endpoint);
                        let ghost newcv = node_view(new_child);
                        sub_route.push((seg.clone(), new_child));
                        proof {
                            lemma_subs_view(prev);
                            assert forall|j: int| 0 <= j < prev.len() implies subs_view(
                                prev,
                            )[j].0 != seg@ by {
                                assert(subs_view(prev)[j] == (prev[j].0@, node_view(prev[j].1)));
                            }
                            lemma_assoc_get_none(subs_view(prev), seg@);
                            lemma_assoc_set_none(subs_view(prev), seg@, newcv);
                            lemma_subs_view(sub_route@);
                            assert(subs_view(sub_route@) =~= assoc_set(
                                subs_view(prev),
                                seg@,
                                newcv,
                            ));
                        }
                        let r = Node { endpoint_set, sub_route, param };
                        proof {
                            assert(r@.endpoint_set == pre.endpoint_set);
                            assert(r@.param == pre.param);
                        }
                        r
                    },
                }
            }
        }
    }

    /// The route tree of one API definition.
    pub fn new(api: &ApiDefinition) -> (n: Node)
        requires
            api@.spec.app_name.len() >= 1,
        ensures
            n@ == spec_build(api@.spec),
    {
        let mut node = Node::empty();
        match &api.spec.mode {
            ApiMode::ForwardAll => node,
            ApiMode::ForwardStrict(endpoints) => {
                let app_len = api.spec.app_name.unicode_len();
                let app_tail = api.spec.app_name.as_str().substring_char(1, app_len);
                let ghost app_tail_v = api@.spec.app_name.subrange(
                    1,
                    api@.spec.app_name.len() as int,
                );
                let ghost dv = endpoints.deep_view();
                let mut k: usize = 0;
                while k < endpoints.len()
                    invariant
                        k <= endpoints.len(),
                        app_tail@ == app_tail_v,
                        dv == endpoints.deep_view(),
                        dv.len() == endpoints.len() as int,
                        spec_build_loop(dv, app_tail_v, k as int, node@) == spec_build_loop(
                            dv,
                            app_tail_v,
                            0,
                            empty_node_view(),
                        ),
                    decreases endpoints.len() - k,
                {
                    let ghost pre = node@;
                    proof {
                        assert(dv[k as int] == endpoints@[k as int]@);
                    }
                    let mut built = endpoints[k].duplicate();
                    built.build_permission(app_tail);
                    proof {
                        assert(built@ == (EndpointView {
                            permission: spec_permission(
                                app_tail_v,
                                dv[k as int].method,
                                spec_collapse_path(dv[k as int].path),
                            ),
                            ..dv[k as int]
                        }));
                    }
                    let segs = split_char(strip_path(built.path.as_str()), '/');
                    proof {
                        assert(segs.deep_view() == spec_split(spec_strip(dv[k as int].path), '/'));
                    }
                    node = node.insert(&segs, 0, built);
                    proof {
                        assert(spec_build_loop(dv, app_tail_v, k as int, pre) == spec_build_loop(
                            dv,
                            app_tail_v,
                            k + 1,
                            node@,
                        ));
                    }
                    k += 1;
                }
                proof {
                    assert(spec_build_loop(dv, app_tail_v, dv.len() as int, node@) == node@);
                    assert(api@.spec.mode == ApiModeView::ForwardStrict(dv));
                }
                node
            },
        }
    }

    /// Walks the trie for `segs[i..]`, literal children before the parameter
    /// child, and returns the endpoint for `method` on the terminal node.
    fn match_rec<'a>(&'a self, segs: &Vec<String>, i: usize, method: &str) -> (r: Option<
        &'a Endpoint,
    >)
        requires
            i <= segs.len(),
        ensures
            match r {
                Some(e) => spec_match(self@, segs.deep_view(), i as int, method@) == Some(e@),
                None => spec_match(self@, segs.deep_view(), i as int, method@) is None,
            },
        decreases segs.len() - i,
    {
        if i == segs.len() {
            match find_ep(&self.endpoint_set, method) {
                Some(idx) => {
                    proof {
                        let epsv = eps_view(self.endpoint_set@);
                        assert forall|j: int| 0 <= j < idx implies epsv[j].0 != method@ by {
                            assert(epsv[j] == (
                                self.endpoint_set@[j].0@,
                                self.endpoint_set@[j].1@,
                            ));
                        }
                        assert(epsv[idx as int].0 == method@);
                        lemma_assoc_get_at(epsv, method@, idx as int);
                    }
                    Some(&self.endpoint_set[idx].1)
                },
                None => {
                    proof {
                        let epsv = eps_view(self.endpoint_set@);
                        assert forall|j: int| 0 <= j < epsv.len() implies epsv[j].0 != method@ by {
                            assert(epsv[j] == (
                                self.endpoint_set@[j].0@,
                                self.endpoint_set@[j].1@,
                            ));
                        }
                        lemma_assoc_get_none(epsv, method@);
                    }
                    None
                },
            }
        } else {
            let seg: &String = &segs[i];
            proof {
                assert(segs.deep_view()[i as int] == segs@[i as int]@);
            }
            match find_sub(&self.sub_route, seg.as_str()) {
                Some(idx) => {
                    proof {
                        let subv = subs_view(self.sub_route@);
                        lemma_subs_view(self.sub_route@);
                        assert forall|j: int| 0 <= j < idx implies subv[j].0 != seg@ by {
                            assert(subv[j] == (
                                self.sub_route@[j].0@,
                                node_view(self.sub_route@[j].1),
                            ));
                        }
                        assert(subv[idx as int].0 == seg@);
                        lemma_assoc_get_at(subv, seg@, idx as int);
                    }
                    self.sub_route[idx].1.match_rec(segs, i + 1, method)
                },
                None => {
                    proof {
                        let subv = subs_view(self.sub_route@);
                        lemma_subs_view(self.sub_route@);
                        assert forall|j: int| 0 <= j < subv.len() implies subv[j].0 != seg@ by {
                            assert(subv[j] == (
                                self.sub_route@[j].0@,
                                node_view(self.sub_route@[j].1),
                            ));
                        }
                        lemma_assoc_get_none(subv, seg@);
                    }
                    match &self.param {
                        Some(p) => p.match_rec(segs, i + 1, method),
                        None => None,
                    }
                },
            }
        }
    }

    /// Resolves a request path and method against the trie: the path is
    /// stripped and split exactly as at build time, and at every level a
    /// literal child outranks the parameter child.
    pub fn match_path<'a>(&'a self, path: &str, method: &str) -> (r: Option<&'a Endpoint>)
        ensures
            match r {
                Some(e) => spec_match(self@, spec_split(spec_strip(path@), '/'), 0, method@)
                    == Some(e@),
                None => spec_match(self@, spec_split(spec_strip(path@), '/'), 0, method@) is None,
            },
    {
        let stripped = strip_path(path);
        let segs = split_char(stripped, '/');
        self.match_rec(&segs, 0, method)
    }
}

/// One trailing slash makes no difference: a path ending in `/` and the same
/// path without it strip to the same segment list, so they match any trie
/// alike, and an endpoint inserted under either form builds the same shape
/// of trie.
pub proof fn lemma_trailing_slash(n: NodeView, p1: Seq<char>, method: Seq<char>, ep: EndpointView)
    requires
        p1.len() >= 3,
        p1[p1.len() - 1] == '/',
        p1[p1.len() - 2] != '/',
    ensures
        spec_strip(p1) == spec_strip(p1.drop_last()),
        spec_match(n, spec_split(spec_strip(p1), '/'), 0, method) == spec_match(
            n,
            spec_split(spec_strip(p1.drop_last()), '/'),
            0,
            method,
        ),
        spec_insert(n, spec_split(spec_strip(p1), '/'), 0, ep) == spec_insert(
            n,
            spec_split(spec_strip(p1.drop_last()), '/'),
            0,
            ep,
        ),
{
    let p2 = p1.drop_last();
    assert(spec_strip(p1) =~= spec_strip(p2));
}

} // verus!
