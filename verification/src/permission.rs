//! The permission cache: role-to-users and user-role bookkeeping rebuilt from
//! the upstream permission records on every refresh cycle.

use vstd::prelude::*;
use vstd::string::StrSliceExecFns;
use vstd::string::StringExecFns;
use crate::strutil::{str_eq, first_index_of, lemma_first_index_of, find_char};

verus! {

broadcast use vstd::std_specs::vec::group_vec_axioms, vstd::seq::group_seq_axioms,
    vstd::seq_lib::group_seq_lib_default;

/// One record of an upstream permission payload: a role name and the users
/// holding it.
pub struct PermRecord {
    pub role_name: String,
    pub user_id: Vec<String>,
}

impl DeepView for PermRecord {
    type V = (Seq<char>, Seq<Seq<char>>);

    open spec fn deep_view(&self) -> (Seq<char>, Seq<Seq<char>>) {
        (self.role_name@, self.user_id.deep_view())
    }
}

/// `"{app}::roles::{label}"` split at the anchored separator: the app part is
/// the non-empty colon-free prefix, the label the rest.
pub open spec fn spec_role_split(s: Seq<char>) -> Option<(Seq<char>, Seq<char>)> {
    let a = first_index_of(s, ':');
    if 1 <= a && a + 9 <= s.len() && s.subrange(a, a + 9) == "::roles::"@ {
        Some((s.subrange(0, a), s.subrange(a + 9, s.len() as int)))
    } else {
        None
    }
}

/// Splits a role name of the form `"{app}::roles::{label}"`.
pub fn role_split(s: &str) -> (r: Option<(String, String)>)
    ensures
        match r {
            Some(p) => spec_role_split(s@) == Some((p.0@, p.1@)),
            None => spec_role_split(s@) is None,
        },
{
    let n = s.unicode_len();
    let a = find_char(s, ':');
    proof {
        lemma_first_index_of(s@, ':');
    }
    if a < 1 || n < 9 || a > n - 9 {
        return None;
    }
    let sep = s.substring_char(a, a + 9);
    if !str_eq(sep, "::roles::") {
        return None;
    }
    let app = s.substring_char(0, a);
    let label = s.substring_char(a + 9, n);
    Some((app.to_owned(), label.to_owned()))
}

/// The role-to-users map after the first `i` records: per record, its users
/// merge into the set held under its role name.
pub open spec fn spec_perm_map(records: Seq<(Seq<char>, Seq<Seq<char>>)>, i: int) -> Map<
    Seq<char>,
    Set<Seq<char>>,
>
    decreases i,
{
    if i <= 0 {
        Map::empty()
    } else {
        let m = spec_perm_map(records, i - 1);
        let r = records[i - 1];
        let prev = if m.contains_key(r.0) {
            m[r.0]
        } else {
            Set::empty()
        };
        m.insert(r.0, prev.union(r.1.to_set()))
    }
}

/// A user list with later repetitions dropped: first occurrences only, in
/// order. One upstream record names a set of users, however its list spells
/// them.
pub open spec fn spec_dedup(users: Seq<Seq<char>>) -> Seq<Seq<char>>
    decreases users.len(),
{
    if users.len() == 0 {
        Seq::empty()
    } else {
        let prior = spec_dedup(users.drop_last());
        if users.drop_last().contains(users.last()) {
            prior
        } else {
            prior.push(users.last())
        }
    }
}

/// The `(user, app, label)` triples that the first `i` records contribute,
/// in record order: one triple per distinct user of each record whose role
/// name has the `"{app}::roles::{label}"` form.
pub open spec fn spec_triples(records: Seq<(Seq<char>, Seq<Seq<char>>)>, i: int) -> Seq<
    (Seq<char>, Seq<char>, Seq<char>),
>
    decreases i,
{
    if i <= 0 {
        Seq::empty()
    } else {
        let prior = spec_triples(records, i - 1);
        let r = records[i - 1];
        match spec_role_split(r.0) {
            Some(p) => prior + spec_dedup(r.1).map_values(|u: Seq<char>| (u, p.0, p.1)),
            None => prior,
        }
    }
}

/// The labels among the triples that belong to `user` and `app`, in order.
pub open spec fn spec_labels(
    ts: Seq<(Seq<char>, Seq<char>, Seq<char>)>,
    user: Seq<char>,
    app: Seq<char>,
) -> Seq<Seq<char>>
    decreases ts.len(),
{
    if ts.len() == 0 {
        Seq::empty()
    } else {
        let prior = spec_labels(ts.drop_last(), user, app);
        let t = ts.last();
        if t.0 == user && t.1 == app {
            prior.push(t.2)
        } else {
            prior
        }
    }
}

/// The pieces joined with a comma between each two; no leading or trailing
/// comma.
pub open spec fn spec_join_comma(parts: Seq<Seq<char>>) -> Seq<char>
    decreases parts.len(),
{
    if parts.len() == 0 {
        Seq::empty()
    } else if parts.len() == 1 {
        parts[0]
    } else {
        spec_join_comma(parts.drop_last()) + seq![','] + parts.last()
    }
}

/// The comma-joined role labels of one user for one app.
pub open spec fn spec_roles_string(
    ts: Seq<(Seq<char>, Seq<char>, Seq<char>)>,
    user: Seq<char>,
    app: Seq<char>,
) -> Seq<char> {
    spec_join_comma(spec_labels(ts, user, app))
}

/// First-match lookup of a role's user list.
pub open spec fn assoc_users(l: Seq<(String, Vec<String>)>, k: Seq<char>) -> Option<Set<Seq<char>>>
    decreases l.len(),
{
    if l.len() == 0 {
        None
    } else if l[0].0@ == k {
        Some(l[0].1.deep_view().to_set())
    } else {
        assoc_users(l.subrange(1, l.len() as int), k)
    }
}

/// The map that an association list of role entries holds.
pub open spec fn perm_entries_view(l: Seq<(String, Vec<String>)>) -> Map<Seq<char>, Set<Seq<char>>> {
    Map::new(
        |k: Seq<char>| assoc_users(l, k) is Some,
        |k: Seq<char>|
            match assoc_users(l, k) {
                Some(s) => s,
                None => Set::empty(),
            },
    )
}

/// The mathematical content of a [`PermCache`].
pub struct PermCacheView {
    pub perm: Map<Seq<char>, Set<Seq<char>>>,
    pub roles: Seq<(Seq<char>, Seq<char>, Seq<char>)>,
}

/// The shared permission state: which users hold each permission, and the
/// `(user, app, label)` role triples in arrival order.
pub struct PermCache {
    pub perm: Vec<(String, Vec<String>)>,
    pub roles: Vec<(String, String, String)>,
}

impl View for PermCache {
    type V = PermCacheView;

    open spec fn view(&self) -> PermCacheView {
        PermCacheView { perm: perm_entries_view(self.perm@), roles: self.roles.deep_view() }
    }
}

impl DeepView for PermCache {
    type V = PermCacheView;

    open spec fn deep_view(&self) -> PermCacheView {
        self.view()
    }
}

/// Whether `token_id` holds `perm` in the cache.
pub open spec fn spec_has_perm(c: PermCacheView, perm: Seq<char>, token_id: Seq<char>) -> bool {
    c.perm.contains_key(perm) && c.perm[perm].contains(token_id)
}

proof fn lemma_assoc_users_at(l: Seq<(String, Vec<String>)>, k: Seq<char>, idx: int)
    requires
        0 <= idx < l.len(),
        l[idx].0@ == k,
        forall|j: int| 0 <= j < idx ==> l[j].0@ != k,
    ensures
        assoc_users(l, k) == Some(l[idx].1.deep_view().to_set()),
    decreases l.len(),
{
    if idx > 0 {
        let t = l.subrange(1, l.len() as int);
        assert forall|j: int| 0 <= j < idx - 1 implies t[j].0@ != k by {
            assert(t[j] == l[j + 1]);
        }
        lemma_assoc_users_at(t, k, idx - 1);
        assert(t[idx - 1] == l[idx]);
    }
}

proof fn lemma_assoc_users_none(l: Seq<(String, Vec<String>)>, k: Seq<char>)
    requires
        forall|j: int| 0 <= j < l.len() ==> l[j].0@ != k,
    ensures
        assoc_users(l, k) is None,
    decreases l.len(),
{
    if l.len() > 0 {
        let t = l.subrange(1, l.len() as int);
        assert forall|j: int| 0 <= j < t.len() implies t[j].0@ != k by {
            assert(t[j] == l[j + 1]);
        }
        lemma_assoc_users_none(t, k);
    }
}

/// An update at the first binding of a key changes that key alone.
proof fn lemma_assoc_users_update(
    l: Seq<(String, Vec<String>)>,
    idx: int,
    e: (String, Vec<String>),
    k2: Seq<char>,
)
    requires
        0 <= idx < l.len(),
        e.0@ == l[idx].0@,
        forall|j: int| 0 <= j < idx ==> l[j].0@ != l[idx].0@,
    ensures
        l[idx].0@ == k2 ==> assoc_users(l.update(idx, e), k2) == Some(e.1.deep_view().to_set()),
        l[idx].0@ != k2 ==> assoc_users(l.update(idx, e), k2) == assoc_users(l, k2),
    decreases l.len(),
{
    let l2 = l.update(idx, e);
    if l[idx].0@ == k2 {
        assert forall|j: int| 0 <= j < idx implies l2[j].0@ != k2 by {
            assert(l2[j] == l[j]);
        }
        lemma_assoc_users_at(l2, k2, idx);
    } else {
        if idx == 0 {
            assert(l2.subrange(1, l2.len() as int) =~= l.subrange(1, l.len() as int));
        } else {
            let t = l.subrange(1, l.len() as int);
            let t2 = l2.subrange(1, l2.len() as int);
            assert(t2 =~= t.update(idx - 1, e));
            assert forall|j: int| 0 <= j < idx - 1 implies (#[trigger] t[j]).0@ != t[idx
                - 1].0@ by {
                assert(t[j] == l[j + 1]);
            }
            assert(t[idx - 1] == l[idx]);
            lemma_assoc_users_update(t, idx - 1, e, k2);
            assert(l2[0] == l[0]);
        }
    }
}

/// An appended new key changes nothing else.
proof fn lemma_assoc_users_push(
    l: Seq<(String, Vec<String>)>,
    e: (String, Vec<String>),
    k2: Seq<char>,
)
    ensures
        e.0@ == k2 && assoc_users(l, k2) is None ==> assoc_users(l.push(e), k2) == Some(
            e.1.deep_view().to_set(),
        ),
        e.0@ != k2 || assoc_users(l, k2) is Some ==> assoc_users(l.push(e), k2) == assoc_users(
            l,
            k2,
        ),
    decreases l.len(),
{
    let l2 = l.push(e);
    if l.len() == 0 {
        assert(l2.len() == 1);
        assert(l2[0] == e);
        if e.0@ != k2 {
            assert(l2.subrange(1, 1) =~= Seq::<(String, Vec<String>)>::empty());
            assert(assoc_users(l2, k2) == assoc_users(l2.subrange(1, 1), k2));
        }
    } else {
        assert(l2[0] == l[0]);
        let t = l.subrange(1, l.len() as int);
        let t2 = l2.subrange(1, l2.len() as int);
        assert(t2 =~= t.push(e));
        lemma_assoc_users_push(t, e, k2);
        if l[0].0@ != k2 {
            assert(assoc_users(l, k2) == assoc_users(t, k2));
            assert(assoc_users(l2, k2) == assoc_users(t2, k2));
        }
    }
}

/// The element views of a sequence extended by one element.
proof fn lemma_deep_view_push<T: DeepView>(pre: Seq<T>, post: Seq<T>, x: T)
    requires
        post == pre.push(x),
    ensures
        Seq::new(post.len(), |i: int| post[i].deep_view()) =~= Seq::new(
            pre.len(),
            |i: int| pre[i].deep_view(),
        ).push(x.deep_view()),
{
    assert forall|m: int| 0 <= m < post.len() implies post[m].deep_view() == Seq::new(
        pre.len(),
        |i: int| pre[i].deep_view(),
    ).push(x.deep_view())[m] by {
        if m < pre.len() {
            assert(post[m] == pre[m]);
        } else {
            assert(post[m] == x);
        }
    }
}

/// The element set of a sequence extended by one element.
proof fn lemma_to_set_push<A>(s: Seq<A>, x: A)
    ensures
        s.push(x).to_set() =~= s.to_set().insert(x),
{
    let p = s.push(x);
    assert forall|a: A| #[trigger] p.to_set().contains(a) implies s.to_set().insert(x).contains(
        a,
    ) by {
        let i = choose|i: int| 0 <= i < p.len() && p[i] == a;
        if i < s.len() {
            assert(s[i] == a);
        }
    }
    assert forall|a: A| s.to_set().insert(x).contains(a) implies #[trigger] p.to_set().contains(
        a,
    ) by {
        if a == x {
            assert(p[s.len() as int] == a);
        } else {
            let i = choose|i: int| 0 <= i < s.len() && s[i] == a;
            assert(p[i] == a);
        }
    }
}

/// Whether the vector holds a string equal to `x`.
fn vec_contains_str(v: &Vec<String>, x: &str) -> (r: bool)
    ensures
        r == v.deep_view().to_set().contains(x@),
{
    let mut i: usize = 0;
    while i < v.len()
        invariant
            i <= v.len(),
            forall|j: int| 0 <= j < i ==> v.deep_view()[j] != x@,
        decreases v.len() - i,
    {
        proof {
            assert(v.deep_view()[i as int] == v@[i as int]@);
        }
        if str_eq(v[i].as_str(), x) {
            proof {
                assert(v.deep_view().contains(x@));
            }
            return true;
        }
        i += 1;
    }
    proof {
        if v.deep_view().to_set().contains(x@) {
            let j = choose|j: int| 0 <= j < v.deep_view().len() && v.deep_view()[j] == x@;
        }
    }
    false
}

/// Finds the first entry of the role in the permission list.
fn find_perm_entry(l: &Vec<(String, Vec<String>)>, k: &str) -> (r: Option<usize>)
    ensures
        match r {
            Some(idx) => idx < l.len() && l@[idx as int].0@ == k@ && (forall|j: int|
                0 <= j < idx ==> l@[j].0@ != k@),
            None => forall|j: int| 0 <= j < l.len() ==> l@[j].0@ != k@,
        },
{
    let mut idx: usize = 0;
    while idx < l.len()
        invariant
            idx <= l.len(),
            forall|j: int| 0 <= j < idx ==> l@[j].0@ != k@,
        decreases l.len() - idx,
    {
        if str_eq(l[idx].0.as_str(), k) {
            return Some(idx);
        }
        idx += 1;
    }
    None
}

/// Rebuilds the cache from one round of upstream permission records: each
/// record's users merge into the set under its role name, and each record of
/// the `"{app}::roles::{label}"` form contributes one `(user, app, label)`
/// triple per user, in record order.
pub fn get_perm(records: &Vec<PermRecord>) -> (c: PermCache)
    ensures
        c@.perm == spec_perm_map(records.deep_view(), records.len() as int),
        c@.roles == spec_triples(records.deep_view(), records.len() as int),
{
    let ghost dv = records.deep_view();
    let mut perm: Vec<(String, Vec<String>)> = Vec::new();
    let mut roles: Vec<(String, String, String)> = Vec::new();
    proof {
        lemma_assoc_users_none(perm@, Seq::empty());
        assert(perm_entries_view(perm@) =~= spec_perm_map(dv, 0)) by {
            assert forall|k2: Seq<char>| !(assoc_users(perm@, k2) is Some) by {
                lemma_assoc_users_none(perm@, k2);
            }
        }
        assert(roles.deep_view() =~= spec_triples(dv, 0));
    }
    let mut i: usize = 0;
    while i < records.len()
        invariant
            i <= records.len(),
            dv == records.deep_view(),
            dv.len() == records.len() as int,
            perm_entries_view(perm@) == spec_perm_map(dv, i as int),
            roles.deep_view() == spec_triples(dv, i as int),
        decreases records.len() - i,
    {
        let rec = &records[i];
        proof {
            assert(dv[i as int] == records@[i as int].deep_view());
        }
        let ghost users_v = dv[i as int].1;

        // role triples for `"{app}::roles::{label}"` names, each of the
        // record's users once
        match role_split(rec.role_name.as_str()) {
            Some((app, label)) => {
                let ghost rpre = roles.deep_view();
                let ghost f = |u: Seq<char>| (u, app@, label@);
                let mut j: usize = 0;
                while j < rec.user_id.len()
                    invariant
                        j <= rec.user_id.len(),
                        users_v == rec.user_id.deep_view(),
                        users_v.len() == rec.user_id.len() as int,
                        f == (|u: Seq<char>| (u, app@, label@)),
                        roles.deep_view() =~= rpre + spec_dedup(users_v.take(j as int)).map_values(
                            f,
                        ),
                    decreases rec.user_id.len() - j,
                {
                    proof {
                        assert(users_v[j as int] == rec.user_id@[j as int]@);
                    }
                    let mut seen = false;
                    let mut k: usize = 0;
                    while k < j
                        invariant
                            k <= j,
                            j < rec.user_id.len(),
                            users_v == rec.user_id.deep_view(),
                            users_v.len() == rec.user_id.len() as int,
                            seen ==> users_v.take(j as int).contains(users_v[j as int]),
                            !seen ==> forall|m: int|
                                0 <= m < k ==> users_v[m] != users_v[j as int],
                        decreases j - k,
                    {
                        proof {
                            assert(users_v[k as int] == rec.user_id@[k as int]@);
                            assert(users_v[j as int] == rec.user_id@[j as int]@);
                        }
                        if str_eq(rec.user_id[k].as_str(), rec.user_id[j].as_str()) {
                            seen = true;
                            proof {
                                assert(users_v.take(j as int)[k as int] == users_v[j as int]);
                            }
                        }
                        k += 1;
                    }
                    proof {
                        assert(users_v.take(j + 1).drop_last() =~= users_v.take(j as int));
                        assert(users_v.take(j + 1).last() == users_v[j as int]);
                        if !seen && users_v.take(j as int).contains(users_v[j as int]) {
                            let w = choose|m: int|
                                0 <= m < users_v.take(j as int).len() && users_v.take(
                                    j as int,
                                )[m] == users_v[j as int];
                            assert(users_v[w] == users_v[j as int]);
                        }
                        assert(seen == users_v.take(j as int).contains(users_v[j as int]));
                    }
                    if !seen {
                        let ghost rsnap = roles@;
                        let ghost rsnapdv = roles.deep_view();
                        let triple = (rec.user_id[j].clone(), app.clone(), label.clone());
                        let ghost tripleg = triple;
                        let ghost triple_dv = triple.deep_view();
                        roles.push(triple);
                        proof {
                            lemma_deep_view_push(rsnap, roles@, tripleg);
                            assert(roles.deep_view() =~= rsnapdv.push(triple_dv));
                            assert(triple_dv == f(users_v[j as int]));
                            assert(spec_dedup(users_v.take(j + 1)) == spec_dedup(
                                users_v.take(j as int),
                            ).push(users_v[j as int]));
                            assert(spec_dedup(users_v.take(j + 1)).map_values(f) =~= spec_dedup(
                                users_v.take(j as int),
                            ).map_values(f).push(f(users_v[j as int])));
                            assert(roles.deep_view() =~= rpre + spec_dedup(
                                users_v.take(j + 1),
                            ).map_values(f));
                        }
                    } else {
                        proof {
                            assert(spec_dedup(users_v.take(j + 1)) == spec_dedup(
                                users_v.take(j as int),
                            ));
                            assert(roles.deep_view() =~= rpre + spec_dedup(
                                users_v.take(j + 1),
                            ).map_values(f));
                        }
                    }
                    j += 1;
                }
                proof {
                    assert(users_v.take(users_v.len() as int) =~= users_v);
                    assert(spec_triples(dv, i + 1) == rpre + spec_dedup(users_v).map_values(f));
                    assert(roles.deep_view() =~= spec_triples(dv, i + 1));
                }
            },
            None => {
                proof {
                    assert(spec_triples(dv, i + 1) == spec_triples(dv, i as int));
                }
            },
        }

        // merge the record's users into the set under its role name
        let ghost m_old = perm_entries_view(perm@);
        let ghost role_v = dv[i as int].0;
        match find_perm_entry(&perm, rec.role_name.as_str()) {
            Some(idx) => {
                let ghost prev = perm@;
                let (key, mut users) = perm.remove(idx);
                let ghost upre = users.deep_view();
                proof {
                    lemma_assoc_users_at(prev, role_v, idx as int);
                    assert(m_old.contains_key(role_v));
                    assert(m_old[role_v] == upre.to_set());
                }
                let mut j: usize = 0;
                while j < rec.user_id.len()
                    invariant
                        j <= rec.user_id.len(),
                        users_v == rec.user_id.deep_view(),
                        users_v.len() == rec.user_id.len() as int,
                        users.deep_view().to_set() =~= upre.to_set().union(
                            users_v.take(j as int).to_set(),
                        ),
                    decreases rec.user_id.len() - j,
                {
                    proof {
                        assert(users_v[j as int] == rec.user_id@[j as int]@);
                        assert(users_v.take(j + 1) =~= users_v.take(j as int).push(
                            users_v[j as int],
                        ));
                    }
                    let ghost usnap = users@;
                    let ghost upart = users.deep_view();
                    if !vec_contains_str(&users, rec.user_id[j].as_str()) {
                        let uid = rec.user_id[j].clone();
                        let ghost uidg = uid;
                        users.push(uid);
                        proof {
                            lemma_deep_view_push(usnap, users@, uidg);
                            assert(users.deep_view() =~= upart.push(users_v[j as int]));
                            lemma_to_set_push(upart, users_v[j as int]);
                            assert(users.deep_view().to_set() =~= upart.to_set().insert(
                                users_v[j as int],
                            ));
                        }
                    } else {
                        proof {
                            assert(upart.to_set().contains(users_v[j as int]));
                        }
                    }
                    proof {
                        lemma_to_set_push(users_v.take(j as int), users_v[j as int]);
                        assert(users_v.take(j + 1).to_set() =~= users_v.take(
                            j as int,
                        ).to_set().insert(users_v[j as int]));
                        assert(users.deep_view().to_set() =~= upre.to_set().union(
                            users_v.take(j + 1).to_set(),
                        ));
                    }
                    j += 1;
                }
                proof {
                    assert(users_v.take(users_v.len() as int) =~= users_v);
                }
                let entry = (key, users);
                let ghost new_set = entry.1.deep_view().to_set();
                perm.insert(idx, entry);
                proof {
                    assert(perm@ =~= prev.update(idx as int, (entry.0, entry.1)));
                    assert(perm@[idx as int].0@ == role_v);
                    assert forall|k2: Seq<char>| #[trigger] assoc_users(perm@, k2) == (if k2
                        == role_v {
                        Some(new_set)
                    } else {
                        assoc_users(prev, k2)
                    }) by {
                        lemma_assoc_users_update(prev, idx as int, (entry.0, entry.1), k2);
                    }
                    assert(perm_entries_view(perm@) =~= spec_perm_map(dv, i + 1));
                }
            },
            None => {
                let ghost prev = perm@;
                proof {
                    lemma_assoc_users_none(prev, role_v);
                    assert(!m_old.contains_key(role_v));
                }
                let entry = (rec.role_name.clone(), rec.user_id.clone());
                let ghost new_set = entry.1.deep_view().to_set();
                perm.push(entry);
                proof {
                    assert(new_set =~= Set::empty().union(users_v.to_set()));
                    assert forall|k2: Seq<char>| #[trigger] assoc_users(perm@, k2) == (if k2
                        == role_v {
                        Some(new_set)
                    } else {
                        assoc_users(prev, k2)
                    }) by {
                        lemma_assoc_users_push(prev, (entry.0, entry.1), k2);
                        if k2 == role_v {
                            lemma_assoc_users_none(prev, k2);
                        }
                    }
                    assert(perm_entries_view(perm@) =~= spec_perm_map(dv, i + 1));
                }
            },
        }
        i += 1;
    }
    PermCache { perm, roles }
}

/// Whether `token_id` holds the permission `perm` in the cache right now.
pub fn has_perm(cache: &PermCache, perm: &str, token_id: &str) -> (r: bool)
    ensures
        r == spec_has_perm(cache@, perm@, token_id@),
{
    match find_perm_entry(&cache.perm, perm) {
        Some(idx) => {
            proof {
                lemma_assoc_users_at(cache.perm@, perm@, idx as int);
            }
            vec_contains_str(&cache.perm[idx].1, token_id)
        },
        None => {
            proof {
                lemma_assoc_users_none(cache.perm@, perm@);
            }
            false
        },
    }
}

/// The comma-joined role labels of one user for one app; empty when the user
/// holds no role there.
pub fn roles_for(cache: &PermCache, token_id: &str, app: &str) -> (r: String)
    ensures
        r@ == spec_roles_string(cache@.roles, token_id@, app@),
{
    let ghost tv = cache.roles.deep_view();
    let mut out = String::new();
    let mut found = false;
    let mut i: usize = 0;
    while i < cache.roles.len()
        invariant
            i <= cache.roles.len(),
            tv == cache.roles.deep_view(),
            tv.len() == cache.roles.len() as int,
            out@ == spec_join_comma(spec_labels(tv.take(i as int), token_id@, app@)),
            found == (spec_labels(tv.take(i as int), token_id@, app@).len() != 0),
        decreases cache.roles.len() - i,
    {
        proof {
            assert(tv[i as int] == (
                cache.roles@[i as int].0@,
                cache.roles@[i as int].1@,
                cache.roles@[i as int].2@,
            ));
            assert(tv.take(i + 1).drop_last() =~= tv.take(i as int));
            assert(tv.take(i + 1).last() == tv[i as int]);
        }
        let t = &cache.roles[i];
        if str_eq(t.0.as_str(), token_id) && str_eq(t.1.as_str(), app) {
            if found {
                out.append(",");
                proof {
                    reveal_strlit(",");
                    assert(","@ =~= seq![',']);
                }
            }
            out.append(t.2.as_str());
            found = true;
            proof {
                let labels = spec_labels(tv.take(i as int), token_id@, app@);
                let l2 = spec_labels(tv.take(i + 1), token_id@, app@);
                assert(l2 == labels.push(tv[i as int].2));
                assert(l2.drop_last() =~= labels);
                assert(l2.last() == tv[i as int].2);
                if labels.len() == 0 {
                    assert(out@ =~= l2[0]);
                }
                assert(out@ =~= spec_join_comma(l2));
            }
        }
        i += 1;
    }
    proof {
        assert(tv.take(tv.len() as int) =~= tv);
    }
    out
}

/// How one refresh cycle ends.
#[derive(Debug, PartialEq, Eq, Structural)]
pub enum RefreshDecision {
    Swapped,
    Tolerated,
    Exhausted,
}

/// One step of the background refresher: a fetched payload replaces the
/// cache outright and clears the failure counter; a failed fetch leaves the
/// cache as it was and counts, and the step reports exhaustion once the
/// count reaches the configured bound.
pub fn refresh_step(
    cache: &mut PermCache,
    error_count: &mut u64,
    fetched: Option<PermCache>,
    max_fetch_error_count: u64,
) -> (d: RefreshDecision)
    requires
        *old(error_count) < u64::MAX,
    ensures
        fetched is Some ==> final(cache)@ == fetched->Some_0@ && *final(error_count) == 0 && d
            == RefreshDecision::Swapped,
        fetched is None ==> final(cache)@ == old(cache)@ && *final(error_count) == *old(error_count)
            + 1 && (d == RefreshDecision::Exhausted <==> *final(error_count)
            >= max_fetch_error_count) && (d == RefreshDecision::Tolerated <==> *final(error_count)
            < max_fetch_error_count),
{
    match fetched {
        Some(c) => {
            *cache = c;
            *error_count = 0;
            RefreshDecision::Swapped
        },
        None => {
            *error_count = *error_count + 1;
            if *error_count >= max_fetch_error_count {
                RefreshDecision::Exhausted
            } else {
                RefreshDecision::Tolerated
            }
        },
    }
}

/// Refreshing is a function of the upstream payload alone: one payload gives
/// one cache, whatever was cached before, so a second refresh from the same
/// records leaves the observable cache exactly as the first left it.
pub proof fn lemma_refresh_idempotent(
    records: Seq<(Seq<char>, Seq<Seq<char>>)>,
    first: PermCacheView,
    second: PermCacheView,
)
    requires
        first.perm == spec_perm_map(records, records.len() as int),
        first.roles == spec_triples(records, records.len() as int),
        second.perm == spec_perm_map(records, records.len() as int),
        second.roles == spec_triples(records, records.len() as int),
    ensures
        first == second,
{
}

} // verus!
