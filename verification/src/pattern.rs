//! Path-template logic: `{name}` parameter segments, the collapsed form used
//! in permission strings, and the subsumption test between templates.

use vstd::prelude::*;
use vstd::string::StrSliceExecFns;
use crate::strutil::{first_index_of, lemma_first_index_of, spec_split, split_char, find_char};

verus! {

broadcast use vstd::std_specs::vec::group_vec_axioms, vstd::seq::group_seq_axioms;

/// A brace pair with no `/` strictly between: what the route table treats as
/// a parameter marker inside one path segment.
pub open spec fn seg_has_param(s: Seq<char>) -> bool {
    exists|i: int, j: int|
        0 <= i < j < s.len() && s[i] == '{' && s[j] == '}' && (forall|k: int|
            i < k < j ==> s[k] != '/')
}

/// Whether the segment holds a `{...}` parameter marker.
pub fn has_param(s: &str) -> (r: bool)
    ensures
        r == seg_has_param(s@),
{
    let n = s.unicode_len();
    let mut i: usize = 0;
    let mut open = false;
    let ghost mut oi: int = 0;
    while i < n
        invariant
            n == s@.len(),
            i <= n,
            open ==> 0 <= oi < i && s@[oi] == '{' && (forall|k: int| oi < k < i ==> s@[k] != '/'),
            forall|a: int, b: int|
                0 <= a < b < i && s@[a] == '{' && s@[b] == '}' ==> exists|k: int|
                    a < k < b && s@[k] == '/',
            !open ==> forall|a: int|
                0 <= a < i && s@[a] == '{' ==> exists|k: int| a < k < i && s@[k] == '/',
        decreases n - i,
    {
        let c = s.get_char(i);
        if c == '{' {
            open = true;
            proof {
                oi = i as int;
            }
        } else if c == '/' {
            open = false;
        } else if c == '}' {
            if open {
                proof {
                    assert(seg_has_param(s@)) by {
                        assert(s@[oi] == '{' && s@[i as int] == '}');
                    }
                }
                return true;
            }
        }
        i += 1;
    }
    proof {
        if seg_has_param(s@) {
            let (a, b) = choose|a: int, b: int|
                0 <= a < b < s@.len() && s@[a] == '{' && s@[b] == '}' && (forall|k: int|
                    a < k < b ==> s@[k] != '/');
            let w = choose|k: int| a < k < b && s@[k] == '/';
            assert(s@[w] != '/');
        }
    }
    false
}

/// A `{...}` occurrence whose interior holds no brace and no slash.
pub open spec fn is_param_occurrence(s: Seq<char>, i: int, j: int) -> bool {
    &&& 0 <= i < j < s.len()
    &&& s[i] == '{'
    &&& s[j] == '}'
    &&& forall|k: int| i < k < j ==> s[k] != '{' && s[k] != '}' && s[k] != '/'
}

/// Every parameter occurrence must directly follow a `/`.
pub open spec fn params_ok(s: Seq<char>) -> bool {
    forall|i: int, j: int| is_param_occurrence(s, i, j) ==> i > 0 && s[i - 1] == '/'
}

/// Checks that every `{...}` parameter in the path directly follows a `/`.
pub fn check_params(s: &str) -> (r: bool)
    ensures
        r == params_ok(s@),
{
    let n = s.unicode_len();
    let mut i: usize = 0;
    let mut open = false;
    let mut opos: usize = 0;
    while i < n
        invariant
            n == s@.len(),
            i <= n,
            open ==> opos < i && s@[opos as int] == '{' && (forall|k: int|
                opos < k < i ==> s@[k] != '{' && s@[k] != '}' && s@[k] != '/'),
            forall|a: int, b: int| is_param_occurrence(s@, a, b) && b < i ==> a > 0 && s@[a - 1]
                == '/',
            !open ==> forall|a: int|
                0 <= a < i && s@[a] == '{' ==> exists|k: int|
                    a < k < i && (s@[k] == '{' || s@[k] == '}' || s@[k] == '/'),
            open ==> forall|a: int|
                0 <= a < i && a != opos && s@[a] == '{' ==> exists|k: int|
                    a < k < i && (s@[k] == '{' || s@[k] == '}' || s@[k] == '/'),
        decreases n - i,
    {
        let c = s.get_char(i);
        if c == '{' {
            proof {
                if open {
                    assert forall|a: int|
                        0 <= a < i + 1 && a != i && s@[a] == '{' implies exists|k: int|
                        a < k < i + 1 && (s@[k] == '{' || s@[k] == '}' || s@[k] == '/') by {
                        if a == opos {
                            assert(s@[i as int] == '{');
                        }
                    }
                }
            }
            open = true;
            opos = i;
        } else if c == '/' {
            open = false;
        } else if c == '}' {
            if open {
                proof {
                    assert(is_param_occurrence(s@, opos as int, i as int));
                }
                if opos == 0 {
                    return false;
                }
                if s.get_char(opos - 1) != '/' {
                    return false;
                }
                proof {
                    assert forall|a: int, b: int|
                        is_param_occurrence(s@, a, b) && b < i + 1 implies a > 0 && s@[a - 1]
                        == '/' by {
                        if b == i {
                            if a < opos {
                                assert(s@[opos as int] == '{');
                            }
                        }
                    }
                }
            } else {
                proof {
                    assert forall|a: int, b: int|
                        is_param_occurrence(s@, a, b) && b < i + 1 implies a > 0 && s@[a - 1]
                        == '/' by {
                        if b == i {
                            let k = choose|k: int|
                                a < k < i && (s@[k] == '{' || s@[k] == '}' || s@[k] == '/');
                        }
                    }
                }
            }
            open = false;
        }
        i += 1;
    }
    true
}

/// Index of the last occurrence of `c` in `s`, or `-1` when `c` does not
/// occur.
pub open spec fn last_index_of(s: Seq<char>, c: char) -> int
    decreases s.len(),
{
    if s.len() == 0 {
        -1
    } else if s[s.len() - 1] == c {
        s.len() - 1
    } else {
        last_index_of(s.drop_last(), c)
    }
}

pub proof fn lemma_last_index_of(s: Seq<char>, c: char)
    ensures
        -1 <= last_index_of(s, c) < s.len(),
        last_index_of(s, c) >= 0 ==> s[last_index_of(s, c)] == c,
        forall|k: int| last_index_of(s, c) < k < s.len() ==> s[k] != c,
    decreases s.len(),
{
    if s.len() > 0 && s[s.len() - 1] != c {
        let t = s.drop_last();
        lemma_last_index_of(t, c);
        assert forall|k: int| last_index_of(s, c) < k < s.len() implies s[k] != c by {
            if k < s.len() - 1 {
                assert(t[k] == s[k]);
            }
        }
    }
}

/// Index of the last occurrence of `c`, when there is one.
pub fn rfind_char(s: &str, c: char) -> (r: Option<usize>)
    ensures
        match r {
            Some(k) => k as int == last_index_of(s@, c),
            None => last_index_of(s@, c) == -1,
        },
{
    let n = s.unicode_len();
    let mut i: usize = n;
    while i > 0
        invariant
            n == s@.len(),
            i <= n,
            forall|k: int| i <= k < n ==> s@[k] != c,
        decreases i,
    {
        i -= 1;
        if s.get_char(i) == c {
            proof {
                lemma_last_index_of(s@, c);
                if last_index_of(s@, c) < i {
                    assert(s@[i as int] != c);
                }
                if last_index_of(s@, c) > i {
                    assert(s@[last_index_of(s@, c)] != c);
                }
            }
            return Some(i);
        }
    }
    proof {
        lemma_last_index_of(s@, c);
        if last_index_of(s@, c) >= 0 {
            assert(s@[last_index_of(s@, c)] != c);
        }
    }
    None
}

/// One segment with every greedy `{...}` region replaced by a literal `{}`.
pub open spec fn spec_collapse_seg(s: Seq<char>) -> Seq<char>
    decreases s.len(),
    via spec_collapse_seg_decreases
{
    let i = first_index_of(s, '{');
    let j = last_index_of(s, '}');
    if i < s.len() && i < j {
        s.subrange(0, i) + seq!['{', '}'] + spec_collapse_seg(s.subrange(j + 1, s.len() as int))
    } else {
        s
    }
}

#[via_fn]
proof fn spec_collapse_seg_decreases(s: Seq<char>) {
    lemma_first_index_of(s, '{');
    lemma_last_index_of(s, '}');
}

/// Replaces every greedy `{...}` region of one segment with a literal `{}`.
pub fn collapse_seg(s: &str) -> (r: String)
    ensures
        r@ == spec_collapse_seg(s@),
    decreases s@.len(),
{
    let n = s.unicode_len();
    let i = find_char(s, '{');
    proof {
        lemma_first_index_of(s@, '{');
        lemma_last_index_of(s@, '}');
    }
    if let Some(j) = rfind_char(s, '}') {
        if i < j {
            let head = s.substring_char(0, i);
            let tail = s.substring_char(j + 1, n);
            let rest = collapse_seg(tail);
            let mut out = head.to_owned();
            out.append("{}");
            out.append(rest.as_str());
            proof {
                reveal_strlit("{}");
                assert("{}"@ =~= seq!['{', '}']);
                assert(out@ =~= spec_collapse_seg(s@));
            }
            return out;
        }
    }
    s.to_owned()
}

/// The pieces joined back with `/` between them, starting at piece `i`.
pub open spec fn spec_join_slash(parts: Seq<Seq<char>>, i: int) -> Seq<char>
    decreases parts.len() - i,
{
    if i < 0 || i >= parts.len() {
        Seq::empty()
    } else if i == parts.len() - 1 {
        parts[i]
    } else {
        parts[i] + seq!['/'] + spec_join_slash(parts, i + 1)
    }
}

fn join_slash_from(parts: &Vec<String>, i: usize) -> (r: String)
    ensures
        r@ == spec_join_slash(parts.deep_view(), i as int),
    decreases parts.len() - i,
{
    if i >= parts.len() {
        String::new()
    } else if i == parts.len() - 1 {
        let p: &String = &parts[i];
        p.clone()
    } else {
        let mut out: String = parts[i].clone();
        out.append("/");
        let rest = join_slash_from(parts, i + 1);
        out.append(rest.as_str());
        proof {
            reveal_strlit("/");
            assert("/"@ =~= seq!['/']);
        }
        out
    }
}

/// The path with every parameter region of every segment collapsed to `{}`:
/// the form used inside permission strings.
pub open spec fn spec_collapse_path(s: Seq<char>) -> Seq<char> {
    spec_join_slash(spec_split(s, '/').map_values(|t: Seq<char>| spec_collapse_seg(t)), 0)
}

/// Collapses every `{...}` parameter of the path to a literal `{}`.
pub fn collapse_path(s: &str) -> (r: String)
    ensures
        r@ == spec_collapse_path(s@),
{
    let parts = split_char(s, '/');
    let mut collapsed: Vec<String> = Vec::new();
    let mut idx: usize = 0;
    while idx < parts.len()
        invariant
            idx <= parts.len(),
            collapsed.len() == idx,
            parts.deep_view() == spec_split(s@, '/'),
            forall|m: int|
                0 <= m < idx ==> collapsed.deep_view()[m] == spec_collapse_seg(
                    parts.deep_view()[m],
                ),
        decreases parts.len() - idx,
    {
        let piece = collapse_seg(parts[idx].as_str());
        proof {
            assert(parts.deep_view()[idx as int] == parts@[idx as int]@);
        }
        let ghost prev = collapsed@;
        let ghost prevdv = collapsed.deep_view();
        collapsed.push(piece);
        proof {
            assert forall|m: int| 0 <= m < idx + 1 implies collapsed.deep_view()[m]
                == spec_collapse_seg(parts.deep_view()[m]) by {
                assert(collapsed@ == prev.push(piece));
                assert(collapsed.deep_view()[m] == collapsed@[m]@);
                if m < idx {
                    assert(collapsed@[m] == prev[m]);
                    assert(prevdv[m] == prev[m]@);
                    assert(prevdv[m] == spec_collapse_seg(parts.deep_view()[m]));
                } else {
                    assert(collapsed@[m] == piece);
                }
            }
        }
        idx += 1;
    }
    proof {
        assert(collapsed.deep_view() =~= parts.deep_view().map_values(
            |t: Seq<char>| spec_collapse_seg(t),
        ));
    }
    join_slash_from(&collapsed, 0)
}

/// Whether the template segment `t`, its greedy `{...}` regions read as
/// "one or more characters other than `/`", matches the subject segment `u`
/// in full.
pub open spec fn spec_seg_matches(t: Seq<char>, u: Seq<char>) -> bool
    decreases t.len(),
    via spec_seg_matches_decreases
{
    let i = first_index_of(t, '{');
    let j = last_index_of(t, '}');
    if i < t.len() && i < j {
        &&& i <= u.len()
        &&& u.subrange(0, i) == t.subrange(0, i)
        &&& exists|l: int|
            1 <= l && i + l <= u.len() && spec_seg_matches(
                t.subrange(j + 1, t.len() as int),
                #[trigger] u.subrange(i + l, u.len() as int),
            )
    } else {
        t == u
    }
}

#[via_fn]
proof fn spec_seg_matches_decreases(t: Seq<char>, u: Seq<char>) {
    lemma_first_index_of(t, '{');
    lemma_last_index_of(t, '}');
}

/// Whether the template segment matches the subject segment.
pub fn seg_matches(t: &str, u: &str) -> (r: bool)
    ensures
        r == spec_seg_matches(t@, u@),
    decreases t@.len(),
{
    let nt = t.unicode_len();
    let nu = u.unicode_len();
    let i = find_char(t, '{');
    proof {
        lemma_first_index_of(t@, '{');
        lemma_last_index_of(t@, '}');
    }
    let j_opt = rfind_char(t, '}');
    let has_region = match j_opt {
        Some(j) => i < j,
        None => false,
    };
    if !has_region {
        return crate::strutil::str_eq(t, u);
    }
    let j = match j_opt {
        Some(j) => j,
        None => 0,
    };
    if i > nu {
        return false;
    }
    let t_prefix = t.substring_char(0, i);
    let u_prefix = u.substring_char(0, i);
    if !crate::strutil::str_eq(t_prefix, u_prefix) {
        return false;
    }
    let t_rest = t.substring_char(j + 1, nt);
    let mut end: usize = nu;
    while end > i
        invariant
            nt == t@.len(),
            nu == u@.len(),
            i as int == first_index_of(t@, '{'),
            j as int == last_index_of(t@, '}'),
            i < j < nt,
            i <= end <= nu,
            t_rest@ == t@.subrange(j + 1, nt as int),
            u@.subrange(0, i as int) == t@.subrange(0, i as int),
            forall|m: int|
                1 <= m && end < i + m <= nu ==> !spec_seg_matches(
                    t@.subrange(j + 1, nt as int),
                    #[trigger] u@.subrange(i + m, nu as int),
                ),
        decreases end,
    {
        let u_rest = u.substring_char(end, nu);
        if seg_matches(t_rest, u_rest) {
            proof {
                let l = end - i;
                assert(1 <= l && i + l <= u@.len() && spec_seg_matches(
                    t@.subrange(j + 1, nt as int),
                    u@.subrange(i + l, nu as int),
                ));
            }
            return true;
        }
        end -= 1;
    }
    proof {
        if spec_seg_matches(t@, u@) {
            let m = choose|m: int|
                1 <= m && i + m <= u@.len() && spec_seg_matches(
                    t@.subrange(j + 1, nt as int),
                    #[trigger] u@.subrange(i + m, nu as int),
                );
            assert(!spec_seg_matches(t@.subrange(j + 1, nt as int), u@.subrange(i + m, nu as int)));
        }
    }
    false
}

/// Whether the endpoint path template `t` matches the concrete path `u`:
/// the segments align one for one, literals by equality and each `{...}`
/// region by one or more characters other than `/`.
pub open spec fn spec_template_matches(t: Seq<char>, u: Seq<char>) -> bool {
    let tp = spec_split(t, '/');
    let up = spec_split(u, '/');
    tp.len() == up.len() && forall|k: int| 0 <= k < tp.len() ==> spec_seg_matches(tp[k], up[k])
}

/// Whether the endpoint path template matches the concrete path.
pub fn template_matches(t: &str, u: &str) -> (r: bool)
    ensures
        r == spec_template_matches(t@, u@),
{
    let tp = split_char(t, '/');
    let up = split_char(u, '/');
    if tp.len() != up.len() {
        return false;
    }
    let mut k: usize = 0;
    while k < tp.len()
        invariant
            tp.deep_view() == spec_split(t@, '/'),
            up.deep_view() == spec_split(u@, '/'),
            tp.len() == up.len(),
            tp.deep_view().len() == tp.len() as int,
            up.deep_view().len() == up.len() as int,
            k <= tp.len(),
            forall|m: int| 0 <= m < k ==> spec_seg_matches(tp.deep_view()[m], up.deep_view()[m]),
        decreases tp.len() - k,
    {
        proof {
            assert(tp.deep_view()[k as int] == tp@[k as int]@);
            assert(up.deep_view()[k as int] == up@[k as int]@);
        }
        if !seg_matches(tp[k].as_str(), up[k].as_str()) {
            return false;
        }
        k += 1;
    }
    true
}

} // verus!
