//! Service symbols of a rule body: the `params.service_name` of every `io_request` step,
//! found at any depth. Names that are resolved at run time (dynamic references) are
//! reported apart from the literal names.

use vstd::prelude::*;
use crate::json::{member, opt_get, opt_str, Json, JsonValue};
use crate::text::has_prefix;

verus! {

/// A service name resolved at run time: it begins with `__` or holds a `.`.
pub open spec fn is_dynamic_ref(name: Seq<char>) -> bool {
    has_prefix(name, "__"@) || name.contains('.')
}

/// The service name of an object that is an `io_request` step, if it names one.
pub open spec fn io_request_name(m: Seq<(Seq<char>, Json)>) -> Option<Seq<char>> {
    if opt_str(member(m, "type"@)) == Some("io_request"@) {
        opt_str(opt_get(member(m, "params"@), "service_name"@))
    } else {
        None
    }
}

/// Literal service names in `v`, in document order (an object's own name before those
/// nested in its members).
pub open spec fn literal_services(v: Json) -> Seq<Seq<char>>
    decreases v, 0nat,
{
    match v {
        Json::Object(m) => (match io_request_name(m) {
            Some(n) => if is_dynamic_ref(n) { Seq::empty() } else { seq![n] },
            None => Seq::empty(),
        }) + literal_members(m, m.len()),
        Json::Array(a) => literal_items(a, a.len()),
        _ => Seq::empty(),
    }
}

/// `literal_services` over the first `n` array items.
pub open spec fn literal_items(a: Seq<Json>, n: nat) -> Seq<Seq<char>>
    decreases a, n,
{
    if n == 0 || n > a.len() {
        Seq::empty()
    } else {
        literal_items(a, (n - 1) as nat) + literal_services(a[n - 1])
    }
}

/// `literal_services` over the values of the first `n` object members.
pub open spec fn literal_members(m: Seq<(Seq<char>, Json)>, n: nat) -> Seq<Seq<char>>
    decreases m, n,
{
    if n == 0 || n > m.len() {
        Seq::empty()
    } else {
        literal_members(m, (n - 1) as nat) + literal_services(m[n - 1].1)
    }
}

/// Whether some `io_request` step in `v` names its service dynamically.
pub open spec fn has_dynamic(v: Json) -> bool
    decreases v, 0nat,
{
    match v {
        Json::Object(m) => (match io_request_name(m) {
            Some(n) => is_dynamic_ref(n),
            None => false,
        }) || dynamic_members(m, m.len()),
        Json::Array(a) => dynamic_items(a, a.len()),
        _ => false,
    }
}

/// `has_dynamic` over the first `n` array items.
pub open spec fn dynamic_items(a: Seq<Json>, n: nat) -> bool
    decreases a, n,
{
    if n == 0 || n > a.len() {
        false
    } else {
        dynamic_items(a, (n - 1) as nat) || has_dynamic(a[n - 1])
    }
}

/// `has_dynamic` over the values of the first `n` object members.
pub open spec fn dynamic_members(m: Seq<(Seq<char>, Json)>, n: nat) -> bool
    decreases m, n,
{
    if n == 0 || n > m.len() {
        false
    } else {
        dynamic_members(m, (n - 1) as nat) || has_dynamic(m[n - 1].1)
    }
}

/// The value reached from `v` by following `path`: each step is the position of an
/// array item or of an object member.
pub open spec fn at_path(v: Json, path: Seq<int>) -> Option<Json>
    decreases path.len(),
{
    if path.len() == 0 {
        Some(v)
    } else {
        match v {
            Json::Array(a) => if 0 <= path[0] < a.len() { at_path(a[path[0]], path.drop_first()) } else { None },
            Json::Object(m) => if 0 <= path[0] < m.len() { at_path(m[path[0]].1, path.drop_first()) } else { None },
            _ => None,
        }
    }
}

proof fn lemma_items_cover(a: Seq<Json>, n: nat, k: int)
    requires
        0 <= k < n <= a.len(),
    ensures
        forall|x: Seq<char>| #[trigger] literal_services(a[k]).contains(x) ==> literal_items(a, n).contains(x),
        has_dynamic(a[k]) ==> dynamic_items(a, n),
    decreases n,
{
    let prev = literal_items(a, (n - 1) as nat);
    let last = literal_services(a[n - 1]);
    assert(literal_items(a, n) == prev + last);
    assert forall|x: Seq<char>| #[trigger] literal_services(a[k]).contains(x) implies literal_items(a, n).contains(x) by {
        if k == n - 1 {
            let t = choose|t: int| 0 <= t < last.len() && last[t] == x;
            assert((prev + last)[prev.len() + t] == x);
        } else {
            lemma_items_cover(a, (n - 1) as nat, k);
            assert(prev.contains(x));
            let t = choose|t: int| 0 <= t < prev.len() && prev[t] == x;
            assert((prev + last)[t] == x);
        }
    }
    if k < n - 1 {
        lemma_items_cover(a, (n - 1) as nat, k);
    }
}

proof fn lemma_members_cover(m: Seq<(Seq<char>, Json)>, n: nat, k: int)
    requires
        0 <= k < n <= m.len(),
    ensures
        forall|x: Seq<char>| #[trigger] literal_services(m[k].1).contains(x) ==> literal_members(m, n).contains(x),
        has_dynamic(m[k].1) ==> dynamic_members(m, n),
    decreases n,
{
    let prev = literal_members(m, (n - 1) as nat);
    let last = literal_services(m[n - 1].1);
    assert(literal_members(m, n) == prev + last);
    assert forall|x: Seq<char>| #[trigger] literal_services(m[k].1).contains(x) implies literal_members(m, n).contains(x) by {
        if k == n - 1 {
            let t = choose|t: int| 0 <= t < last.len() && last[t] == x;
            assert((prev + last)[prev.len() + t] == x);
        } else {
            lemma_members_cover(m, (n - 1) as nat, k);
            assert(prev.contains(x));
            let t = choose|t: int| 0 <= t < prev.len() && prev[t] == x;
            assert((prev + last)[t] == x);
        }
    }
    if k < n - 1 {
        lemma_members_cover(m, (n - 1) as nat, k);
    }
}

/// Every `io_request` step at any depth of `v` is accounted for: a literal service name
/// is among `literal_services(v)` (so `io_services_from_rule_body` reports it), and a
/// dynamic one makes `has_dynamic(v)` hold.
pub proof fn lemma_every_step_counted(v: Json, path: Seq<int>, name: Seq<char>)
    requires
        at_path(v, path) matches Some(Json::Object(m)) && io_request_name(m) == Some(name),
    ensures
        !is_dynamic_ref(name) ==> literal_services(v).contains(name),
        is_dynamic_ref(name) ==> has_dynamic(v),
    decreases path.len(),
{
    if path.len() == 0 {
        let m = v->Object_0;
        let own = seq![name];
        let rest = literal_members(m, m.len());
        if !is_dynamic_ref(name) {
            assert(literal_services(v) == own + rest);
            assert((own + rest)[0] == name);
        }
    } else {
        let k = path[0];
        match v {
            Json::Array(a) => {
                lemma_every_step_counted(a[k], path.drop_first(), name);
                lemma_items_cover(a, a.len(), k);
                assert(literal_services(v) == literal_items(a, a.len()));
            },
            Json::Object(m) => {
                lemma_every_step_counted(m[k].1, path.drop_first(), name);
                lemma_members_cover(m, m.len(), k);
                let own = match io_request_name(m) {
                    Some(n) => if is_dynamic_ref(n) { Seq::empty() } else { seq![n] },
                    None => Seq::empty(),
                };
                let rest = literal_members(m, m.len());
                assert(literal_services(v) == own + rest);
                if !is_dynamic_ref(name) {
                    let t = choose|t: int| 0 <= t < rest.len() && rest[t] == name;
                    assert((own + rest)[own.len() + t] == name);
                }
            },
            _ => {},
        }
    }
}

proof fn lemma_items_origin(a: Seq<Json>, n: nat, name: Seq<char>)
    requires
        n <= a.len(),
    ensures
        literal_items(a, n).contains(name) ==> exists|k: int| 0 <= k < n && #[trigger] literal_services(a[k]).contains(name),
        dynamic_items(a, n) ==> exists|k: int| 0 <= k < n && #[trigger] has_dynamic(a[k]),
    decreases n,
{
    if n > 0 {
        lemma_items_origin(a, (n - 1) as nat, name);
        let prev = literal_items(a, (n - 1) as nat);
        let last = literal_services(a[n - 1]);
        assert(literal_items(a, n) == prev + last);
        if dynamic_items(a, n) && !has_dynamic(a[n - 1]) {
            assert(dynamic_items(a, (n - 1) as nat));
        }
        if literal_items(a, n).contains(name) {
            let t = choose|t: int| 0 <= t < (prev + last).len() && (prev + last)[t] == name;
            if t < prev.len() {
                assert(prev[t] == name);
                assert(prev.contains(name));
            } else {
                assert(last[t - prev.len()] == name);
                assert(literal_services(a[n - 1]).contains(name));
            }
        }
    }
}

proof fn lemma_members_origin(m: Seq<(Seq<char>, Json)>, n: nat, name: Seq<char>)
    requires
        n <= m.len(),
    ensures
        literal_members(m, n).contains(name) ==> exists|k: int| 0 <= k < n && #[trigger] literal_services(m[k].1).contains(name),
        dynamic_members(m, n) ==> exists|k: int| 0 <= k < n && #[trigger] has_dynamic(m[k].1),
    decreases n,
{
    if n > 0 {
        lemma_members_origin(m, (n - 1) as nat, name);
        let prev = literal_members(m, (n - 1) as nat);
        let last = literal_services(m[n - 1].1);
        assert(literal_members(m, n) == prev + last);
        if dynamic_members(m, n) && !has_dynamic(m[n - 1].1) {
            assert(dynamic_members(m, (n - 1) as nat));
        }
        if literal_members(m, n).contains(name) {
            let t = choose|t: int| 0 <= t < (prev + last).len() && (prev + last)[t] == name;
            if t < prev.len() {
                assert(prev[t] == name);
                assert(prev.contains(name));
            } else {
                assert(last[t - prev.len()] == name);
                assert(literal_services(m[n - 1].1).contains(name));
            }
        }
    }
}

/// Every name `literal_services(v)` reports is the literal service name of an
/// `io_request` step somewhere in `v`; and `has_dynamic(v)` holds only when some step
/// names its service dynamically.
pub proof fn lemma_every_name_found(v: Json, name: Seq<char>)
    ensures
        literal_services(v).contains(name) ==> exists|path: Seq<int>| #[trigger] at_path(v, path) matches Some(Json::Object(m))
            && io_request_name(m) == Some(name) && !is_dynamic_ref(name),
        has_dynamic(v) ==> exists|path: Seq<int>| #[trigger] at_path(v, path) matches Some(Json::Object(m))
            && io_request_name(m) matches Some(d) && is_dynamic_ref(d),
    decreases v,
{
    match v {
        Json::Object(m) => {
            lemma_members_origin(m, m.len(), name);
            assert(at_path(v, Seq::empty()) == Some(v));
            let own = match io_request_name(m) {
                Some(n) => if is_dynamic_ref(n) { Seq::empty() } else { seq![n] },
                None => Seq::empty(),
            };
            let rest = literal_members(m, m.len());
            assert(literal_services(v) == own + rest);
            if literal_services(v).contains(name) {
                let t = choose|t: int| 0 <= t < (own + rest).len() && (own + rest)[t] == name;
                if t < own.len() {
                    assert(own[t] == name);
                    assert(at_path(v, Seq::<int>::empty()) matches Some(Json::Object(mm)) && io_request_name(mm) == Some(name));
                } else {
                    assert(rest[t - own.len()] == name);
                    assert(rest.contains(name));
                    let k = choose|k: int| 0 <= k < m.len() && #[trigger] literal_services(m[k].1).contains(name);
                    assert(decreases_to!(v => m[k].1));
                    lemma_every_name_found(m[k].1, name);
                    let p = choose|p: Seq<int>| #[trigger] at_path(m[k].1, p) matches Some(Json::Object(mm))
                        && io_request_name(mm) == Some(name) && !is_dynamic_ref(name);
                    let path = seq![k] + p;
                    assert(path.drop_first() =~= p);
                    assert(at_path(v, path) == at_path(m[k].1, p));
                }
            }
            if has_dynamic(v) {
                if io_request_name(m) matches Some(d) && is_dynamic_ref(d) {
                    let d = io_request_name(m)->0;
                    assert(at_path(v, Seq::<int>::empty()) matches Some(Json::Object(mm)) && io_request_name(mm) matches Some(dd) && is_dynamic_ref(dd));
                } else {
                    let k = choose|k: int| 0 <= k < m.len() && #[trigger] has_dynamic(m[k].1);
                    assert(decreases_to!(v => m[k].1));
                    lemma_every_name_found(m[k].1, name);
                    let p = choose|p: Seq<int>| #[trigger] at_path(m[k].1, p) matches Some(Json::Object(mm))
                        && io_request_name(mm) matches Some(d) && is_dynamic_ref(d);
                    let path = seq![k] + p;
                    assert(path.drop_first() =~= p);
                    assert(at_path(v, path) == at_path(m[k].1, p));
                }
            }
        },
        Json::Array(a) => {
            lemma_items_origin(a, a.len(), name);
            assert(literal_services(v) == literal_items(a, a.len()));
            if literal_services(v).contains(name) {
                let k = choose|k: int| 0 <= k < a.len() && #[trigger] literal_services(a[k]).contains(name);
                assert(decreases_to!(v => a[k]));
                lemma_every_name_found(a[k], name);
                let p = choose|p: Seq<int>| #[trigger] at_path(a[k], p) matches Some(Json::Object(mm))
                    && io_request_name(mm) == Some(name) && !is_dynamic_ref(name);
                let path = seq![k] + p;
                assert(path.drop_first() =~= p);
                assert(at_path(v, path) == at_path(a[k], p));
            }
            if has_dynamic(v) {
                let k = choose|k: int| 0 <= k < a.len() && #[trigger] has_dynamic(a[k]);
                assert(decreases_to!(v => a[k]));
                lemma_every_name_found(a[k], name);
                let p = choose|p: Seq<int>| #[trigger] at_path(a[k], p) matches Some(Json::Object(mm))
                    && io_request_name(mm) matches Some(d) && is_dynamic_ref(d);
                let path = seq![k] + p;
                assert(path.drop_first() =~= p);
                assert(at_path(v, path) == at_path(a[k], p));
            }
        },
        _ => {},
    }
}

/// No name in `literal_services(v)` is a dynamic reference: the literal list and the
/// dynamic flag never describe the same name.
pub proof fn lemma_literals_not_dynamic(v: Json)
    ensures
        forall|i: int| 0 <= i < literal_services(v).len() ==> !is_dynamic_ref(#[trigger] literal_services(v)[i]),
    decreases v, 0nat,
{
    if v is Object {
        let m = v->Object_0;
        lemma_literal_members(m, m.len());
        let own = match io_request_name(m) {
            Some(n) => if is_dynamic_ref(n) { Seq::empty() } else { seq![n] },
            None => Seq::empty(),
        };
        let rest = literal_members(m, m.len());
        assert(literal_services(v) == own + rest);
        assert forall|i: int| 0 <= i < literal_services(v).len() implies !is_dynamic_ref(#[trigger] literal_services(v)[i]) by {
            if i >= own.len() {
                assert(literal_services(v)[i] == rest[i - own.len()]);
            } else {
                assert(literal_services(v)[i] == own[i]);
            }
        }
    } else if v is Array {
        lemma_literal_items(v->Array_0, v->Array_0.len());
        assert(literal_services(v) == literal_items(v->Array_0, v->Array_0.len()));
    } else {
        assert(literal_services(v).len() == 0);
    }
}

proof fn lemma_literal_items(a: Seq<Json>, n: nat)
    ensures
        forall|i: int| 0 <= i < literal_items(a, n).len() ==> !is_dynamic_ref(#[trigger] literal_items(a, n)[i]),
    decreases a, n,
{
    if n == 0 || n > a.len() {
    } else {
        lemma_literal_items(a, (n - 1) as nat);
        lemma_literals_not_dynamic(a[n - 1]);
        let x = literal_items(a, (n - 1) as nat);
        let y = literal_services(a[n - 1]);
        assert forall|i: int| 0 <= i < (x + y).len() implies !is_dynamic_ref(#[trigger] (x + y)[i]) by {
            if i < x.len() {
                assert((x + y)[i] == x[i]);
            } else {
                assert((x + y)[i] == y[i - x.len()]);
            }
        }
    }
}

proof fn lemma_literal_members(m: Seq<(Seq<char>, Json)>, n: nat)
    ensures
        forall|i: int| 0 <= i < literal_members(m, n).len() ==> !is_dynamic_ref(#[trigger] literal_members(m, n)[i]),
    decreases m, n,
{
    if n == 0 || n > m.len() {
    } else {
        lemma_literal_members(m, (n - 1) as nat);
        lemma_literals_not_dynamic(m[n - 1].1);
        let x = literal_members(m, (n - 1) as nat);
        let y = literal_services(m[n - 1].1);
        assert forall|i: int| 0 <= i < (x + y).len() implies !is_dynamic_ref(#[trigger] (x + y)[i]) by {
            if i < x.len() {
                assert((x + y)[i] == x[i]);
            } else {
                assert((x + y)[i] == y[i - x.len()]);
            }
        }
    }
}

/// Whether a service name is a dynamic reference.
pub fn is_dynamic_service_ref(name: &str) -> (r: bool)
    ensures
        r == is_dynamic_ref(name@),
{
    let cs = crate::text::chars_of(name);
    crate::text::str_starts_with(name, "__") || crate::text::chars_have(cs.as_slice(), '.')
}

fn io_request_service<'a>(v: &'a JsonValue) -> (r: Option<&'a str>)
    requires
        v@ is Object,
    ensures
        match r {
            Some(n) => io_request_name(v@->Object_0) == Some(n@),
            None => io_request_name(v@->Object_0) is None,
        },
{
    let ty = match v.get("type") {
        Some(t) => t.as_str(),
        None => None,
    };
    let is_io = match ty {
        Some(t) => crate::text::str_eq(t, "io_request"),
        None => false,
    };
    if !is_io {
        return None;
    }
    match v.get("params") {
        Some(p) => match p.get("service_name") {
            Some(s) => s.as_str(),
            None => None,
        },
        None => None,
    }
}

fn collect_io_services(value: &JsonValue, out: &mut Vec<String>, dynamic: &mut bool)
    ensures
        crate::text::views(final(out)@) == crate::text::views(old(out)@) + literal_services(value@),
        *final(dynamic) == (*old(dynamic) || has_dynamic(value@)),
    decreases value,
{
    let ghost start = crate::text::views(out@);
    match value {
        JsonValue::Object(m) => {
            match io_request_service(value) {
                Some(name) => {
                    if is_dynamic_service_ref(name) {
                        *dynamic = true;
                    } else {
                        out.push(String::from_str(name));
                    }
                },
                None => {},
            }
            let ghost own = crate::text::views(out@);
            let mut k: usize = 0;
            while k < m.len()
                invariant
                    *value == JsonValue::Object(*m),
                    k <= m@.len(),
                    crate::text::views(out@) == own + literal_members(value@->Object_0, k as nat),
                    *dynamic == (*old(dynamic) || (match io_request_name(value@->Object_0) {
                        Some(n) => is_dynamic_ref(n),
                        None => false,
                    }) || dynamic_members(value@->Object_0, k as nat)),
                decreases m.len() - k,
            {
                proof {
                    assert(decreases_to!(*value => value->Object_0));
                    assert(decreases_to!(value->Object_0 => (value->Object_0)@));
                    assert(decreases_to!(m@ => m@[k as int]));
                    assert(decreases_to!(m@[k as int] => m@[k as int].1));
                }
                collect_io_services(&m[k].1, out, dynamic);
                k = k + 1;
                assert(crate::text::views(out@) =~= own + literal_members(value@->Object_0, k as nat));
            }
            assert(crate::text::views(out@) =~= start + literal_services(value@));
        },
        JsonValue::Array(a) => {
            let mut k: usize = 0;
            while k < a.len()
                invariant
                    *value == JsonValue::Array(*a),
                    k <= a@.len(),
                    crate::text::views(out@) == start + literal_items(value@->Array_0, k as nat),
                    *dynamic == (*old(dynamic) || dynamic_items(value@->Array_0, k as nat)),
                decreases a.len() - k,
            {
                proof {
                    assert(decreases_to!(*value => value->Array_0));
                    assert(decreases_to!(value->Array_0 => (value->Array_0)@));
                    assert(decreases_to!(a@ => a@[k as int]));
                }
                collect_io_services(&a[k], out, dynamic);
                k = k + 1;
                assert(crate::text::views(out@) =~= start + literal_items(value@->Array_0, k as nat));
            }
        },
        _ => {
            assert(crate::text::views(out@) =~= start + literal_services(value@));
        },
    }
}

/// The literal service names of all `io_request` steps of a rule body, at any depth;
/// dynamic references are left out. A body without such steps gives an empty list.
pub fn io_services_from_rule_body(rule_body: &JsonValue) -> (r: Vec<String>)
    ensures
        crate::text::views(r@) == literal_services(rule_body@),
{
    let mut out: Vec<String> = Vec::new();
    let mut dynamic = false;
    collect_io_services(rule_body, &mut out, &mut dynamic);
    assert(crate::text::views(out@) =~= literal_services(rule_body@));
    out
}

/// Whether some `io_request` step of a rule body names its service dynamically.
pub fn has_dynamic_service_ref(rule_body: &JsonValue) -> (r: bool)
    ensures
        r == has_dynamic(rule_body@),
{
    let mut out: Vec<String> = Vec::new();
    let mut dynamic = false;
    collect_io_services(rule_body, &mut out, &mut dynamic);
    dynamic
}

} // verus!
