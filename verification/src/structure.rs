//! Light structure gate for rule bodies: the transform list must hold steps whose `type`
//! is one of the six meta instructions, no string may name the singular `__io_result__`,
//! and strings under path fields must be well-formed paths.

use vstd::prelude::*;
use crate::json::{Json, JsonValue};
use crate::text::{decimal, has_infix, has_prefix};

verus! {

/// The six meta instruction types a transform step may have.
pub const META_INSTRUCTION_TYPES: [&'static str; 6] = ["set", "push", "branch", "io_request", "collect", "merge"];

/// A character allowed inside a path segment: ASCII letters and digits, `_`, `$`, `\`, `-`.
pub open spec fn is_seg(c: char) -> bool {
    ||| 'a' <= c <= 'z'
    ||| 'A' <= c <= 'Z'
    ||| '0' <= c <= '9'
    ||| c == '_'
    ||| c == '$'
    ||| c == '\\'
    ||| c == '-'
}

/// An ASCII decimal digit.
pub open spec fn is_digit(c: char) -> bool {
    '0' <= c <= '9'
}

/// End of the run of segment characters that starts at `i`.
pub open spec fn seg_end(cs: Seq<char>, i: nat) -> nat
    decreases cs.len() - i,
{
    if i < cs.len() && is_seg(cs[i as int]) {
        seg_end(cs, i + 1)
    } else {
        i
    }
}

/// End of the run of digits that starts at `i`.
pub open spec fn digits_end(cs: Seq<char>, i: nat) -> nat
    decreases cs.len() - i,
{
    if i < cs.len() && is_digit(cs[i as int]) {
        digits_end(cs, i + 1)
    } else {
        i
    }
}

pub proof fn lemma_seg_end(cs: Seq<char>, i: nat)
    ensures
        i <= seg_end(cs, i),
        i <= cs.len() ==> seg_end(cs, i) <= cs.len(),
        forall|t: int| i <= t < seg_end(cs, i) ==> is_seg(#[trigger] cs[t]),
        seg_end(cs, i) < cs.len() ==> !is_seg(cs[seg_end(cs, i) as int]),
    decreases cs.len() - i,
{
    if i < cs.len() && is_seg(cs[i as int]) {
        lemma_seg_end(cs, i + 1);
    }
}

pub proof fn lemma_digits_end(cs: Seq<char>, i: nat)
    ensures
        i <= digits_end(cs, i),
        i <= cs.len() ==> digits_end(cs, i) <= cs.len(),
        forall|t: int| i <= t < digits_end(cs, i) ==> is_digit(#[trigger] cs[t]),
        digits_end(cs, i) < cs.len() ==> !is_digit(cs[digits_end(cs, i) as int]),
    decreases cs.len() - i,
{
    if i < cs.len() && is_digit(cs[i as int]) {
        lemma_digits_end(cs, i + 1);
    }
}

/// The position after an index `[N]` (one or more digits) that opens at `i`, if there is one.
pub open spec fn index_end(cs: Seq<char>, i: nat) -> Option<nat> {
    let j = digits_end(cs, i + 1);
    if i < cs.len() && cs[i as int] == '[' && j > i + 1 && j < cs.len() && cs[j as int] == ']' {
        Some(j + 1)
    } else {
        None
    }
}

/// The rest of a path from `i` on, where a segment must start: a segment, an optional
/// index, then the end, or `.` followed by a further segment, or `.` followed by an
/// index and then the end or a further segment.
pub open spec fn path_from(cs: Seq<char>, i: nat) -> bool
    decreases cs.len() - i,
{
    let j = seg_end(cs, i);
    proof {
        lemma_seg_end(cs, i);
    }
    if i >= cs.len() || j == i {
        false
    } else {
        let k = if j < cs.len() && cs[j as int] == '[' { index_end(cs, j) } else { Some(j) };
        match k {
            None => false,
            Some(k) => if k >= cs.len() {
                true
            } else if cs[k as int] != '.' || k + 1 >= cs.len() {
                false
            } else if cs[k + 1 as int] == '[' {
                match index_end(cs, k + 1) {
                    None => false,
                    Some(m) => if m >= cs.len() { true } else { path_from(cs, m) },
                }
            } else if !is_seg(cs[k + 1 as int]) {
                false
            } else {
                path_from(cs, k + 1)
            },
        }
    }
}

/// A well-formed path, such as `payload.a.b[2].c` or `data.[0]`.
pub open spec fn valid_path(cs: Seq<char>) -> bool {
    path_from(cs, 0)
}

proof fn lemma_index_end(cs: Seq<char>, i: nat)
    requires
        index_end(cs, i) is Some,
    ensures
        ({
            let m = index_end(cs, i)->0;
            &&& i < m <= cs.len()
            &&& cs[m - 1] == ']'
            &&& forall|t: int| i <= t < m ==> #[trigger] cs[t] != '.'
        }),
{
    lemma_digits_end(cs, i + 1);
}

proof fn lemma_path_from_shape(cs: Seq<char>, i: nat)
    requires
        path_from(cs, i),
    ensures
        i < cs.len(),
        is_seg(cs[i as int]),
        cs[cs.len() - 1] != '.',
        forall|t: int| i <= t < cs.len() - 1 ==> !(#[trigger] cs[t] == '.' && cs[t + 1] == '.'),
    decreases cs.len() - i,
{
    let j = seg_end(cs, i);
    lemma_seg_end(cs, i);
    let k = if j < cs.len() && cs[j as int] == '[' { index_end(cs, j) } else { Some(j) };
    if j < cs.len() && cs[j as int] == '[' {
        lemma_index_end(cs, j);
    }
    let k = k->0;
    assert(forall|t: int| i <= t < k ==> #[trigger] cs[t] != '.');
    if k >= cs.len() {
        assert(cs[cs.len() - 1] != '.');
    } else if cs[k + 1 as int] == '[' {
        lemma_index_end(cs, k + 1);
        let m = index_end(cs, k + 1)->0;
        if m < cs.len() {
            lemma_path_from_shape(cs, m);
        }
    } else {
        lemma_path_from_shape(cs, k + 1);
    }
}

/// A valid path is not empty, starts with a segment character, does not end with `.`,
/// and never holds two `.` in a row.
pub proof fn lemma_valid_path_shape(cs: Seq<char>)
    requires
        valid_path(cs),
    ensures
        cs.len() > 0,
        is_seg(cs[0]),
        cs.last() != '.',
        forall|t: int| 0 <= t < cs.len() - 1 ==> !(#[trigger] cs[t] == '.' && cs[t + 1] == '.'),
{
    lemma_path_from_shape(cs, 0);
}


/// A character allowed inside a path segment.
pub fn is_seg_char(c: char) -> (r: bool)
    ensures
        r == is_seg(c),
{
    ('a' <= c && c <= 'z') || ('A' <= c && c <= 'Z') || ('0' <= c && c <= '9') || c == '_' || c
        == '$' || c == '\\' || c == '-'
}

fn scan_seg(cs: &[char], i: usize) -> (r: usize)
    requires
        i <= cs@.len(),
    ensures
        r == seg_end(cs@, i as nat),
{
    let mut j = i;
    while j < cs.len() && is_seg_char(cs[j])
        invariant
            i <= j <= cs@.len(),
            seg_end(cs@, i as nat) == seg_end(cs@, j as nat),
        decreases cs@.len() - j,
    {
        j = j + 1;
    }
    j
}

fn scan_index(cs: &[char], i: usize) -> (r: Option<usize>)
    requires
        i < cs@.len(),
        cs@[i as int] == '[',
    ensures
        r == (match index_end(cs@, i as nat) {
            Some(k) => Some(k as usize),
            None => None::<usize>,
        }),
        r matches Some(k) ==> i < k <= cs@.len(),
{
    let n = cs.len();
    let mut j = i + 1;
    while j < n && '0' <= cs[j] && cs[j] <= '9'
        invariant
            i + 1 <= j <= n,
            n == cs@.len(),
            digits_end(cs@, (i + 1) as nat) == digits_end(cs@, j as nat),
        decreases n - j,
    {
        j = j + 1;
    }
    if j == i + 1 || j >= n || cs[j] != ']' {
        None
    } else {
        Some(j + 1)
    }
}

/// Path syntax: segments of `[A-Za-z0-9_$\-\\]`, joined by `.`, each optionally
/// followed by an index `[N]`; `.[N]` is accepted as an index after a dot.
pub fn valid_path_syntax(s: &str) -> (r: bool)
    ensures
        r == valid_path(s@),
{
    let cs = crate::text::chars_of(s);
    let n = cs.len();
    if n == 0 {
        return false;
    }
    let mut i: usize = 0;
    loop
        invariant
            i < n,
            n == cs@.len(),
            valid_path(s@) == path_from(cs@, i as nat),
        decreases n - i,
    {
        let j = scan_seg(cs.as_slice(), i);
        proof {
            lemma_seg_end(cs@, i as nat);
        }
        if j == i {
            return false;
        }
        let k: usize;
        if j < n && cs[j] == '[' {
            match scan_index(cs.as_slice(), j) {
                None => {
                    return false;
                },
                Some(e) => {
                    k = e;
                },
            }
        } else {
            k = j;
        }
        if k >= n {
            return true;
        }
        if cs[k] != '.' || k + 1 >= n {
            return false;
        }
        if cs[k + 1] == '[' {
            match scan_index(cs.as_slice(), k + 1) {
                None => {
                    return false;
                },
                Some(m) => {
                    if m >= n {
                        return true;
                    }
                    i = m;
                },
            }
        } else if !is_seg_char(cs[k + 1]) {
            return false;
        } else {
            i = k + 1;
        }
    }
}


/// One of the six meta instruction types.
pub open spec fn is_meta_type(ty: Seq<char>) -> bool {
    ||| ty == "set"@
    ||| ty == "push"@
    ||| ty == "branch"@
    ||| ty == "io_request"@
    ||| ty == "collect"@
    ||| ty == "merge"@
}

/// A member name whose string values are paths.
pub open spec fn is_path_key(k: Seq<char>) -> bool {
    ||| k == "attr"@
    ||| k == "path"@
    ||| k == "args"@
    ||| k == "service_name"@
}

/// A string that looks like a path: it holds `.` or `[`, or begins with `__`.
pub open spec fn looks_like_path(s: Seq<char>) -> bool {
    s.contains('.') || s.contains('[') || has_prefix(s, "__"@)
}

/// `transform[i]`, without the closing bracket.
pub open spec fn step_label(i: nat) -> Seq<char> {
    "transform["@ + decimal(i)
}

/// The message for a body that is neither a transform list nor an object holding one.
pub open spec fn shape_message() -> Seq<char> {
    "rule_body 必须是 transform 数组或含 transform 字段的对象"@
}

/// The message for an empty transform list.
pub open spec fn empty_message() -> Seq<char> {
    "transform 数组不能为空"@
}

/// Messages about the `type` of step `i`.
pub open spec fn type_messages(i: nat, step: Json) -> Seq<Seq<char>> {
    match crate::json::opt_str(step.get("type"@)) {
        Some(ty) => if is_meta_type(ty) {
            Seq::empty()
        } else {
            seq![step_label(i) + "].type='"@ + ty + "' 不是元指令（白名单: set/push/branch/io_request/collect/merge）"@]
        },
        None => seq![step_label(i) + "] 缺 type"@],
    }
}

/// Messages about one string found in step `i`.
pub open spec fn string_messages(s: Seq<char>, i: nat, is_path: bool) -> Seq<Seq<char>> {
    let singular = if has_infix(s, "__io_result__"@) {
        seq![step_label(i) + "] 引用单数 '__io_result__'，必须用复数 '__io_results__'"@]
    } else {
        Seq::empty()
    };
    let path = if is_path && looks_like_path(s) && !valid_path(s) {
        seq![step_label(i) + "] 路径语法非法: '"@ + s + "'"@]
    } else {
        Seq::empty()
    };
    singular + path
}

/// Messages about every string inside `v`, in document order; `is_path` tells whether
/// `v` sits under a path member (nested members decide afresh by their own names).
pub open spec fn scan_messages(v: Json, i: nat, is_path: bool) -> Seq<Seq<char>>
    decreases v, 0nat,
{
    match v {
        Json::Str(s) => string_messages(s, i, is_path),
        Json::Array(a) => scan_items(a, a.len(), i, is_path),
        Json::Object(m) => scan_members(m, m.len(), i),
        _ => Seq::empty(),
    }
}

/// `scan_messages` over the first `n` items of an array.
pub open spec fn scan_items(a: Seq<Json>, n: nat, i: nat, is_path: bool) -> Seq<Seq<char>>
    decreases a, n,
{
    if n == 0 || n > a.len() {
        Seq::empty()
    } else {
        scan_items(a, (n - 1) as nat, i, is_path) + scan_messages(a[n - 1], i, is_path)
    }
}

/// `scan_messages` over the first `n` members of an object.
pub open spec fn scan_members(m: Seq<(Seq<char>, Json)>, n: nat, i: nat) -> Seq<Seq<char>>
    decreases m, n,
{
    if n == 0 || n > m.len() {
        Seq::empty()
    } else {
        scan_members(m, (n - 1) as nat, i) + scan_messages(m[n - 1].1, i, is_path_key(m[n - 1].0))
    }
}

/// Messages for the first `n` steps.
pub open spec fn steps_messages(steps: Seq<Json>, n: nat) -> Seq<Seq<char>>
    decreases n,
{
    if n == 0 || n > steps.len() {
        Seq::empty()
    } else {
        steps_messages(steps, (n - 1) as nat) + type_messages((n - 1) as nat, steps[n - 1])
            + scan_messages(steps[n - 1], (n - 1) as nat, false)
    }
}

/// A step raises no message about its type exactly when its `type` is a string listed in
/// `META_INSTRUCTION_TYPES`; any other step raises one.
pub proof fn lemma_type_whitelist(i: nat, step: Json)
    ensures
        (type_messages(i, step).len() == 0) <==> (step.get("type"@) matches Some(Json::Str(ty))
            && exists|t: int| 0 <= t < 6 && ty == (#[trigger] META_INSTRUCTION_TYPES@[t])@),
        type_messages(i, step).len() <= 1,
{
    assert(META_INSTRUCTION_TYPES@[0] == "set");
    assert(META_INSTRUCTION_TYPES@[1] == "push");
    assert(META_INSTRUCTION_TYPES@[2] == "branch");
    assert(META_INSTRUCTION_TYPES@[3] == "io_request");
    assert(META_INSTRUCTION_TYPES@[4] == "collect");
    assert(META_INSTRUCTION_TYPES@[5] == "merge");
    if let Some(Json::Str(ty)) = step.get("type"@) {
        if is_meta_type(ty) {
            if ty == "set"@ { assert(ty == META_INSTRUCTION_TYPES@[0]@); }
            if ty == "push"@ { assert(ty == META_INSTRUCTION_TYPES@[1]@); }
            if ty == "branch"@ { assert(ty == META_INSTRUCTION_TYPES@[2]@); }
            if ty == "io_request"@ { assert(ty == META_INSTRUCTION_TYPES@[3]@); }
            if ty == "collect"@ { assert(ty == META_INSTRUCTION_TYPES@[4]@); }
            if ty == "merge"@ { assert(ty == META_INSTRUCTION_TYPES@[5]@); }
        }
    }
}

proof fn lemma_steps_quiet(steps: Seq<Json>, n: nat, k: int)
    requires
        n <= steps.len(),
        0 <= k < n,
        steps_messages(steps, n).len() == 0,
    ensures
        type_messages(k as nat, steps[k]).len() == 0,
    decreases n,
{
    if k < n - 1 {
        lemma_steps_quiet(steps, (n - 1) as nat, k);
    }
}

/// Every step of a rule body with a well-formed structure has a `type` listed in
/// `META_INSTRUCTION_TYPES`.
pub proof fn lemma_accepted_steps_whitelisted(v: Json)
    requires
        structure_verdict(v) is Ok,
    ensures
        transform_of(v) matches Some(steps) && steps.len() > 0 && forall|k: int| 0 <= k < steps.len() ==>
            ((#[trigger] steps[k]).get("type"@) matches Some(Json::Str(ty))
                && exists|t: int| 0 <= t < 6 && ty == (#[trigger] META_INSTRUCTION_TYPES@[t])@),
{
    let steps = transform_of(v)->0;
    assert forall|k: int| 0 <= k < steps.len() implies ((#[trigger] steps[k]).get("type"@) matches Some(Json::Str(ty))
        && exists|t: int| 0 <= t < 6 && ty == (#[trigger] META_INSTRUCTION_TYPES@[t])@) by {
        lemma_steps_quiet(steps, steps.len(), k);
        lemma_type_whitelist(k as nat, steps[k]);
    }
}

/// The transform list of a rule body: the `transform` array member, or the body itself
/// when it is an array.
pub open spec fn transform_of(v: Json) -> Option<Seq<Json>> {
    match v.get("transform"@) {
        Some(Json::Array(a)) => Some(a),
        _ => match v {
            Json::Array(a) => Some(a),
            _ => None,
        },
    }
}

/// The verdict of the structure gate: `Ok` or the full list of messages.
pub open spec fn structure_verdict(v: Json) -> Result<(), Seq<Seq<char>>> {
    match transform_of(v) {
        None => Err(seq![shape_message()]),
        Some(steps) => if steps.len() == 0 {
            Err(seq![empty_message()])
        } else {
            let msgs = steps_messages(steps, steps.len());
            if msgs.len() == 0 {
                Ok(())
            } else {
                Err(msgs)
            }
        },
    }
}

fn label_string(i: usize) -> (r: String)
    ensures
        r@ == step_label(i as nat),
{
    let mut s = String::new();
    s.append("transform[");
    let d = crate::text::decimal_string(i as u64);
    s.append(d.as_str());
    s
}

fn is_meta_type_str(ty: &str) -> (r: bool)
    ensures
        r == is_meta_type(ty@),
{
    let mut k: usize = 0;
    let mut found = false;
    while k < 6
        invariant
            k <= 6,
            found == exists|t: int| 0 <= t < k && ty@ == (#[trigger] META_INSTRUCTION_TYPES@[t])@,
        decreases 6 - k,
    {
        if crate::text::str_eq(ty, META_INSTRUCTION_TYPES[k]) {
            found = true;
        }
        k = k + 1;
    }
    assert(META_INSTRUCTION_TYPES@[0] == "set");
    assert(META_INSTRUCTION_TYPES@[1] == "push");
    assert(META_INSTRUCTION_TYPES@[2] == "branch");
    assert(META_INSTRUCTION_TYPES@[3] == "io_request");
    assert(META_INSTRUCTION_TYPES@[4] == "collect");
    assert(META_INSTRUCTION_TYPES@[5] == "merge");
    found
}

fn is_path_key_str(k: &str) -> (r: bool)
    ensures
        r == is_path_key(k@),
{
    crate::text::str_eq(k, "attr") || crate::text::str_eq(k, "path") || crate::text::str_eq(k, "args")
        || crate::text::str_eq(k, "service_name")
}

/// Adds a message for step `idx` when the string refers to the singular `__io_result__`.
pub fn check_singular_io_result(s: &str, idx: usize, errors: &mut Vec<String>)
    ensures
        crate::text::views(final(errors)@) == crate::text::views(old(errors)@) + (if has_infix(s@, "__io_result__"@) {
            seq![step_label(idx as nat) + "] 引用单数 '__io_result__'，必须用复数 '__io_results__'"@]
        } else {
            Seq::empty()
        }),
{
    if crate::text::str_contains(s, "__io_result__") {
        let mut m = label_string(idx);
        m.append("] 引用单数 '__io_result__'，必须用复数 '__io_results__'");
        errors.push(m);
    }
    assert(crate::text::views(errors@) =~= crate::text::views(old(errors)@) + (if has_infix(s@, "__io_result__"@) {
        seq![step_label(idx as nat) + "] 引用单数 '__io_result__'，必须用复数 '__io_results__'"@]
    } else {
        Seq::empty()
    }));
}

/// Adds a message for step `idx` when the string looks like a path but breaks the path
/// grammar.
pub fn check_path_string(s: &str, idx: usize, errors: &mut Vec<String>)
    ensures
        crate::text::views(final(errors)@) == crate::text::views(old(errors)@) + (if looks_like_path(s@) && !valid_path(s@) {
            seq![step_label(idx as nat) + "] 路径语法非法: '"@ + s@ + "'"@]
        } else {
            Seq::empty()
        }),
{
    let cs = crate::text::chars_of(s);
    let looks = crate::text::chars_have(cs.as_slice(), '.') || crate::text::chars_have(cs.as_slice(), '[')
        || crate::text::str_starts_with(s, "__");
    if looks && !valid_path_syntax(s) {
        let mut m = label_string(idx);
        m.append("] 路径语法非法: '");
        m.append(s);
        m.append("'");
        errors.push(m);
    }
    assert(crate::text::views(errors@) =~= crate::text::views(old(errors)@) + (if looks_like_path(s@) && !valid_path(s@) {
        seq![step_label(idx as nat) + "] 路径语法非法: '"@ + s@ + "'"@]
    } else {
        Seq::empty()
    }));
}

fn scan_strings_field(node: &JsonValue, idx: usize, errors: &mut Vec<String>, is_path_field: bool)
    ensures
        crate::text::views(final(errors)@) == crate::text::views(old(errors)@) + scan_messages(node@, idx as nat, is_path_field),
    decreases node,
{
    let ghost start = crate::text::views(errors@);
    match node {
        JsonValue::Str(s) => {
            check_singular_io_result(s.as_str(), idx, errors);
            if is_path_field {
                check_path_string(s.as_str(), idx, errors);
            }
            assert(crate::text::views(errors@) =~= start + scan_messages(node@, idx as nat, is_path_field));
        },
        JsonValue::Array(a) => {
            let mut k: usize = 0;
            while k < a.len()
                invariant
                    *node == JsonValue::Array(*a),
                    k <= a@.len(),
                    crate::text::views(errors@) == start + scan_items(node@->Array_0, k as nat, idx as nat, is_path_field),
                decreases a.len() - k,
            {
                proof {
                    assert(decreases_to!(*node => node->Array_0));
                    assert(decreases_to!(node->Array_0 => (node->Array_0)@));
                    assert(decreases_to!(a@ => a@[k as int]));
                }
                scan_strings_field(&a[k], idx, errors, is_path_field);
                k = k + 1;
                assert(crate::text::views(errors@) =~= start + scan_items(node@->Array_0, k as nat, idx as nat, is_path_field));
            }
        },
        JsonValue::Object(m) => {
            let mut k: usize = 0;
            while k < m.len()
                invariant
                    *node == JsonValue::Object(*m),
                    k <= m@.len(),
                    crate::text::views(errors@) == start + scan_members(node@->Object_0, k as nat, idx as nat),
                decreases m.len() - k,
            {
                proof {
                    assert(decreases_to!(*node => node->Object_0));
                    assert(decreases_to!(node->Object_0 => (node->Object_0)@));
                    assert(decreases_to!(m@ => m@[k as int]));
                    assert(decreases_to!(m@[k as int] => m@[k as int].1));
                }
                let (key, v) = &m[k];
                let nested = is_path_key_str(key.as_str());
                scan_strings_field(v, idx, errors, nested);
                k = k + 1;
                assert(crate::text::views(errors@) =~= start + scan_members(node@->Object_0, k as nat, idx as nat));
            }
        },
        _ => {
            assert(crate::text::views(errors@) =~= start + scan_messages(node@, idx as nat, is_path_field));
        },
    }
}

fn type_check(step: &JsonValue, i: usize, errors: &mut Vec<String>)
    ensures
        crate::text::views(final(errors)@) == crate::text::views(old(errors)@) + type_messages(i as nat, step@),
{
    let ghost start = crate::text::views(errors@);
    let ty = match step.get("type") {
        Some(t) => t.as_str(),
        None => None,
    };
    match ty {
        Some(ty) => {
            if !is_meta_type_str(ty) {
                let mut m = label_string(i);
                m.append("].type='");
                m.append(ty);
                m.append("' 不是元指令（白名单: set/push/branch/io_request/collect/merge）");
                errors.push(m);
            }
        },
        None => {
            let mut m = label_string(i);
            m.append("] 缺 type");
            errors.push(m);
        },
    }
    assert(crate::text::views(errors@) =~= start + type_messages(i as nat, step@));
}

/// Checks a rule body: a transform array, or an object whose `transform` member is one.
/// Every step needs a meta instruction `type`; strings must not name `__io_result__`;
/// path-like strings under `attr`/`path`/`args`/`service_name` must be valid paths.
pub fn validate_rule_structure(input: &JsonValue) -> (r: Result<(), Vec<String>>)
    ensures
        match (r, structure_verdict(input@)) {
            (Ok(()), Ok(())) => true,
            (Err(e), Err(m)) => crate::text::views(e@) == m,
            _ => false,
        },
{
    let transform: &Vec<JsonValue> = match input.get("transform") {
        Some(JsonValue::Array(t)) => t,
        _ => match input {
            JsonValue::Array(t) => t,
            _ => {
                let mut e: Vec<String> = Vec::new();
                e.push(String::from_str("rule_body 必须是 transform 数组或含 transform 字段的对象"));
                assert(crate::text::views(e@) =~= seq![shape_message()]);
                return Err(e);
            },
        },
    };
    assert(transform_of(input@) == Some(transform@.map_values(|x: JsonValue| x@))) by {
        assert(transform@.map_values(|x: JsonValue| x@) =~= transform_of(input@)->0);
    }
    let ghost steps = transform_of(input@)->0;
    if transform.len() == 0 {
        let mut e: Vec<String> = Vec::new();
        e.push(String::from_str("transform 数组不能为空"));
        assert(crate::text::views(e@) =~= seq![empty_message()]);
        return Err(e);
    }
    let mut errors: Vec<String> = Vec::new();
    let mut i: usize = 0;
    assert(crate::text::views(errors@) =~= steps_messages(steps, 0));
    while i < transform.len()
        invariant
            i <= transform@.len(),
            steps == transform@.map_values(|x: JsonValue| x@),
            crate::text::views(errors@) == steps_messages(steps, i as nat),
        decreases transform.len() - i,
    {
        type_check(&transform[i], i, &mut errors);
        scan_strings_field(&transform[i], i, &mut errors, false);
        i = i + 1;
        assert(crate::text::views(errors@) =~= steps_messages(steps, i as nat));
    }
    if errors.len() == 0 {
        Ok(())
    } else {
        Err(errors)
    }
}

} // verus!
