//! A JSON value model held as plain values, and its compact text form.

use vstd::prelude::*;

verus! {

/// A JSON document. Numbers keep their literal text; object members keep the order they
/// are given in. A document read from JSON text holds one member per key, sorted by key,
/// and the compact text form lists members in the order held.
#[derive(Debug)]
pub enum JsonValue {
    Null,
    Bool(bool),
    Number(String),
    Str(String),
    Array(Vec<JsonValue>),
    Object(Vec<(String, JsonValue)>),
}

/// The mathematical model of a JSON document.
pub enum Json {
    Null,
    Bool(bool),
    Number(Seq<char>),
    Str(Seq<char>),
    Array(Seq<Json>),
    Object(Seq<(Seq<char>, Json)>),
}

impl JsonValue {
    pub open spec fn model(&self) -> Json
        decreases self,
    {
        match self {
            JsonValue::Null => Json::Null,
            JsonValue::Bool(b) => Json::Bool(*b),
            JsonValue::Number(n) => Json::Number(n@),
            JsonValue::Str(s) => Json::Str(s@),
            JsonValue::Array(a) => Json::Array(
                Seq::new(a@.len(), |i: int| if 0 <= i < a@.len() { a@[i].model() } else { Json::Null }),
            ),
            JsonValue::Object(m) => Json::Object(
                Seq::new(m@.len(), |i: int| if 0 <= i < m@.len() { (m@[i].0@, m@[i].1.model()) } else { (Seq::empty(), Json::Null) }),
            ),
        }
    }
}

impl View for JsonValue {
    type V = Json;

    open spec fn view(&self) -> Json {
        self.model()
    }
}

/// The models of object members.
pub open spec fn members_of(m: Seq<(String, JsonValue)>) -> Seq<(Seq<char>, Json)> {
    Seq::new(m.len(), |i: int| (m[i].0@, m[i].1@))
}

/// The value stored under `key` in the members `m` (the first such member).
pub open spec fn member(m: Seq<(Seq<char>, Json)>, key: Seq<char>) -> Option<Json>
    decreases m.len(),
{
    if m.len() == 0 {
        None
    } else if m[0].0 == key {
        Some(m[0].1)
    } else {
        member(m.drop_first(), key)
    }
}

impl Json {
    /// Member lookup on an object; any other value has no members.
    pub open spec fn get(self, key: Seq<char>) -> Option<Json> {
        match self {
            Json::Object(m) => member(m, key),
            _ => None,
        }
    }

    /// The text of a string value.
    pub open spec fn as_str(self) -> Option<Seq<char>> {
        match self {
            Json::Str(s) => Some(s),
            _ => None,
        }
    }
}

/// `member` of an optional value.
pub open spec fn opt_get(v: Option<Json>, key: Seq<char>) -> Option<Json> {
    match v {
        Some(j) => j.get(key),
        None => None,
    }
}

/// The text of an optional string value.
pub open spec fn opt_str(v: Option<Json>) -> Option<Seq<char>> {
    match v {
        Some(j) => j.as_str(),
        None => None,
    }
}

/// Looks up `key` among object members.
pub fn find_member<'a>(m: &'a Vec<(String, JsonValue)>, key: &str) -> (r: Option<&'a JsonValue>)
    ensures
        match r {
            Some(x) => member(members_of(m@), key@) == Some(x@),
            None => member(members_of(m@), key@) is None,
        },
{
    let ghost ms = members_of(m@);
    let n = m.len();
    let mut i: usize = 0;
    assert(ms.subrange(0, n as int) =~= ms);
    while i < n
        invariant
            i <= n,
            n == m@.len(),
            ms == members_of(m@),
            member(ms, key@) == member(ms.subrange(i as int, n as int), key@),
        decreases n - i,
    {
        let (k, v) = &m[i];
        if crate::text::str_eq(k.as_str(), key) {
            return Some(v);
        }
        assert(ms.subrange(i as int, n as int).drop_first() =~= ms.subrange(i + 1, n as int));
        i = i + 1;
    }
    None
}

impl JsonValue {
    /// Member lookup: `Some` only for an object holding `key`.
    pub fn get(&self, key: &str) -> (r: Option<&JsonValue>)
        ensures
            match r {
                Some(x) => self@.get(key@) == Some(x@),
                None => self@.get(key@) is None,
            },
    {
        match self {
            JsonValue::Object(m) => {
                let r = find_member(m, key);
                proof {
                    assert(self@->Object_0 =~= members_of(m@));
                }
                r
            },
            _ => None,
        }
    }

    /// The text of a string value.
    pub fn as_str(&self) -> (r: Option<&str>)
        ensures
            match r {
                Some(t) => self@.as_str() == Some(t@),
                None => self@.as_str() is None,
            },
    {
        match self {
            JsonValue::Str(s) => Some(s.as_str()),
            _ => None,
        }
    }

    /// An independent copy with the same model.
    pub fn deep_copy(&self) -> (r: JsonValue)
        ensures
            r@ == self@,
        decreases self,
    {
        match self {
            JsonValue::Null => JsonValue::Null,
            JsonValue::Bool(b) => JsonValue::Bool(*b),
            JsonValue::Number(n) => JsonValue::Number(n.clone()),
            JsonValue::Str(t) => JsonValue::Str(t.clone()),
            JsonValue::Array(a) => {
                let mut out: Vec<JsonValue> = Vec::new();
                let mut i: usize = 0;
                while i < a.len()
                    invariant
                        *self == JsonValue::Array(*a),
                        i <= a@.len(),
                        out@.len() == i,
                        forall|k: int| 0 <= k < i ==> (#[trigger] out@[k])@ == a@[k]@,
                    decreases a.len() - i,
                {
                    proof {
                        assert(decreases_to!(*self => self->Array_0));
                        assert(decreases_to!(self->Array_0 => (self->Array_0)@));
                        assert(decreases_to!(a@ => a@[i as int]));
                    }
                    out.push(a[i].deep_copy());
                    i = i + 1;
                }
                let r = JsonValue::Array(out);
                assert(r@->Array_0 =~= self@->Array_0);
                r
            },
            JsonValue::Object(m) => {
                let mut out: Vec<(String, JsonValue)> = Vec::new();
                let mut i: usize = 0;
                while i < m.len()
                    invariant
                        *self == JsonValue::Object(*m),
                        i <= m@.len(),
                        out@.len() == i,
                        forall|k: int| 0 <= k < i ==> (#[trigger] out@[k]).0@ == m@[k].0@ && out@[k].1@ == m@[k].1@,
                    decreases m.len() - i,
                {
                    proof {
                        assert(decreases_to!(*self => self->Object_0));
                        assert(decreases_to!(self->Object_0 => (self->Object_0)@));
                        assert(decreases_to!(m@ => m@[i as int]));
                        assert(decreases_to!(m@[i as int] => m@[i as int].1));
                    }
                    let (k, v) = &m[i];
                    out.push((k.clone(), v.deep_copy()));
                    i = i + 1;
                }
                let r = JsonValue::Object(out);
                assert(r@->Object_0 =~= self@->Object_0);
                r
            },
        }
    }
}


/// An object's model is built from its members' models.
pub proof fn lemma_object_model(m: Vec<(String, JsonValue)>)
    ensures
        JsonValue::Object(m)@ == Json::Object(members_of(m@)),
{
    assert(JsonValue::Object(m)@->Object_0 =~= members_of(m@));
}

/// An array's model is the sequence of its items' models.
pub proof fn lemma_array_model(a: Vec<JsonValue>)
    ensures
        JsonValue::Array(a)@ == Json::Array(a@.map_values(|x: JsonValue| x@)),
{
    assert(JsonValue::Array(a)@->Array_0 =~= a@.map_values(|x: JsonValue| x@));
}

/// A list of strings as a JSON array of strings.
pub open spec fn str_array(s: Seq<String>) -> Json {
    Json::Array(s.map_values(|x: String| Json::Str(x@)))
}

/// A member that is present only when the value is.
pub open spec fn opt_member(key: Seq<char>, v: Option<Json>) -> Seq<(Seq<char>, Json)> {
    match v {
        Some(j) => seq![(key, j)],
        None => Seq::empty(),
    }
}

/// An optional string as an optional JSON string.
pub open spec fn opt_str_json(v: Option<String>) -> Option<Json> {
    match v {
        Some(s) => Some(Json::Str(s@)),
        None => None,
    }
}

/// A member that is left out when `skip` holds.
pub open spec fn member_unless(skip: bool, key: Seq<char>, v: Json) -> Seq<(Seq<char>, Json)> {
    if skip {
        Seq::empty()
    } else {
        seq![(key, v)]
    }
}

/// Appends a member to an object under construction.
pub fn push_member(m: &mut Vec<(String, JsonValue)>, key: &str, v: JsonValue)
    ensures
        members_of(final(m)@) == members_of(old(m)@).push((key@, v@)),
{
    m.push((String::from_str(key), v));
    assert(members_of(m@) =~= members_of(old(m)@).push((key@, v@)));
}

/// Appends a member when the value is present.
pub fn push_opt_member(m: &mut Vec<(String, JsonValue)>, key: &str, v: Option<JsonValue>)
    ensures
        members_of(final(m)@) == members_of(old(m)@) + opt_member(key@, match v {
            Some(j) => Some(j@),
            None => None,
        }),
{
    match v {
        Some(j) => {
            push_member(m, key, j);
        },
        None => {},
    }
    assert(members_of(m@) =~= members_of(old(m)@) + opt_member(key@, match v {
        Some(j) => Some(j@),
        None => None,
    }));
}

/// A JSON string holding a copy of `s`.
pub fn json_str(s: &String) -> (r: JsonValue)
    ensures
        r@ == Json::Str(s@),
{
    JsonValue::Str(s.clone())
}

/// An optional string as an optional JSON string.
pub fn json_opt_str(s: &Option<String>) -> (r: Option<JsonValue>)
    ensures
        match r {
            Some(j) => opt_str_json(*s) == Some(j@),
            None => opt_str_json(*s) is None,
        },
{
    match s {
        Some(t) => Some(json_str(t)),
        None => None,
    }
}

/// A JSON array of copies of the strings.
pub fn json_str_array(s: &Vec<String>) -> (r: JsonValue)
    ensures
        r@ == str_array(s@),
{
    let mut out: Vec<JsonValue> = Vec::new();
    let mut i: usize = 0;
    while i < s.len()
        invariant
            i <= s@.len(),
            out@.len() == i,
            out@.map_values(|x: JsonValue| x@) == s@.take(i as int).map_values(|x: String| Json::Str(x@)),
        decreases s.len() - i,
    {
        let ghost prev = out@;
        out.push(json_str(&s[i]));
        proof {
            assert forall|k: int| 0 <= k < i implies out@[k]@ == Json::Str(s@[k]@) by {
                assert(out@[k] == prev[k]);
                assert(prev.map_values(|x: JsonValue| x@)[k] == s@.take(i as int).map_values(|x: String| Json::Str(x@))[k]);
            }
        }
        i = i + 1;
        assert(out@.map_values(|x: JsonValue| x@) =~= s@.take(i as int).map_values(|x: String| Json::Str(x@)));
    }
    proof {
        lemma_array_model(out);
        assert(s@.take(s@.len() as int) =~= s@);
    }
    JsonValue::Array(out)
}

/// An object of the given members.
pub fn json_object(m: Vec<(String, JsonValue)>) -> (r: JsonValue)
    ensures
        r@ == Json::Object(members_of(m@)),
{
    proof {
        lemma_object_model(m);
    }
    JsonValue::Object(m)
}

/// An optional JSON value's model.
pub open spec fn opt_json(v: Option<JsonValue>) -> Option<Json> {
    match v {
        Some(j) => Some(j@),
        None => None,
    }
}

/// Values whose model is their JSON document and that can write that document.
pub trait ToJson: View<V = Json> {
    fn to_json(&self) -> (r: JsonValue)
        ensures
            r@ == self@,
    ;
}

/// Values that can make an independent copy with the same document.
pub trait Duplicate: View<V = Json> + Sized {
    fn duplicate(&self) -> (r: Self)
        ensures
            r@ == self@,
    ;
}

impl Duplicate for JsonValue {
    fn duplicate(&self) -> (r: JsonValue) {
        self.deep_copy()
    }
}

/// Copies of every item, in order.
pub fn dup_list<T: Duplicate>(v: &Vec<T>) -> (r: Vec<T>)
    ensures
        r@.map_values(|x: T| x@) == v@.map_values(|x: T| x@),
{
    let mut out: Vec<T> = Vec::new();
    let mut i: usize = 0;
    while i < v.len()
        invariant
            i <= v@.len(),
            out@.len() == i,
            forall|k: int| 0 <= k < i ==> (#[trigger] out@[k])@ == v@[k]@,
        decreases v.len() - i,
    {
        out.push(v[i].duplicate());
        i = i + 1;
    }
    assert(out@.map_values(|x: T| x@) =~= v@.map_values(|x: T| x@));
    out
}

/// A copy of an optional value.
pub fn dup_opt<T: Duplicate>(v: &Option<T>) -> (r: Option<T>)
    ensures
        match (r, *v) {
            (Some(a), Some(b)) => a@ == b@,
            (None, None) => true,
            _ => false,
        },
{
    match v {
        Some(x) => Some(x.duplicate()),
        None => None,
    }
}

/// A copy of an optional string.
pub fn dup_opt_str(v: &Option<String>) -> (r: Option<String>)
    ensures
        r == *v,
{
    match v {
        Some(x) => Some(x.clone()),
        None => None,
    }
}

/// A JSON array of the documents of the items.
pub fn json_list<T: ToJson>(v: &Vec<T>) -> (r: JsonValue)
    ensures
        r@ == Json::Array(v@.map_values(|x: T| x@)),
{
    let mut out: Vec<JsonValue> = Vec::new();
    let mut i: usize = 0;
    while i < v.len()
        invariant
            i <= v@.len(),
            out@.len() == i,
            forall|k: int| 0 <= k < i ==> (#[trigger] out@[k])@ == v@[k]@,
        decreases v.len() - i,
    {
        out.push(v[i].to_json());
        i = i + 1;
    }
    proof {
        lemma_array_model(out);
        assert(out@.map_values(|x: JsonValue| x@) =~= v@.map_values(|x: T| x@));
    }
    JsonValue::Array(out)
}

/// A copy of an optional JSON value.
pub fn copy_opt_json(v: &Option<JsonValue>) -> (r: Option<JsonValue>)
    ensures
        opt_json(r) == opt_json(*v),
{
    match v {
        Some(j) => Some(j.deep_copy()),
        None => None,
    }
}

/// The hexadecimal digit of `d` (lower case).
pub open spec fn hex_digit(d: nat) -> char {
    if d < 10 {
        ((48 + d) as u8) as char
    } else {
        ((87 + d) as u8) as char
    }
}

/// How one character of a string is written inside a JSON string literal.
pub open spec fn escape_char(c: char) -> Seq<char> {
    if c == '"' {
        seq!['\\', '"']
    } else if c == '\\' {
        seq!['\\', '\\']
    } else if c == '\n' {
        seq!['\\', 'n']
    } else if c == '\r' {
        seq!['\\', 'r']
    } else if c == '\t' {
        seq!['\\', 't']
    } else if c == '\u{8}' {
        seq!['\\', 'b']
    } else if c == '\u{c}' {
        seq!['\\', 'f']
    } else if (c as u32) < 0x20 {
        seq!['\\', 'u', '0', '0', hex_digit((c as u32 / 16) as nat), hex_digit((c as u32 % 16) as nat)]
    } else {
        seq![c]
    }
}

/// The escaped body of a JSON string literal.
pub open spec fn escaped(s: Seq<char>) -> Seq<char>
    decreases s.len(),
{
    if s.len() == 0 {
        Seq::empty()
    } else {
        escaped(s.drop_last()) + escape_char(s.last())
    }
}

/// A JSON string literal for `s`.
pub open spec fn quoted(s: Seq<char>) -> Seq<char> {
    seq!['"'] + escaped(s) + seq!['"']
}

/// Compact JSON text of a value: no white space, members in their stored order.
pub open spec fn json_text(v: Json) -> Seq<char>
    decreases v, 0nat,
{
    match v {
        Json::Null => seq!['n', 'u', 'l', 'l'],
        Json::Bool(b) => if b { seq!['t', 'r', 'u', 'e'] } else { seq!['f', 'a', 'l', 's', 'e'] },
        Json::Number(t) => t,
        Json::Str(t) => quoted(t),
        Json::Array(a) => seq!['['] + items_text(a, a.len()) + seq![']'],
        Json::Object(m) => seq!['{'] + members_text(m, m.len()) + seq!['}'],
    }
}

/// The first `n` array items, comma separated.
pub open spec fn items_text(a: Seq<Json>, n: nat) -> Seq<char>
    decreases a, n,
{
    if n == 0 || n > a.len() {
        Seq::empty()
    } else if n == 1 {
        json_text(a[0])
    } else {
        items_text(a, (n - 1) as nat) + seq![','] + json_text(a[n - 1])
    }
}

/// The first `n` object members, comma separated.
pub open spec fn members_text(m: Seq<(Seq<char>, Json)>, n: nat) -> Seq<char>
    decreases m, n,
{
    if n == 0 || n > m.len() {
        Seq::empty()
    } else if n == 1 {
        quoted(m[0].0) + seq![':'] + json_text(m[0].1)
    } else {
        members_text(m, (n - 1) as nat) + seq![','] + quoted(m[n - 1].0) + seq![':'] + json_text(m[n - 1].1)
    }
}

fn write_escaped_char(out: &mut String, c: char)
    ensures
        final(out)@ == old(out)@ + escape_char(c),
{
    let ghost start = out@;
    if c == '"' {
        crate::text::push_char(out, '\\');
        crate::text::push_char(out, '"');
    } else if c == '\\' {
        crate::text::push_char(out, '\\');
        crate::text::push_char(out, '\\');
    } else if c == '\n' {
        crate::text::push_char(out, '\\');
        crate::text::push_char(out, 'n');
    } else if c == '\r' {
        crate::text::push_char(out, '\\');
        crate::text::push_char(out, 'r');
    } else if c == '\t' {
        crate::text::push_char(out, '\\');
        crate::text::push_char(out, 't');
    } else if c == '\u{8}' {
        crate::text::push_char(out, '\\');
        crate::text::push_char(out, 'b');
    } else if c == '\u{c}' {
        crate::text::push_char(out, '\\');
        crate::text::push_char(out, 'f');
    } else if (c as u32) < 0x20 {
        let code = c as u32;
        let hi: u8 = (code / 16) as u8;
        let lo: u8 = (code % 16) as u8;
        let hc = if hi < 10 { (48u8 + hi) as char } else { (87u8 + hi) as char };
        let lc = if lo < 10 { (48u8 + lo) as char } else { (87u8 + lo) as char };
        crate::text::push_char(out, '\\');
        crate::text::push_char(out, 'u');
        crate::text::push_char(out, '0');
        crate::text::push_char(out, '0');
        crate::text::push_char(out, hc);
        crate::text::push_char(out, lc);
    } else {
        crate::text::push_char(out, c);
    }
    assert(out@ =~= start + escape_char(c));
}

/// Appends the JSON string literal for `s`.
pub fn write_quoted(out: &mut String, s: &str)
    ensures
        final(out)@ == old(out)@ + quoted(s@),
{
    let cs = crate::text::chars_of(s);
    let ghost start = out@;
    crate::text::push_char(out, '"');
    let mut i: usize = 0;
    while i < cs.len()
        invariant
            i <= cs@.len(),
            out@ == start + seq!['"'] + escaped(cs@.take(i as int)),
        decreases cs@.len() - i,
    {
        assert(cs@.take(i + 1).drop_last() =~= cs@.take(i as int));
        write_escaped_char(out, cs[i]);
        i = i + 1;
        assert(out@ =~= start + seq!['"'] + escaped(cs@.take(i as int)));
    }
    crate::text::push_char(out, '"');
    assert(cs@.take(cs@.len() as int) =~= cs@);
    assert(out@ =~= start + quoted(s@));
}

/// Appends the compact JSON text of `v`.
pub fn write_json(out: &mut String, v: &JsonValue)
    ensures
        final(out)@ == old(out)@ + json_text(v@),
    decreases v,
{
    let ghost start = out@;
    match v {
        JsonValue::Null => {
            crate::text::push_char(out, 'n');
            crate::text::push_char(out, 'u');
            crate::text::push_char(out, 'l');
            crate::text::push_char(out, 'l');
            assert(out@ =~= start + json_text(v@));
        },
        JsonValue::Bool(b) => {
            if *b {
                crate::text::push_char(out, 't');
                crate::text::push_char(out, 'r');
                crate::text::push_char(out, 'u');
                crate::text::push_char(out, 'e');
            } else {
                crate::text::push_char(out, 'f');
                crate::text::push_char(out, 'a');
                crate::text::push_char(out, 'l');
                crate::text::push_char(out, 's');
                crate::text::push_char(out, 'e');
            }
            assert(out@ =~= start + json_text(v@));
        },
        JsonValue::Number(t) => {
            out.append(t.as_str());
        },
        JsonValue::Str(t) => {
            write_quoted(out, t.as_str());
        },
        JsonValue::Array(a) => {
            crate::text::push_char(out, '[');
            let mut i: usize = 0;
            while i < a.len()
                invariant
                    *v == JsonValue::Array(*a),
                    i <= a@.len(),
                    out@ == start + seq!['['] + items_text(v@->Array_0, i as nat),
                decreases a.len() - i,
            {
                proof {
                    assert(decreases_to!(*v => v->Array_0));
                    assert(decreases_to!(v->Array_0 => (v->Array_0)@));
                    assert(decreases_to!(a@ => a@[i as int]));
                }
                if i > 0 {
                    crate::text::push_char(out, ',');
                }
                write_json(out, &a[i]);
                i = i + 1;
                assert(out@ =~= start + seq!['['] + items_text(v@->Array_0, i as nat));
            }
            crate::text::push_char(out, ']');
            assert(out@ =~= start + json_text(v@));
        },
        JsonValue::Object(m) => {
            crate::text::push_char(out, '{');
            let mut i: usize = 0;
            while i < m.len()
                invariant
                    *v == JsonValue::Object(*m),
                    i <= m@.len(),
                    out@ == start + seq!['{'] + members_text(v@->Object_0, i as nat),
                decreases m.len() - i,
            {
                proof {
                    assert(decreases_to!(*v => v->Object_0));
                    assert(decreases_to!(v->Object_0 => (v->Object_0)@));
                    assert(decreases_to!(m@ => m@[i as int]));
                    assert(decreases_to!(m@[i as int] => m@[i as int].1));
                }
                if i > 0 {
                    crate::text::push_char(out, ',');
                }
                let (k, x) = &m[i];
                write_quoted(out, k.as_str());
                crate::text::push_char(out, ':');
                write_json(out, x);
                i = i + 1;
                assert(out@ =~= start + seq!['{'] + members_text(v@->Object_0, i as nat));
            }
            crate::text::push_char(out, '}');
            assert(out@ =~= start + json_text(v@));
        },
    }
}

/// The compact JSON text of `v`.
pub fn to_json_text(v: &JsonValue) -> (r: String)
    ensures
        r@ == json_text(v@),
{
    let mut out = String::new();
    write_json(&mut out, v);
    assert(out@ =~= json_text(v@));
    out
}

} // verus!
