//! Data dependency declarations: pushed inputs, pulled services (with credential-free
//! templates), pushed event declarations, and entry-level bindings of a rule body's
//! service symbols to declared services.

use vstd::prelude::*;
use crate::json::{
    dup_list, dup_opt, dup_opt_str, Duplicate, json_list, json_object, json_opt_str, json_str, member_unless, opt_json, opt_member,
    opt_str_json, push_member, push_opt_member, str_array, Json, JsonValue, ToJson,
};

verus! {

/// A pushed input (event or fact) that rules consume.
#[derive(Debug)]
pub struct InputDecl {
    pub name: String,
    /// Input shape (a JSON Schema subset).
    pub schema: Option<JsonValue>,
    pub description: Option<String>,
    /// Whether a long-empty input counts as normal.
    pub empty_allowed: bool,
}

impl View for InputDecl {
    type V = Json;

    open spec fn view(&self) -> Json {
        Json::Object(
            seq![("name"@, Json::Str(self.name@))]
                + opt_member("schema"@, opt_json(self.schema))
                + opt_member("description"@, opt_str_json(self.description))
                + seq![("empty_allowed"@, Json::Bool(self.empty_allowed))],
        )
    }
}

impl ToJson for InputDecl {
    fn to_json(&self) -> (r: JsonValue) {
        let mut m: Vec<(String, JsonValue)> = Vec::new();
        push_member(&mut m, "name", json_str(&self.name));
        push_opt_member(&mut m, "schema", crate::json::copy_opt_json(&self.schema));
        push_opt_member(&mut m, "description", json_opt_str(&self.description));
        push_member(&mut m, "empty_allowed", JsonValue::Bool(self.empty_allowed));
        assert(crate::json::members_of(m@) =~= self@->Object_0);
        json_object(m)
    }
}

/// Direction of a declared event; only pushed events exist so far.
#[derive(Debug, Clone, Copy, PartialEq, Eq, Structural)]
pub enum EventDirection {
    Push,
}

/// A pushed event that a dataset consumes: its name, the URI of its domain schema and
/// its direction. Names are unique within a dataset.
#[derive(Debug)]
pub struct EventSchemaDecl {
    pub name: String,
    pub schema_ref: String,
    pub direction: EventDirection,
    pub description: Option<String>,
}

impl View for EventSchemaDecl {
    type V = Json;

    open spec fn view(&self) -> Json {
        Json::Object(
            seq![
                ("name"@, Json::Str(self.name@)),
                ("schema_ref"@, Json::Str(self.schema_ref@)),
                ("direction"@, Json::Str("push"@)),
            ] + opt_member("description"@, opt_str_json(self.description)),
        )
    }
}

impl ToJson for EventSchemaDecl {
    fn to_json(&self) -> (r: JsonValue) {
        let mut m: Vec<(String, JsonValue)> = Vec::new();
        push_member(&mut m, "name", json_str(&self.name));
        push_member(&mut m, "schema_ref", json_str(&self.schema_ref));
        push_member(&mut m, "direction", JsonValue::Str(String::from_str("push")));
        push_opt_member(&mut m, "description", json_opt_str(&self.description));
        assert(crate::json::members_of(m@) =~= self@->Object_0);
        json_object(m)
    }
}

/// A credential-free service template: endpoint shape with placeholders, never real
/// endpoints or secrets.
#[derive(Debug)]
pub struct ServiceTemplate {
    /// May hold placeholders such as `https://{base}/api/payroll`.
    pub url: String,
    pub method: Option<String>,
    /// Header templates, one pair per header name, in ascending name order.
    pub headers_templates: Vec<(String, String)>,
    pub timeout_ms_hint: Option<u64>,
    pub notes: Option<String>,
}

/// The header templates as a JSON object.
pub open spec fn headers_json(h: Seq<(String, String)>) -> Json {
    Json::Object(h.map_values(|p: (String, String)| (p.0@, Json::Str(p.1@))))
}

impl View for ServiceTemplate {
    type V = Json;

    open spec fn view(&self) -> Json {
        Json::Object(
            seq![("url"@, Json::Str(self.url@))]
                + opt_member("method"@, opt_str_json(self.method))
                + member_unless(self.headers_templates@.len() == 0, "headers_templates"@, headers_json(self.headers_templates@))
                + opt_member("timeout_ms_hint"@, match self.timeout_ms_hint {
                    Some(t) => Some(Json::Number(crate::text::decimal(t as nat))),
                    None => None,
                })
                + opt_member("notes"@, opt_str_json(self.notes)),
        )
    }
}

impl ToJson for ServiceTemplate {
    fn to_json(&self) -> (r: JsonValue) {
        let mut m: Vec<(String, JsonValue)> = Vec::new();
        push_member(&mut m, "url", json_str(&self.url));
        push_opt_member(&mut m, "method", json_opt_str(&self.method));
        if self.headers_templates.len() > 0 {
            let mut h: Vec<(String, JsonValue)> = Vec::new();
            let mut i: usize = 0;
            while i < self.headers_templates.len()
                invariant
                    i <= self.headers_templates@.len(),
                    crate::json::members_of(h@) == self.headers_templates@.take(i as int).map_values(
                        |p: (String, String)| (p.0@, Json::Str(p.1@)),
                    ),
                decreases self.headers_templates.len() - i,
            {
                let (k, v) = &self.headers_templates[i];
                push_member(&mut h, k.as_str(), json_str(v));
                i = i + 1;
                assert(crate::json::members_of(h@) =~= self.headers_templates@.take(i as int).map_values(
                    |p: (String, String)| (p.0@, Json::Str(p.1@)),
                ));
            }
            assert(self.headers_templates@.take(self.headers_templates@.len() as int) =~= self.headers_templates@);
            push_member(&mut m, "headers_templates", json_object(h));
        }
        let t = match self.timeout_ms_hint {
            Some(t) => Some(JsonValue::Number(crate::text::decimal_string(t))),
            None => None,
        };
        push_opt_member(&mut m, "timeout_ms_hint", t);
        push_opt_member(&mut m, "notes", json_opt_str(&self.notes));
        assert(crate::json::members_of(m@) =~= self@->Object_0);
        json_object(m)
    }
}

/// Input and output contract of a service.
#[derive(Debug)]
pub struct IoContract {
    /// The input contract (the `in` member of the document).
    pub input: Option<JsonValue>,
    pub out: Option<JsonValue>,
}

impl View for IoContract {
    type V = Json;

    open spec fn view(&self) -> Json {
        Json::Object(opt_member("in"@, opt_json(self.input)) + opt_member("out"@, opt_json(self.out)))
    }
}

impl ToJson for IoContract {
    fn to_json(&self) -> (r: JsonValue) {
        let mut m: Vec<(String, JsonValue)> = Vec::new();
        push_opt_member(&mut m, "in", crate::json::copy_opt_json(&self.input));
        push_opt_member(&mut m, "out", crate::json::copy_opt_json(&self.out));
        assert(crate::json::members_of(m@) =~= self@->Object_0);
        json_object(m)
    }
}

/// A pulled service.
#[derive(Debug)]
pub struct ServiceDecl {
    pub service_name: String,
    /// Business version of the service.
    pub version: Option<String>,
    pub io_contract: Option<IoContract>,
    /// Whether credentials or sensitive data are involved.
    pub sensitive: bool,
    pub description: Option<String>,
    pub template: Option<ServiceTemplate>,
}

impl View for ServiceDecl {
    type V = Json;

    open spec fn view(&self) -> Json {
        Json::Object(
            seq![("service_name"@, Json::Str(self.service_name@))]
                + opt_member("version"@, opt_str_json(self.version))
                + opt_member("io_contract"@, match self.io_contract {
                    Some(c) => Some(c@),
                    None => None,
                })
                + seq![("sensitive"@, Json::Bool(self.sensitive))]
                + opt_member("description"@, opt_str_json(self.description))
                + opt_member("template"@, match self.template {
                    Some(t) => Some(t@),
                    None => None,
                }),
        )
    }
}

impl ToJson for ServiceDecl {
    fn to_json(&self) -> (r: JsonValue) {
        let mut m: Vec<(String, JsonValue)> = Vec::new();
        push_member(&mut m, "service_name", json_str(&self.service_name));
        push_opt_member(&mut m, "version", json_opt_str(&self.version));
        let c = match &self.io_contract {
            Some(c) => Some(c.to_json()),
            None => None,
        };
        push_opt_member(&mut m, "io_contract", c);
        push_member(&mut m, "sensitive", JsonValue::Bool(self.sensitive));
        push_opt_member(&mut m, "description", json_opt_str(&self.description));
        let t = match &self.template {
            Some(t) => Some(t.to_json()),
            None => None,
        };
        push_opt_member(&mut m, "template", t);
        assert(crate::json::members_of(m@) =~= self@->Object_0);
        json_object(m)
    }
}

/// Dataset-level data dependencies: pushed inputs and pulled services.
#[derive(Debug)]
pub struct DataDependencies {
    pub inputs: Vec<InputDecl>,
    pub services: Vec<ServiceDecl>,
}

impl View for DataDependencies {
    type V = Json;

    open spec fn view(&self) -> Json {
        Json::Object(
            member_unless(self.inputs@.len() == 0, "inputs"@, Json::Array(self.inputs@.map_values(|x: InputDecl| x@)))
                + member_unless(
                self.services@.len() == 0,
                "services"@,
                Json::Array(self.services@.map_values(|x: ServiceDecl| x@)),
            ),
        )
    }
}

impl ToJson for DataDependencies {
    fn to_json(&self) -> (r: JsonValue) {
        let mut m: Vec<(String, JsonValue)> = Vec::new();
        if self.inputs.len() > 0 {
            push_member(&mut m, "inputs", json_list(&self.inputs));
        }
        if self.services.len() > 0 {
            push_member(&mut m, "services", json_list(&self.services));
        }
        assert(crate::json::members_of(m@) =~= self@->Object_0);
        json_object(m)
    }
}

/// The service names of declared services, in declaration order.
pub open spec fn service_names(s: Seq<ServiceDecl>) -> Seq<Seq<char>> {
    s.map_values(|d: ServiceDecl| d.service_name@)
}

impl DataDependencies {
    /// Whether a service of this name is declared.
    pub fn has_service(&self, service_name: &str) -> (r: bool)
        ensures
            r == service_names(self.services@).contains(service_name@),
    {
        let mut i: usize = 0;
        while i < self.services.len()
            invariant
                i <= self.services@.len(),
                forall|k: int| 0 <= k < i ==> (#[trigger] self.services@[k]).service_name@ != service_name@,
            decreases self.services.len() - i,
        {
            if crate::text::str_eq(self.services[i].service_name.as_str(), service_name) {
                assert(service_names(self.services@)[i as int] == service_name@);
                return true;
            }
            i = i + 1;
        }
        false
    }
}

/// Binds a service symbol of a rule body (located by `rule_ref`) to a declared service.
#[derive(Debug)]
pub struct SourceBinding {
    pub rule_ref: String,
    pub service_name: String,
}

impl View for SourceBinding {
    type V = Json;

    open spec fn view(&self) -> Json {
        Json::Object(seq![("rule_ref"@, Json::Str(self.rule_ref@)), ("service_name"@, Json::Str(self.service_name@))])
    }
}

impl ToJson for SourceBinding {
    fn to_json(&self) -> (r: JsonValue) {
        let mut m: Vec<(String, JsonValue)> = Vec::new();
        push_member(&mut m, "rule_ref", json_str(&self.rule_ref));
        push_member(&mut m, "service_name", json_str(&self.service_name));
        assert(crate::json::members_of(m@) =~= self@->Object_0);
        json_object(m)
    }
}


impl Duplicate for InputDecl {
    fn duplicate(&self) -> (r: InputDecl) {
        let schema = dup_opt(&self.schema);
        assert(opt_json(schema) == opt_json(self.schema));
        InputDecl {
            name: self.name.clone(),
            schema,
            description: dup_opt_str(&self.description),
            empty_allowed: self.empty_allowed,
        }
    }
}

impl Duplicate for EventSchemaDecl {
    fn duplicate(&self) -> (r: EventSchemaDecl)
        ensures
            r == *self,
    {
        EventSchemaDecl {
            name: self.name.clone(),
            schema_ref: self.schema_ref.clone(),
            direction: self.direction,
            description: dup_opt_str(&self.description),
        }
    }
}

impl Duplicate for ServiceTemplate {
    fn duplicate(&self) -> (r: ServiceTemplate) {
        let mut h: Vec<(String, String)> = Vec::new();
        let mut i: usize = 0;
        while i < self.headers_templates.len()
            invariant
                i <= self.headers_templates@.len(),
                h@ == self.headers_templates@.take(i as int),
            decreases self.headers_templates.len() - i,
        {
            let (k, v) = &self.headers_templates[i];
            h.push((k.clone(), v.clone()));
            i = i + 1;
            assert(h@ =~= self.headers_templates@.take(i as int));
        }
        assert(self.headers_templates@.take(self.headers_templates@.len() as int) =~= self.headers_templates@);
        ServiceTemplate {
            url: self.url.clone(),
            method: dup_opt_str(&self.method),
            headers_templates: h,
            timeout_ms_hint: self.timeout_ms_hint,
            notes: dup_opt_str(&self.notes),
        }
    }
}

impl Duplicate for IoContract {
    fn duplicate(&self) -> (r: IoContract) {
        let input = dup_opt(&self.input);
        let out = dup_opt(&self.out);
        assert(opt_json(input) == opt_json(self.input));
        assert(opt_json(out) == opt_json(self.out));
        IoContract { input, out }
    }
}

impl Duplicate for ServiceDecl {
    fn duplicate(&self) -> (r: ServiceDecl)
        ensures
            r.service_name == self.service_name,
    {
        let io_contract = dup_opt(&self.io_contract);
        let template = dup_opt(&self.template);
        let r = ServiceDecl {
            service_name: self.service_name.clone(),
            version: dup_opt_str(&self.version),
            io_contract,
            sensitive: self.sensitive,
            description: dup_opt_str(&self.description),
            template,
        };
        assert(r@->Object_0 =~= self@->Object_0);
        r
    }
}

impl Duplicate for DataDependencies {
    fn duplicate(&self) -> (r: DataDependencies) {
        let inputs = dup_list(&self.inputs);
        let services = dup_list(&self.services);
        assert(inputs@.len() == inputs@.map_values(|x: InputDecl| x@).len());
        assert(services@.len() == services@.map_values(|x: ServiceDecl| x@).len());
        let r = DataDependencies { inputs, services };
        assert(r@->Object_0 =~= self@->Object_0);
        r
    }
}

impl Duplicate for SourceBinding {
    fn duplicate(&self) -> (r: SourceBinding)
        ensures
            r == *self,
    {
        SourceBinding { rule_ref: self.rule_ref.clone(), service_name: self.service_name.clone() }
    }
}

/// A copy of a list of event declarations, equal to it.
pub(crate) fn copy_events(v: &Vec<EventSchemaDecl>) -> (r: Vec<EventSchemaDecl>)
    ensures
        r@ == v@,
{
    let mut out: Vec<EventSchemaDecl> = Vec::new();
    let mut i: usize = 0;
    while i < v.len()
        invariant
            i <= v@.len(),
            out@ == v@.take(i as int),
        decreases v.len() - i,
    {
        out.push(v[i].duplicate());
        i = i + 1;
        assert(out@ =~= v@.take(i as int));
    }
    assert(v@.take(v@.len() as int) =~= v@);
    out
}

/// A copy of a list of service bindings, equal to it.
pub(crate) fn copy_bindings(v: &Vec<SourceBinding>) -> (r: Vec<SourceBinding>)
    ensures
        r@ == v@,
{
    let mut out: Vec<SourceBinding> = Vec::new();
    let mut i: usize = 0;
    while i < v.len()
        invariant
            i <= v@.len(),
            out@ == v@.take(i as int),
        decreases v.len() - i,
    {
        out.push(v[i].duplicate());
        i = i + 1;
        assert(out@ =~= v@.take(i as int));
    }
    assert(v@.take(v@.len() as int) =~= v@);
    out
}

} // verus!
