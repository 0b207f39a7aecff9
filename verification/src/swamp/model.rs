//! Models, their methods and their types.
use vstd::prelude::*;
use crate::json::{clone_json, Json, JsonValue};

verus! {

/// A model as a search lists it.
pub struct ModelSummary {
    pub id: String,
    pub name: String,
    pub model_type: String,
    pub global_arguments_schema: Option<JsonValue>,
    pub methods: Vec<MethodSpec>,
}

/// A model's definition.
pub struct ModelDetails {
    pub id: String,
    pub name: String,
    pub model_type: String,
    pub version: Option<u64>,
    pub type_version: Option<String>,
    pub tags: JsonValue,
    pub global_arguments: JsonValue,
    pub methods: Vec<MethodSpec>,
}

/// A method with its argument schema.
pub struct MethodSpec {
    pub name: String,
    pub description: String,
    pub arguments: JsonValue,
}

/// A model type's description.
pub struct TypeDescription {
    pub model_type: TypeName,
    pub version: String,
    pub methods: Vec<MethodSpec>,
    pub data_output_specs: Vec<JsonValue>,
}

pub struct TypeName {
    pub raw: String,
    pub normalized: String,
}

} // verus!

verus! {

pub struct SummaryView {
    pub id: Seq<char>,
    pub name: Seq<char>,
    pub model_type: Seq<char>,
    pub global_arguments_schema: Option<Json>,
    pub methods: Seq<MethodView>,
}

impl View for ModelSummary {
    type V = SummaryView;

    open spec fn view(&self) -> SummaryView {
        SummaryView {
            id: self.id@,
            name: self.name@,
            model_type: self.model_type@,
            global_arguments_schema: match self.global_arguments_schema {
                Some(j) => Some(j@),
                None => None,
            },
            methods: method_views(self.methods@),
        }
    }
}

pub struct MethodView {
    pub name: Seq<char>,
    pub description: Seq<char>,
    pub arguments: Json,
}

impl View for MethodSpec {
    type V = MethodView;

    open spec fn view(&self) -> MethodView {
        MethodView { name: self.name@, description: self.description@, arguments: self.arguments@ }
    }
}

pub open spec fn method_views(s: Seq<MethodSpec>) -> Seq<MethodView> {
    Seq::new(s.len(), |i: int| s[i]@)
}

pub open spec fn json_views(s: Seq<JsonValue>) -> Seq<Json> {
    Seq::new(s.len(), |i: int| s[i]@)
}

pub struct DetailsView {
    pub id: Seq<char>,
    pub name: Seq<char>,
    pub model_type: Seq<char>,
    pub version: Option<u64>,
    pub type_version: Option<Seq<char>>,
    pub tags: Json,
    pub global_arguments: Json,
    pub methods: Seq<MethodView>,
}

impl View for ModelDetails {
    type V = DetailsView;

    open spec fn view(&self) -> DetailsView {
        DetailsView {
            id: self.id@,
            name: self.name@,
            model_type: self.model_type@,
            version: self.version,
            type_version: match self.type_version {
                Some(t) => Some(t@),
                None => None,
            },
            tags: self.tags@,
            global_arguments: self.global_arguments@,
            methods: method_views(self.methods@),
        }
    }
}

pub struct TypeView {
    pub raw: Seq<char>,
    pub normalized: Seq<char>,
    pub version: Seq<char>,
    pub methods: Seq<MethodView>,
    pub data_output_specs: Seq<Json>,
}

impl View for TypeDescription {
    type V = TypeView;

    open spec fn view(&self) -> TypeView {
        TypeView {
            raw: self.model_type.raw@,
            normalized: self.model_type.normalized@,
            version: self.version@,
            methods: method_views(self.methods@),
            data_output_specs: json_views(self.data_output_specs@),
        }
    }
}

impl ModelSummary {
    pub fn copy(&self) -> (r: Self)
        ensures
            r@ == self@,
    {
        ModelSummary {
            id: self.id.clone(),
            name: self.name.clone(),
            model_type: self.model_type.clone(),
            global_arguments_schema: match &self.global_arguments_schema {
                Some(j) => Some(clone_json(j)),
                None => None,
            },
            methods: copy_methods(&self.methods),
        }
    }
}

impl MethodSpec {
    pub fn copy(&self) -> (r: Self)
        ensures
            r@ == self@,
    {
        MethodSpec {
            name: self.name.clone(),
            description: self.description.clone(),
            arguments: clone_json(&self.arguments),
        }
    }
}

pub fn copy_methods(v: &Vec<MethodSpec>) -> (r: Vec<MethodSpec>)
    ensures
        method_views(r@) == method_views(v@),
{
    let mut out: Vec<MethodSpec> = Vec::new();
    let mut i: usize = 0;
    while i < v.len()
        invariant
            i <= v.len(),
            method_views(out@) == method_views(v@).take(i as int),
        decreases v.len() - i,
    {
        let m = v[i].copy();
        let ghost before = out@;
        out.push(m);
        proof {
            assert(method_views(out@) =~= method_views(before).push(m@));
            assert(method_views(out@) =~= method_views(v@).take(i as int + 1));
        }
        i = i + 1;
    }
    proof {
        assert(method_views(v@).take(i as int) =~= method_views(v@));
    }
    out
}

pub fn copy_values(v: &Vec<JsonValue>) -> (r: Vec<JsonValue>)
    ensures
        json_views(r@) == json_views(v@),
{
    let mut out: Vec<JsonValue> = Vec::new();
    let mut i: usize = 0;
    while i < v.len()
        invariant
            i <= v.len(),
            json_views(out@) == json_views(v@).take(i as int),
        decreases v.len() - i,
    {
        let m = clone_json(&v[i]);
        let ghost before = out@;
        out.push(m);
        proof {
            assert(json_views(out@) =~= json_views(before).push(m@));
            assert(json_views(out@) =~= json_views(v@).take(i as int + 1));
        }
        i = i + 1;
    }
    proof {
        assert(json_views(v@).take(i as int) =~= json_views(v@));
    }
    out
}

impl ModelDetails {
    pub fn copy(&self) -> (r: Self)
        ensures
            r@ == self@,
    {
        ModelDetails {
            id: self.id.clone(),
            name: self.name.clone(),
            model_type: self.model_type.clone(),
            version: self.version,
            type_version: match &self.type_version {
                Some(t) => Some(t.clone()),
                None => None,
            },
            tags: clone_json(&self.tags),
            global_arguments: clone_json(&self.global_arguments),
            methods: copy_methods(&self.methods),
        }
    }
}

impl TypeDescription {
    pub fn copy(&self) -> (r: Self)
        ensures
            r@ == self@,
    {
        TypeDescription {
            model_type: TypeName { raw: self.model_type.raw.clone(), normalized: self.model_type.normalized.clone() },
            version: self.version.clone(),
            methods: copy_methods(&self.methods),
            data_output_specs: copy_values(&self.data_output_specs),
        }
    }
}

} // verus!
