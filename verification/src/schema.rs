//! JSON Schema builders for tool parameter definitions. Object members are
//! kept in the order they are first set.
use vstd::prelude::*;

use crate::json::{lemma_array_view, lemma_object_view, Json, JsonNumber, JsonValue, Num};
use crate::text::{owned, str_eq};

verus! {

/// The members of an object as plain values.
pub open spec fn members_view(m: Seq<(String, JsonValue)>) -> Seq<(Seq<char>, Json)> {
    m.map_values(|e: (String, JsonValue)| (e.0@, e.1@))
}

/// Position of the member named `k`, if any.
pub open spec fn key_index(m: Seq<(Seq<char>, Json)>, k: Seq<char>) -> Option<int>
    decreases m.len(),
{
    if m.len() == 0 {
        None
    } else {
        match key_index(m.drop_last(), k) {
            Some(i) => Some(i),
            None => if m.last().0 == k {
                Some(m.len() - 1)
            } else {
                None
            },
        }
    }
}

/// Sets member `k` to `v`: in place when it exists, else appended.
pub open spec fn put(m: Seq<(Seq<char>, Json)>, k: Seq<char>, v: Json) -> Seq<(Seq<char>, Json)> {
    match key_index(m, k) {
        Some(i) => m.update(i, (k, v)),
        None => m.push((k, v)),
    }
}

proof fn lemma_key_index(m: Seq<(Seq<char>, Json)>, k: Seq<char>)
    ensures
        match key_index(m, k) {
            Some(i) => 0 <= i < m.len() && m[i].0 == k && forall|j: int| 0 <= j < i ==> m[j].0 != k,
            None => forall|j: int| 0 <= j < m.len() ==> m[j].0 != k,
        },
    decreases m.len(),
{
    if m.len() > 0 {
        lemma_key_index(m.drop_last(), k);
        assert forall|j: int| 0 <= j < m.len() - 1 implies m[j] == m.drop_last()[j] by {}
    }
}

proof fn lemma_key_index_at(m: Seq<(Seq<char>, Json)>, k: Seq<char>, i: int)
    requires
        0 <= i < m.len(),
        m[i].0 == k,
        forall|j: int| 0 <= j < i ==> m[j].0 != k,
    ensures
        key_index(m, k) == Some(i),
    decreases m.len(),
{
    if i < m.len() - 1 {
        lemma_key_index_at(m.drop_last(), k, i);
    } else {
        lemma_key_index(m.drop_last(), k);
    }
}

pub proof fn lemma_key_index_pub(m: Seq<(Seq<char>, Json)>, k: Seq<char>)
    ensures
        match key_index(m, k) {
            Some(i) => 0 <= i < m.len() && m[i].0 == k && forall|j: int| 0 <= j < i ==> m[j].0 != k,
            None => forall|j: int| 0 <= j < m.len() ==> m[j].0 != k,
        },
{
    lemma_key_index(m, k);
}

pub proof fn lemma_key_index_at_pub(m: Seq<(Seq<char>, Json)>, k: Seq<char>, i: int)
    requires
        0 <= i < m.len(),
        m[i].0 == k,
        forall|j: int| 0 <= j < i ==> m[j].0 != k,
    ensures
        key_index(m, k) == Some(i),
{
    lemma_key_index_at(m, k, i);
}

/// Sets a member of an object's member list.
pub(crate) fn put_member(m: &mut Vec<(String, JsonValue)>, k: String, v: JsonValue)
    ensures
        members_view(final(m)@) == put(members_view(old(m)@), k@, v@),
{
    let ghost mv = members_view(m@);
    let mut i: usize = 0;
    while i < m.len()
        invariant
            i <= m@.len(),
            mv == members_view(m@),
            mv == members_view(old(m)@),
            forall|j: int| 0 <= j < i ==> mv[j].0 != k@,
        decreases m@.len() - i,
    {
        if str_eq(m[i].0.as_str(), k.as_str()) {
            proof {
                lemma_key_index_at(mv, k@, i as int);
            }
            m.set(i, (k, v));
            assert(members_view(m@) =~= put(mv, k@, v@));
            return;
        }
        i = i + 1;
    }
    proof {
        lemma_key_index(mv, k@);
        if let Some(j) = key_index(mv, k@) {
            assert(mv[j].0 != k@);
        }
    }
    m.push((k, v));
    assert(members_view(m@) =~= put(mv, k@, v@));
}

/// A string as a JSON value.
pub fn json_str(s: &str) -> (r: JsonValue)
    ensures
        r@ == Json::Str(s@),
{
    JsonValue::Str(owned(s))
}

/// The JSON number of a signed integer, as serde stores it.
pub open spec fn int_num(i: i64) -> Num {
    if i < 0 {
        Num::NegInt(i)
    } else {
        Num::PosInt(i as u64)
    }
}

fn json_int(i: i64) -> (r: JsonValue)
    ensures
        r@ == Json::Number(int_num(i)),
{
    if i < 0 {
        JsonValue::Number(JsonNumber::NegInt(i))
    } else {
        JsonValue::Number(JsonNumber::PosInt(i as u64))
    }
}

/// A list of strings as a JSON array.
pub open spec fn str_array(v: Seq<Seq<char>>) -> Json {
    Json::Array(v.map_values(|s: Seq<char>| Json::Str(s)))
}

fn json_str_array(v: &[&str]) -> (r: JsonValue)
    ensures
        r@ == str_array(v@.map_values(|s: &str| s@)),
{
    let mut out: Vec<JsonValue> = Vec::new();
    let mut i: usize = 0;
    while i < v.len()
        invariant
            i <= v@.len(),
            out@.len() == i,
            forall|k: int| 0 <= k < i ==> (#[trigger] out@[k])@ == Json::Str(v@[k]@),
        decreases v@.len() - i,
    {
        out.push(json_str(v[i]));
        i = i + 1;
    }
    proof {
        lemma_array_view(out);
        assert(out@.map_values(|x: JsonValue| x@) =~= v@.map_values(|s: &str| s@).map_values(|s: Seq<char>| Json::Str(s)));
    }
    JsonValue::Array(out)
}

fn json_string_array(v: &Vec<String>) -> (r: JsonValue)
    ensures
        r@ == str_array(v@.map_values(|s: String| s@)),
{
    let mut out: Vec<JsonValue> = Vec::new();
    let mut i: usize = 0;
    while i < v.len()
        invariant
            i <= v@.len(),
            out@.len() == i,
            forall|k: int| 0 <= k < i ==> (#[trigger] out@[k])@ == Json::Str(v@[k]@),
        decreases v@.len() - i,
    {
        out.push(json_str(v[i].as_str()));
        i = i + 1;
    }
    proof {
        lemma_array_view(out);
        assert(out@.map_values(|x: JsonValue| x@) =~= v@.map_values(|s: String| s@).map_values(|s: Seq<char>| Json::Str(s)));
    }
    JsonValue::Array(out)
}

/// A value that can stand as the schema of a property.
pub trait SchemaValue: Sized {
    /// The JSON the schema becomes.
    spec fn schema_json(&self) -> Json;

    /// Converts the schema into its JSON value.
    fn into_json(self) -> (r: JsonValue)
        ensures
            r@ == self.schema_json(),
    ;
}

impl SchemaValue for JsonValue {
    open spec fn schema_json(&self) -> Json {
        self@
    }

    fn into_json(self) -> (r: JsonValue) {
        self
    }
}

/// Properties set one after the other with `put`, from none.
pub open spec fn puts(s: Seq<(Seq<char>, Json)>) -> Seq<(Seq<char>, Json)>
    decreases s.len(),
{
    if s.len() == 0 {
        Seq::empty()
    } else {
        put(puts(s.drop_last()), s.last().0, s.last().1)
    }
}

pub proof fn lemma_puts_step(s: Seq<(Seq<char>, Json)>, k: int)
    requires
        0 <= k < s.len(),
    ensures
        puts(s.take(k + 1)) == put(puts(s.take(k)), s[k].0, s[k].1),
{
    assert(s.take(k + 1).drop_last() =~= s.take(k));
}

/// The JSON of a string schema.
pub open spec fn str_schema(desc: Option<Seq<char>>, default: Option<Seq<char>>, allowed: Option<Seq<Seq<char>>>) -> Json {
    Json::Object(
        seq![("type"@, Json::Str("string"@))] + opt_member("description"@, opt_str_json(desc)) + opt_member(
            "default"@,
            opt_str_json(default),
        ) + opt_member("enum"@, match allowed {
            Some(v) => Some(str_array(v)),
            None => None,
        }),
    )
}

/// The JSON of an integer schema.
pub open spec fn int_schema(desc: Option<Seq<char>>, default: Option<i64>, min: Option<i64>, max: Option<i64>) -> Json {
    Json::Object(
        seq![("type"@, Json::Str("integer"@))] + opt_member("description"@, opt_str_json(desc)) + opt_member(
            "default"@,
            opt_int_json(default),
        ) + opt_member("minimum"@, opt_int_json(min)) + opt_member("maximum"@, opt_int_json(max)),
    )
}

/// The JSON of a boolean schema.
pub open spec fn bool_schema(desc: Option<Seq<char>>, default: Option<bool>) -> Json {
    Json::Object(
        seq![("type"@, Json::Str("boolean"@))] + opt_member("description"@, opt_str_json(desc)) + opt_member(
            "default"@,
            match default {
                Some(b) => Some(Json::Bool(b)),
                None => None,
            },
        ),
    )
}

/// Type-safe JSON Schema builder for tool parameter definitions.
pub struct Schema;

/// Builder for object schemas.
pub struct ObjectBuilder {
    properties: Vec<(String, JsonValue)>,
    required: Vec<String>,
    description: Option<String>,
}

/// Schema for string types.
pub struct StringSchema {
    description: Option<String>,
    default: Option<String>,
    enum_values: Option<Vec<String>>,
}

/// Schema for integer types.
pub struct IntegerSchema {
    description: Option<String>,
    default: Option<i64>,
    minimum: Option<i64>,
    maximum: Option<i64>,
}

/// Schema for boolean types.
pub struct BooleanSchema {
    description: Option<String>,
    default: Option<bool>,
}

/// Schema for array types.
pub struct ArraySchema {
    items: JsonValue,
    description: Option<String>,
}

pub open spec fn opt_str(o: Option<String>) -> Option<Seq<char>> {
    match o {
        Some(s) => Some(s@),
        None => None,
    }
}

/// The member `(k, v)` when `v` is present.
pub open spec fn opt_member(k: Seq<char>, v: Option<Json>) -> Seq<(Seq<char>, Json)> {
    match v {
        Some(x) => seq![(k, x)],
        None => Seq::empty(),
    }
}

pub open spec fn opt_str_json(o: Option<Seq<char>>) -> Option<Json> {
    match o {
        Some(s) => Some(Json::Str(s)),
        None => None,
    }
}

pub open spec fn opt_int_json(o: Option<i64>) -> Option<Json> {
    match o {
        Some(i) => Some(Json::Number(int_num(i))),
        None => None,
    }
}

impl Schema {
    /// Start building an object schema.
    pub fn object() -> (r: ObjectBuilder)
        ensures
            r.props().len() == 0,
            r.required_names().len() == 0,
            r.desc() is None,
    {
        let r = ObjectBuilder { properties: Vec::new(), required: Vec::new(), description: None };
        assert(r.props() =~= Seq::<(Seq<char>, Json)>::empty());
        assert(r.required_names() =~= Seq::<Seq<char>>::empty());
        r
    }

    /// Create a string schema.
    pub fn string() -> (r: StringSchema)
        ensures
            r.desc() is None,
            r.default_value() is None,
            r.allowed() is None,
    {
        StringSchema { description: None, default: None, enum_values: None }
    }

    /// Create an integer schema.
    pub fn integer() -> (r: IntegerSchema)
        ensures
            r.desc() is None,
            r.default_value() is None,
            r.min() is None,
            r.max() is None,
    {
        IntegerSchema { description: None, default: None, minimum: None, maximum: None }
    }

    /// Create a boolean schema.
    pub fn boolean() -> (r: BooleanSchema)
        ensures
            r.desc() is None,
            r.default_value() is None,
    {
        BooleanSchema { description: None, default: None }
    }

    /// Create an array schema with the given items schema.
    pub fn array(items: JsonValue) -> (r: ArraySchema)
        ensures
            r.items_json() == items@,
            r.desc() is None,
    {
        ArraySchema { items, description: None }
    }

    /// Create an enum schema from a list of string values.
    pub fn enum_values(values: &[&str]) -> (r: JsonValue)
        ensures
            r@ == Json::Object(
                seq![("type"@, Json::Str("string"@)), ("enum"@, str_array(values@.map_values(|s: &str| s@)))],
            ),
    {
        let mut m: Vec<(String, JsonValue)> = Vec::new();
        m.push((owned("type"), json_str("string")));
        m.push((owned("enum"), json_str_array(values)));
        proof {
            lemma_object_view(m);
            assert(members_view(m@) =~= seq![("type"@, Json::Str("string"@)), ("enum"@, str_array(values@.map_values(|s: &str| s@)))]);
        }
        JsonValue::Object(m)
    }
}

/// The JSON of a built object schema: its type, then the description,
/// properties and required names that are set.
pub open spec fn object_schema_json(
    props: Seq<(Seq<char>, Json)>,
    required: Seq<Seq<char>>,
    desc: Option<Seq<char>>,
) -> Json {
    Json::Object(
        seq![("type"@, Json::Str("object"@))] + opt_member("description"@, opt_str_json(desc))
            + opt_member("properties"@, if props.len() > 0 { Some(Json::Object(props)) } else { None })
            + opt_member("required"@, if required.len() > 0 { Some(str_array(required)) } else { None }),
    )
}

impl ObjectBuilder {
    /// The properties set so far, in order.
    pub closed spec fn props(&self) -> Seq<(Seq<char>, Json)> {
        members_view(self.properties@)
    }

    /// The names marked required, in order.
    pub closed spec fn required_names(&self) -> Seq<Seq<char>> {
        self.required@.map_values(|s: String| s@)
    }

    pub closed spec fn desc(&self) -> Option<Seq<char>> {
        opt_str(self.description)
    }

    /// Add an optional property.
    pub fn property<S: SchemaValue>(self, name: &str, schema: S) -> (r: Self)
        ensures
            r.props() == put(self.props(), name@, schema.schema_json()),
            r.required_names() == self.required_names(),
            r.desc() == self.desc(),
    {
        let mut b = self;
        let v = schema.into_json();
        put_member(&mut b.properties, owned(name), v);
        b
    }

    /// Add a required property.
    pub fn required_property<S: SchemaValue>(self, name: &str, schema: S) -> (r: Self)
        ensures
            r.props() == put(self.props(), name@, schema.schema_json()),
            r.required_names() == self.required_names().push(name@),
            r.desc() == self.desc(),
    {
        let mut b = self;
        let v = schema.into_json();
        put_member(&mut b.properties, owned(name), v);
        let ghost req = b.required@;
        b.required.push(owned(name));
        assert(b.required@.map_values(|s: String| s@) =~= req.map_values(|s: String| s@).push(name@));
        b
    }

    /// Set the object description.
    pub fn description(self, desc: &str) -> (r: Self)
        ensures
            r.props() == self.props(),
            r.required_names() == self.required_names(),
            r.desc() == Some(desc@),
    {
        let mut b = self;
        b.description = Some(owned(desc));
        b
    }

    /// Build the JSON Schema value.
    pub fn build(self) -> (r: JsonValue)
        ensures
            r@ == object_schema_json(self.props(), self.required_names(), self.desc()),
    {
        let ghost props = self.props();
        let ghost req = self.required_names();
        let ghost desc = self.desc();
        let mut m: Vec<(String, JsonValue)> = Vec::new();
        m.push((owned("type"), json_str("object")));
        let ghost m1 = members_view(m@);
        match self.description {
            Some(d) => {
                m.push((owned("description"), JsonValue::Str(d)));
            },
            None => {},
        }
        let ghost m2 = members_view(m@);
        assert(m2 =~= m1 + opt_member("description"@, opt_str_json(desc)));
        if self.properties.len() > 0 {
            proof {
                lemma_object_view(self.properties);
            }
            let pv = JsonValue::Object(self.properties);
            m.push((owned("properties"), pv));
        }
        let ghost m3 = members_view(m@);
        assert(m3 =~= m2 + opt_member("properties"@, if props.len() > 0 { Some(Json::Object(props)) } else { None }));
        if self.required.len() > 0 {
            let rv = json_string_array(&self.required);
            m.push((owned("required"), rv));
        }
        let ghost m4 = members_view(m@);
        assert(m4 =~= m3 + opt_member("required"@, if req.len() > 0 { Some(str_array(req)) } else { None }));
        proof {
            lemma_object_view(m);
        }
        let r = JsonValue::Object(m);
        assert(m4 =~= seq![("type"@, Json::Str("object"@))] + opt_member("description"@, opt_str_json(desc))
            + opt_member("properties"@, if props.len() > 0 { Some(Json::Object(props)) } else { None })
            + opt_member("required"@, if req.len() > 0 { Some(str_array(req)) } else { None }));
        r
    }
}

impl StringSchema {
    pub closed spec fn desc(&self) -> Option<Seq<char>> {
        opt_str(self.description)
    }

    pub closed spec fn default_value(&self) -> Option<Seq<char>> {
        opt_str(self.default)
    }

    pub closed spec fn allowed(&self) -> Option<Seq<Seq<char>>> {
        match self.enum_values {
            Some(v) => Some(v@.map_values(|s: String| s@)),
            None => None,
        }
    }

    /// Set the description.
    pub fn description(self, desc: &str) -> (r: Self)
        ensures
            r.desc() == Some(desc@),
            r.default_value() == self.default_value(),
            r.allowed() == self.allowed(),
    {
        StringSchema { description: Some(owned(desc)), ..self }
    }

    /// Set the default value.
    pub fn default(self, val: &str) -> (r: Self)
        ensures
            r.desc() == self.desc(),
            r.default_value() == Some(val@),
            r.allowed() == self.allowed(),
    {
        StringSchema { default: Some(owned(val)), ..self }
    }

    /// Set allowed enum values.
    pub fn enum_values(self, values: &[&str]) -> (r: Self)
        ensures
            r.desc() == self.desc(),
            r.default_value() == self.default_value(),
            r.allowed() == Some(values@.map_values(|s: &str| s@)),
    {
        let mut v: Vec<String> = Vec::new();
        let mut i: usize = 0;
        while i < values.len()
            invariant
                i <= values@.len(),
                v@.len() == i,
                forall|k: int| 0 <= k < i ==> (#[trigger] v@[k])@ == values@[k]@,
            decreases values@.len() - i,
        {
            v.push(owned(values[i]));
            i = i + 1;
        }
        assert(v@.map_values(|s: String| s@) =~= values@.map_values(|s: &str| s@));
        StringSchema { enum_values: Some(v), ..self }
    }
}

impl SchemaValue for StringSchema {
    open spec fn schema_json(&self) -> Json {
        str_schema(self.desc(), self.default_value(), self.allowed())
    }

    fn into_json(self) -> (r: JsonValue) {
        let ghost d = self.desc();
        let ghost df = self.default_value();
        let ghost al = self.allowed();
        let mut m: Vec<(String, JsonValue)> = Vec::new();
        m.push((owned("type"), json_str("string")));
        let ghost m1 = members_view(m@);
        match self.description {
            Some(s) => m.push((owned("description"), JsonValue::Str(s))),
            None => {},
        }
        let ghost m2 = members_view(m@);
        assert(m2 =~= m1 + opt_member("description"@, opt_str_json(d)));
        match self.default {
            Some(s) => m.push((owned("default"), JsonValue::Str(s))),
            None => {},
        }
        let ghost m3 = members_view(m@);
        assert(m3 =~= m2 + opt_member("default"@, opt_str_json(df)));
        match self.enum_values {
            Some(v) => {
                let a = json_string_array(&v);
                m.push((owned("enum"), a));
            },
            None => {},
        }
        let ghost m4 = members_view(m@);
        assert(m4 =~= m3 + opt_member("enum"@, match al {
            Some(v) => Some(str_array(v)),
            None => None,
        }));
        assert(m4 =~= seq![("type"@, Json::Str("string"@))] + opt_member("description"@, opt_str_json(d))
            + opt_member("default"@, opt_str_json(df)) + opt_member("enum"@, match al {
            Some(v) => Some(str_array(v)),
            None => None,
        }));
        proof {
            lemma_object_view(m);
        }
        let r = JsonValue::Object(m);
        r
    }
}

impl IntegerSchema {
    pub closed spec fn desc(&self) -> Option<Seq<char>> {
        opt_str(self.description)
    }

    pub closed spec fn default_value(&self) -> Option<i64> {
        self.default
    }

    pub closed spec fn min(&self) -> Option<i64> {
        self.minimum
    }

    pub closed spec fn max(&self) -> Option<i64> {
        self.maximum
    }

    pub fn description(self, desc: &str) -> (r: Self)
        ensures
            r.desc() == Some(desc@),
            r.default_value() == self.default_value(),
            r.min() == self.min(),
            r.max() == self.max(),
    {
        IntegerSchema { description: Some(owned(desc)), ..self }
    }

    pub fn default(self, val: i64) -> (r: Self)
        ensures
            r.desc() == self.desc(),
            r.default_value() == Some(val),
            r.min() == self.min(),
            r.max() == self.max(),
    {
        IntegerSchema { default: Some(val), ..self }
    }

    pub fn minimum(self, val: i64) -> (r: Self)
        ensures
            r.desc() == self.desc(),
            r.default_value() == self.default_value(),
            r.min() == Some(val),
            r.max() == self.max(),
    {
        IntegerSchema { minimum: Some(val), ..self }
    }

    pub fn maximum(self, val: i64) -> (r: Self)
        ensures
            r.desc() == self.desc(),
            r.default_value() == self.default_value(),
            r.min() == self.min(),
            r.max() == Some(val),
    {
        IntegerSchema { maximum: Some(val), ..self }
    }
}

impl SchemaValue for IntegerSchema {
    open spec fn schema_json(&self) -> Json {
        int_schema(self.desc(), self.default_value(), self.min(), self.max())
    }

    fn into_json(self) -> (r: JsonValue) {
        let ghost d = self.desc();
        let mut m: Vec<(String, JsonValue)> = Vec::new();
        m.push((owned("type"), json_str("integer")));
        let ghost m1 = members_view(m@);
        match self.description {
            Some(s) => m.push((owned("description"), JsonValue::Str(s))),
            None => {},
        }
        let ghost m2 = members_view(m@);
        assert(m2 =~= m1 + opt_member("description"@, opt_str_json(d)));
        match self.default {
            Some(x) => m.push((owned("default"), json_int(x))),
            None => {},
        }
        let ghost m3 = members_view(m@);
        assert(m3 =~= m2 + opt_member("default"@, opt_int_json(self.default)));
        match self.minimum {
            Some(x) => m.push((owned("minimum"), json_int(x))),
            None => {},
        }
        let ghost m4 = members_view(m@);
        assert(m4 =~= m3 + opt_member("minimum"@, opt_int_json(self.minimum)));
        match self.maximum {
            Some(x) => m.push((owned("maximum"), json_int(x))),
            None => {},
        }
        let ghost m5 = members_view(m@);
        assert(m5 =~= m4 + opt_member("maximum"@, opt_int_json(self.maximum)));
        assert(m5 =~= seq![("type"@, Json::Str("integer"@))] + opt_member("description"@, opt_str_json(d))
            + opt_member("default"@, opt_int_json(self.default)) + opt_member("minimum"@, opt_int_json(self.minimum))
            + opt_member("maximum"@, opt_int_json(self.maximum)));
        proof {
            lemma_object_view(m);
        }
        let r = JsonValue::Object(m);
        r
    }
}

impl BooleanSchema {
    pub closed spec fn desc(&self) -> Option<Seq<char>> {
        opt_str(self.description)
    }

    pub closed spec fn default_value(&self) -> Option<bool> {
        self.default
    }

    pub fn description(self, desc: &str) -> (r: Self)
        ensures
            r.desc() == Some(desc@),
            r.default_value() == self.default_value(),
    {
        BooleanSchema { description: Some(owned(desc)), ..self }
    }

    pub fn default(self, val: bool) -> (r: Self)
        ensures
            r.desc() == self.desc(),
            r.default_value() == Some(val),
    {
        BooleanSchema { default: Some(val), ..self }
    }
}

impl SchemaValue for BooleanSchema {
    open spec fn schema_json(&self) -> Json {
        bool_schema(self.desc(), self.default_value())
    }

    fn into_json(self) -> (r: JsonValue) {
        let ghost d = self.desc();
        let mut m: Vec<(String, JsonValue)> = Vec::new();
        m.push((owned("type"), json_str("boolean")));
        let ghost m1 = members_view(m@);
        match self.description {
            Some(s) => m.push((owned("description"), JsonValue::Str(s))),
            None => {},
        }
        let ghost m2 = members_view(m@);
        assert(m2 =~= m1 + opt_member("description"@, opt_str_json(d)));
        match self.default {
            Some(b) => m.push((owned("default"), JsonValue::Bool(b))),
            None => {},
        }
        let ghost m3 = members_view(m@);
        assert(m3 =~= m2 + opt_member("default"@, match self.default {
            Some(b) => Some(Json::Bool(b)),
            None => None,
        }));
        assert(m3 =~= seq![("type"@, Json::Str("boolean"@))] + opt_member("description"@, opt_str_json(d))
            + opt_member("default"@, match self.default {
            Some(b) => Some(Json::Bool(b)),
            None => None,
        }));
        proof {
            lemma_object_view(m);
        }
        let r = JsonValue::Object(m);
        r
    }
}

impl ArraySchema {
    pub closed spec fn items_json(&self) -> Json {
        self.items@
    }

    pub closed spec fn desc(&self) -> Option<Seq<char>> {
        opt_str(self.description)
    }

    pub fn description(self, desc: &str) -> (r: Self)
        ensures
            r.items_json() == self.items_json(),
            r.desc() == Some(desc@),
    {
        ArraySchema { description: Some(owned(desc)), ..self }
    }
}

impl SchemaValue for ArraySchema {
    open spec fn schema_json(&self) -> Json {
        Json::Object(
            seq![("type"@, Json::Str("array"@)), ("items"@, self.items_json())] + opt_member(
                "description"@,
                opt_str_json(self.desc()),
            ),
        )
    }

    fn into_json(self) -> (r: JsonValue) {
        let ghost d = self.desc();
        let ghost it = self.items_json();
        let mut m: Vec<(String, JsonValue)> = Vec::new();
        m.push((owned("type"), json_str("array")));
        m.push((owned("items"), self.items));
        let ghost m1 = members_view(m@);
        assert(m1 =~= seq![("type"@, Json::Str("array"@)), ("items"@, it)]);
        match self.description {
            Some(s) => m.push((owned("description"), JsonValue::Str(s))),
            None => {},
        }
        let ghost m2 = members_view(m@);
        assert(m2 =~= m1 + opt_member("description"@, opt_str_json(d)));
        proof {
            lemma_object_view(m);
        }
        let r = JsonValue::Object(m);
        r
    }
}

} // verus!
