//! the parameters of hook tools: the JSON schema that describes them, and the
//! validation of a call's arguments against it.

use crate::json;
use crate::json::{Json, Model};
use crate::table;
use crate::table::Table;
use crate::text;
use vstd::prelude::*;

verus! {

// --- the schema of the parameters ---

/// the element type of the `array[T]` shorthand.
pub open spec fn element_type(t: Seq<char>) -> Option<Seq<char>> {
    let head = seq!['a', 'r', 'r', 'a', 'y', '['];
    if head.is_prefix_of(t) && t.len() > 6 && t.last() == ']' {
        Some(t.subrange(6, t.len() - 1))
    } else {
        None
    }
}

/// the schema of the items of an `array[T]`: any item, or items of type `T`.
pub open spec fn items_schema(inner: Seq<char>) -> Model {
    Model::Object(
        if inner == "any"@ {
            Map::empty()
        } else {
            Map::empty().insert("type"@, Model::Text(inner))
        },
    )
}

/// the fields with a standard `type`: the type `any` is left out, and a missing
/// type is `string`.
pub open spec fn with_type(f: Map<Seq<char>, Model>) -> Map<Seq<char>, Model> {
    if !f.contains_key("type"@) {
        f.insert("type"@, Model::Text("string"@))
    } else if f["type"@] == Model::Text("any"@) {
        f.remove("type"@)
    } else {
        f
    }
}

/// the fields with the `array[T]` shorthand written out; `items` that are there
/// stay.
pub open spec fn with_items(f: Map<Seq<char>, Model>) -> Map<Seq<char>, Model> {
    match json::text_in(json::field(Model::Object(f), "type"@)) {
        Some(t) => match element_type(t) {
            Some(inner) => {
                let g = f.insert("type"@, Model::Text("array"@));
                if g.contains_key("items"@) {
                    g
                } else {
                    g.insert("items"@, items_schema(inner))
                }
            },
            None => f,
        },
        None => f,
    }
}

/// the JSON schema of one parameter: a text is the description of a string, an
/// object is a schema with the protocol's own words taken out, and anything
/// else stands as it is.
pub open spec fn property_of(p: Model) -> Model {
    match p {
        Model::Text(desc) => Model::Object(
            Map::empty().insert("type"@, Model::Text("string"@)).insert(
                "description"@,
                Model::Text(desc),
            ),
        ),
        Model::Object(f) => Model::Object(with_items(with_type(f.remove("optional"@)))),
        _ => p,
    }
}

/// a parameter that says so may be left out of a call.
pub open spec fn is_optional(p: Model) -> bool {
    json::field(p, "optional"@) == Some(Model::Bool(true))
}

/// the parameters that a call has to give.
pub open spec fn required_keys(params: Map<Seq<char>, Model>) -> Set<Seq<char>> {
    Set::new(|k: Seq<char>| params.contains_key(k) && !is_optional(params[k]))
}

/// the JSON schema of the parameters.
pub open spec fn schema_of(params: Map<Seq<char>, Model>) -> Model {
    Model::Object(
        Map::empty().insert("type"@, Model::Text("object"@)).insert(
            "properties"@,
            Model::Object(params.map_values(|p: Model| property_of(p))),
        ).insert(
            "required"@,
            Model::Array(json::text_models(table::key_order(required_keys(params)))),
        ),
    )
}

/// the element type of the `array[T]` shorthand.
fn find_element_type(t: &str) -> (r: Option<String>)
    ensures
        match r {
            Some(inner) => element_type(t@) == Some(inner@),
            None => element_type(t@) is None,
        },
{
    proof {
        reveal_strlit("array[");
        reveal_strlit("]");
        assert("array["@ =~= seq!['a', 'r', 'r', 'a', 'y', '[']);
        assert("]"@ =~= seq![']']);
    }
    if !text::starts_with(t, "array[") || !text::ends_with(t, "]") {
        proof {
            if t@.len() > 6 && t@.last() == ']' {
                assert("]"@.is_suffix_of(t@));
            }
        }
        return None;
    }
    let n = t.unicode_len();
    assert(t@.last() == ']') by {
        assert(t@.subrange(t@.len() - 1, t@.len() as int)[0] == ']');
    }
    if n == 6 {
        assert(t@[5] == '[');
        return None;
    }
    Some(t.substring_char(6, n - 1).to_owned())
}

/// writes out the `array[T]` shorthand.
fn expand_array(prop: &mut Table<Json>)
    ensures
        json::field_models(final(prop)@) == with_items(json::field_models(old(prop)@)),
{
    let inner = match prop.get("type") {
        Some(Json::Text(t)) => find_element_type(t.as_str()),
        _ => None,
    };
    if let Some(inner) = inner {
        json::put(prop, "type".to_owned(), Json::text("array"));
        if !prop.contains_key("items") {
            let mut items = json::no_fields();
            if !text::str_eq(inner.as_str(), "any") {
                json::put(&mut items, "type".to_owned(), Json::Text(inner));
            }
            json::put(prop, "items".to_owned(), Json::object(items));
        }
    }
}

/// the JSON schema of one parameter, and whether it may be left out.
pub fn parameter_property(param: &Json) -> (r: (Json, bool))
    ensures
        r.0@ == property_of(param@),
        r.1 == is_optional(param@),
{
    match param {
        Json::Text(desc) => {
            let f = json::with(json::no_fields(), "type", Json::text("string"));
            let f = json::with(f, "description", Json::text(desc.as_str()));
            (Json::object(f), false)
        },
        Json::Object(fields) => {
            proof {
                json::lemma_object(*fields);
            }
            let mut prop = json::copy_fields(fields);
            let optional = match json::take(&mut prop, "optional") {
                Some(Json::Bool(b)) => b,
                _ => false,
            };
            let any = match prop.get("type") {
                Some(Json::Text(t)) => text::str_eq(t.as_str(), "any"),
                _ => false,
            };
            if any {
                let _ = json::take(&mut prop, "type");
            } else if !prop.contains_key("type") {
                json::put(&mut prop, "type".to_owned(), Json::text("string"));
            }
            expand_array(&mut prop);
            (Json::object(prop), optional)
        },
        _ => (param.copy(), false),
    }
}

/// the required names among the listed parameters, in the order of the list.
spec fn required_in(s: Seq<(String, Json)>) -> Seq<Seq<char>>
    decreases s.len(),
{
    if s.len() == 0 {
        Seq::empty()
    } else if is_optional(s.last().1@) {
        required_in(s.drop_last())
    } else {
        required_in(s.drop_last()).push(s.last().0@)
    }
}

/// a required name is the name of a listed parameter that is not optional.
proof fn lemma_required_in(s: Seq<(String, Json)>, k: Seq<char>)
    ensures
        required_in(s).contains(k) == exists|i: int|
            0 <= i < s.len() && (#[trigger] s[i]).0@ == k && !is_optional(s[i].1@),
    decreases s.len(),
{
    if s.len() > 0 {
        let t = s.drop_last();
        lemma_required_in(t, k);
        let names = required_in(s);
        if names.contains(k) {
            let i = choose|i: int| 0 <= i < names.len() && names[i] == k;
            if i < required_in(t).len() {
                assert(required_in(t)[i] == k);
                let j = choose|j: int|
                    0 <= j < t.len() && (#[trigger] t[j]).0@ == k && !is_optional(t[j].1@);
                assert(s[j] == t[j]);
            } else {
                assert(s[s.len() - 1].0@ == k);
            }
        }
        if exists|i: int| 0 <= i < s.len() && (#[trigger] s[i]).0@ == k && !is_optional(s[i].1@) {
            let i = choose|i: int|
                0 <= i < s.len() && (#[trigger] s[i]).0@ == k && !is_optional(s[i].1@);
            if i < s.len() - 1 {
                assert(t[i].0@ == k);
                let j = choose|j: int| 0 <= j < required_in(t).len() && required_in(t)[j] == k;
                assert(names[j] == k);
            } else {
                assert(names[names.len() - 1] == k);
            }
        }
    }
}

/// the required names of a sorted list come in key order.
proof fn lemma_required_order(s: Seq<(String, Json)>)
    requires
        table::sorted(s),
    ensures
        required_in(s) == table::key_order(
            required_keys(json::field_models(table::map_of(s))),
        ),
{
    let keys = required_keys(json::field_models(table::map_of(s)));
    table::lemma_map_of(s);
    assert forall|k: Seq<char>| #[trigger] required_in(s).contains(k) == keys.contains(k) by {
        lemma_required_in(s, k);
        if keys.contains(k) {
            assert(table::map_of(s).contains_key(k));
            let i = choose|i: int| 0 <= i < s.len() && #[trigger] s[i].0@ == k;
            assert(table::map_of(s)[s[i].0@] == s[i].1);
        }
    }
    lemma_required_ascending(s);
    table::lemma_key_order(required_in(s), keys);
}

/// the required names of a sorted list ascend.
proof fn lemma_required_ascending(s: Seq<(String, Json)>)
    requires
        table::sorted(s),
    ensures
        table::ascending(required_in(s)),
    decreases s.len(),
{
    if s.len() > 0 {
        let t = s.drop_last();
        assert forall|a: int, b: int| 0 <= a < b < t.len() implies text::before(
            #[trigger] t[a].0@,
            #[trigger] t[b].0@,
        ) by {
            assert(t[a] == s[a] && t[b] == s[b]);
        }
        lemma_required_ascending(t);
        let names = required_in(s);
        assert forall|i: int, j: int| 0 <= i < j < names.len() implies text::before(
            #[trigger] names[i],
            #[trigger] names[j],
        ) by {
            let m = required_in(t).len();
            assert(names[i] == required_in(t)[i]);
            if j < m {
                assert(names[j] == required_in(t)[j]);
            } else {
                lemma_required_in(t, names[i]);
                assert(required_in(t).contains(names[i]));
                let a = choose|a: int|
                    0 <= a < t.len() && (#[trigger] t[a]).0@ == names[i] && !is_optional(t[a].1@);
                assert(text::before(s[a].0@, s[s.len() - 1].0@));
            }
        }
    }
}

/// builds a JSON-schema `parameters` object from the hook's three accepted
/// parameter forms (string shorthand, typed, enum). the protocol's `any` type is
/// omitted since it's not standard JSON Schema and providers may reject it. the
/// required names come in key order.
pub fn build_parameters_schema(params: &Table<Json>) -> (r: Json)
    ensures
        r@ == schema_of(json::field_models(params@)),
{
    let mut properties = json::no_fields();
    let mut required: Vec<String> = Vec::new();
    let n = params.len();
    let mut i: usize = 0;
    let ghost list = params.list();
    assert(list.take(0) =~= Seq::empty());
    assert(json::field_models(table::map_of(list.take(0))).map_values(|p: Model| property_of(p))
        =~= Map::empty());
    while i < n
        invariant
            i <= n,
            n == list.len(),
            list == params.list(),
            json::field_models(properties@) == json::field_models(
                table::map_of(list.take(i as int)),
            ).map_values(|p: Model| property_of(p)),
            text::texts(required@) == required_in(list.take(i as int)),
        decreases n - i,
    {
        let ghost t = list.take(i + 1);
        assert(t.drop_last() =~= list.take(i as int));
        let name = params.key_at(i);
        let (prop, optional) = parameter_property(params.value_at(i));
        json::put(&mut properties, name.clone(), prop);
        proof {
            let f = json::field_models(table::map_of(t.drop_last()));
            let g = json::field_models(table::map_of(t));
            assert(g =~= f.insert(name@, params.list()[i as int].1@));
            assert(g.map_values(|p: Model| property_of(p)) =~= f.map_values(
                |p: Model| property_of(p),
            ).insert(name@, property_of(params.list()[i as int].1@)));
        }
        if !optional {
            let ghost before = required@;
            required.push(name.clone());
            assert(text::texts(required@) =~= text::texts(before).push(name@));
        }
        i += 1;
    }
    proof {
        assert(list.take(n as int) =~= list);
        lemma_required_order(list);
    }
    let f = json::with(json::no_fields(), "type", Json::text("object"));
    let f = json::with(f, "properties", Json::object(properties));
    let f = json::with(f, "required", json::text_array(required.as_slice()));
    Json::object(f)
}

// --- validation of a call's arguments ---

/// the name of a value's JSON type.
pub open spec fn kind_name(m: Model) -> Seq<char> {
    match m {
        Model::Null => "null"@,
        Model::Bool(_) => "boolean"@,
        Model::Number(_) => "number"@,
        Model::Text(_) => "string"@,
        Model::Array(_) => "array"@,
        Model::Object(_) => "object"@,
    }
}

/// the types of the protocol that a value can fail to have.
pub open spec fn is_checked_type(ty: Seq<char>) -> bool {
    ty == "string"@ || ty == "number"@ || ty == "boolean"@ || ty == "object"@ || ty == "array"@
}

/// a value has a type of the protocol where its own type has that name; any
/// other type lets every value pass.
pub open spec fn type_allows(ty: Seq<char>, value: Model) -> bool {
    is_checked_type(ty) ==> kind_name(value) == ty
}

/// the complaint about a parameter that is missing.
pub open spec fn missing_message(name: Seq<char>) -> Seq<char> {
    "missing required parameter '"@ + name + "'"@
}

/// the complaint about a value of the wrong type.
pub open spec fn type_message(name: Seq<char>, ty: Seq<char>, value: Model) -> Seq<char> {
    "parameter '"@ + name + "' expected "@ + ty + ", got "@ + kind_name(value)
}

/// the values as they are written on one line.
pub open spec fn all_rendered(list: Seq<Model>) -> Seq<Seq<char>> {
    Seq::new(list.len(), |i: int| json::rendered(list[i]))
}

/// the complaint about a value that is none of the allowed ones; `shown` are
/// the allowed values and `got` is the value as they are written.
pub open spec fn choice_message(
    name: Seq<char>,
    shown: Seq<Seq<char>>,
    got: Seq<char>,
) -> Seq<char> {
    "parameter '"@ + name + "' must be one of ["@ + text::join(shown, ", "@) + "], got "@ + got
}

/// one of the values in the list equals the given one.
pub open spec fn listed(list: Seq<Model>, value: Model) -> bool {
    exists|i: int| 0 <= i < list.len() && json::equal(#[trigger] list[i], value)
}

/// what is wrong with the value of one parameter: its type, or else that it is
/// not among the allowed values.
pub open spec fn value_complaint(name: Seq<char>, prop: Model, value: Model) -> Option<Seq<char>> {
    let ty = json::text_in(json::field(prop, "type"@));
    let allowed = json::field(prop, "enum"@);
    if ty is Some && !type_allows(ty->0, value) {
        Some(type_message(name, ty->0, value))
    } else if allowed is Some && allowed->0 is Array && !listed(allowed->0->Array_0, value) {
        Some(choice_message(name, all_rendered(allowed->0->Array_0), json::rendered(value)))
    } else {
        None
    }
}

/// the complaint about the first required name that is missing.
pub open spec fn missing_complaint(
    required: Seq<Model>,
    args: Map<Seq<char>, Model>,
) -> Option<Seq<char>>
    decreases required.len(),
{
    if required.len() == 0 {
        None
    } else if required[0] is Text && !args.contains_key(required[0]->Text_0) {
        Some(missing_message(required[0]->Text_0))
    } else {
        missing_complaint(required.drop_first(), args)
    }
}

/// the complaint about the first of the named arguments whose value is wrong.
pub open spec fn first_complaint(
    names: Seq<Seq<char>>,
    args: Map<Seq<char>, Model>,
    properties: Map<Seq<char>, Model>,
) -> Option<Seq<char>>
    decreases names.len(),
{
    if names.len() == 0 {
        None
    } else if properties.contains_key(names[0]) && value_complaint(
        names[0],
        properties[names[0]],
        args[names[0]],
    ) is Some {
        value_complaint(names[0], properties[names[0]], args[names[0]])
    } else {
        first_complaint(names.drop_first(), args, properties)
    }
}

/// the items of a list under the given key; none where there is no list.
pub open spec fn items_under(m: Model, key: Seq<char>) -> Seq<Model> {
    match json::field(m, key) {
        Some(Model::Array(items)) => items,
        _ => Seq::empty(),
    }
}

/// what is wrong with the arguments of a call: they are no object, a required
/// one is missing, or one (the first in key order) has a wrong value.
pub open spec fn complaint(args: Model, schema: Model) -> Option<Seq<char>> {
    match args {
        Model::Object(fields) => {
            let missing = missing_complaint(items_under(schema, "required"@), fields);
            if missing is Some {
                missing
            } else {
                match json::field(schema, "properties"@) {
                    Some(Model::Object(properties)) => first_complaint(
                        table::key_order(fields.dom()),
                        fields,
                        properties,
                    ),
                    _ => None,
                }
            }
        },
        _ => Some("args must be a JSON object"@),
    }
}

/// the name of a value's JSON type.
pub fn value_type_name(v: &Json) -> (r: &'static str)
    ensures
        r@ == kind_name(v@),
{
    match v {
        Json::Null => "null",
        Json::Bool(_) => "boolean",
        Json::Number(_) => "number",
        Json::Text(_) => "string",
        Json::Array(_) => "array",
        Json::Object(_) => "object",
    }
}

/// whether a value has a type of the protocol. `any`, and any type that is not
/// the protocol's, lets every value pass, rather than rejecting valid hook
/// authors.
pub fn type_matches(ty: &str, value: &Json) -> (r: bool)
    ensures
        r == type_allows(ty@, value@),
{
    let checked = text::str_eq(ty, "string") || text::str_eq(ty, "number") || text::str_eq(
        ty,
        "boolean",
    ) || text::str_eq(ty, "object") || text::str_eq(ty, "array");
    !checked || text::str_eq(value_type_name(value), ty)
}

/// the complaint about a value that is none of the allowed ones.
pub fn choice_complaint(name: &str, shown: &[String], got: &str) -> (r: String)
    ensures
        r@ == choice_message(name@, text::texts(shown@), got@),
{
    let head = text::concat3("parameter '", name, "' must be one of [");
    let list = text::join_of(shown, ", ");
    let tail = text::concat2("], got ", got);
    let r = text::concat3(head.as_str(), list.as_str(), tail.as_str());
    assert(r@ =~= choice_message(name@, text::texts(shown@), got@));
    r
}

/// whether one of the values in the list equals the given one.
fn is_listed(list: &Vec<Json>, value: &Json) -> (r: bool)
    ensures
        r == listed(json::item_models(list@), value@),
{
    proof {
        json::lemma_item_models(list@);
    }
    let mut i: usize = 0;
    while i < list.len()
        invariant
            i <= list@.len(),
            json::item_models(list@).len() == list@.len(),
            forall|j: int|
                0 <= j < list@.len() ==> #[trigger] json::item_models(list@)[j] == json::model(list@[j]),
            forall|j: int|
                0 <= j < i ==> !json::equal(#[trigger] json::item_models(list@)[j], value@),
        decreases list@.len() - i,
    {
        assert(json::item_models(list@)[i as int] == json::model(list@[i as int]));
        if json::json_eq(&list[i], value) {
            return true;
        }
        i += 1;
    }
    false
}

/// the values as they are written on one line.
fn render_all(list: &Vec<Json>) -> (r: Vec<String>)
    ensures
        text::texts(r@) == all_rendered(json::item_models(list@)),
{
    let mut out: Vec<String> = Vec::new();
    let mut i: usize = 0;
    while i < list.len()
        invariant
            i <= list@.len(),
            out@.len() == i,
            forall|j: int| 0 <= j < i ==> (#[trigger] out@[j])@ == json::rendered(list@[j]@),
        decreases list@.len() - i,
    {
        out.push(list[i].render());
        i += 1;
    }
    proof {
        json::lemma_item_models(list@);
        assert(text::texts(out@) =~= all_rendered(json::item_models(list@)));
    }
    out
}

/// what is wrong with the value of one parameter.
fn check_value(name: &str, prop: &Json, value: &Json) -> (r: Option<String>)
    ensures
        match r {
            Some(m) => value_complaint(name@, prop@, value@) == Some(m@),
            None => value_complaint(name@, prop@, value@) is None,
        },
{
    if let Some(ty) = prop.get("type") {
        if let Json::Text(ty) = ty {
            if !type_matches(ty.as_str(), value) {
                let head = text::concat3("parameter '", name, "' expected ");
                let tail = text::concat3(ty.as_str(), ", got ", value_type_name(value));
                let r = text::concat2(head.as_str(), tail.as_str());
                assert(r@ =~= type_message(name@, ty@, value@));
                return Some(r);
            }
        }
    }
    if let Some(allowed) = prop.get("enum") {
        if let Some(allowed) = allowed.as_array() {
            if !is_listed(allowed, value) {
                let shown = render_all(allowed);
                let got = value.render();
                return Some(choice_complaint(name, shown.as_slice(), got.as_str()));
            }
        }
    }
    None
}

/// finds the first required name that is missing.
fn check_required(required: &Vec<Json>, args: &Table<Json>) -> (r: Option<String>)
    ensures
        match r {
            Some(m) => missing_complaint(
                json::item_models(required@),
                json::field_models(args@),
            ) == Some(m@),
            None => missing_complaint(
                json::item_models(required@),
                json::field_models(args@),
            ) is None,
        },
{
    let ghost all = json::item_models(required@);
    let ghost fields = json::field_models(args@);
    proof {
        json::lemma_item_models(required@);
    }
    let mut i: usize = 0;
    assert(all.skip(0) =~= all);
    while i < required.len()
        invariant
            i <= required@.len(),
            all == json::item_models(required@),
            fields == json::field_models(args@),
            all.len() == required@.len(),
            forall|j: int| 0 <= j < all.len() ==> #[trigger] all[j] == json::model(required@[j]),
            missing_complaint(all, fields) == missing_complaint(all.skip(i as int), fields),
        decreases required@.len() - i,
    {
        assert(all[i as int] == json::model(required@[i as int]));
        assert(all.skip(i as int)[0] == all[i as int]);
        assert(all.skip(i as int).drop_first() =~= all.skip(i + 1));
        if let Json::Text(name) = &required[i] {
            if !args.contains_key(name.as_str()) {
                return Some(text::concat3("missing required parameter '", name.as_str(), "'"));
            }
        }
        i += 1;
    }
    None
}

/// finds the first argument, in key order, whose value is wrong.
fn check_arguments(args: &Table<Json>, properties: &Table<Json>) -> (r: Option<String>)
    ensures
        match r {
            Some(m) => first_complaint(
                table::key_order(args@.dom()),
                json::field_models(args@),
                json::field_models(properties@),
            ) == Some(m@),
            None => first_complaint(
                table::key_order(args@.dom()),
                json::field_models(args@),
                json::field_models(properties@),
            ) is None,
        },
{
    let n = args.len();
    let ghost names = table::names_of(args.list());
    let ghost fields = json::field_models(args@);
    let ghost props = json::field_models(properties@);
    proof {
        table::lemma_names_of(args.list());
    }
    let mut i: usize = 0;
    assert(names.skip(0) =~= names);
    while i < n
        invariant
            i <= n,
            n == args.list().len(),
            names == table::names_of(args.list()),
            names == table::key_order(args@.dom()),
            fields == json::field_models(args@),
            props == json::field_models(properties@),
            first_complaint(names, fields, props) == first_complaint(
                names.skip(i as int),
                fields,
                props,
            ),
        decreases n - i,
    {
        let name = args.key_at(i);
        let ghost rest = names.skip(i as int);
        assert(rest[0] == name@);
        assert(rest.drop_first() =~= names.skip(i + 1));
        if let Some(prop) = properties.get(name.as_str()) {
            let found = check_value(name.as_str(), prop, args.value_at(i));
            if found.is_some() {
                return found;
            }
        }
        i += 1;
    }
    None
}

/// validates the LLM-supplied `args` against a parameters schema produced by
/// `build_parameters_schema`. checks: required fields present, type match (if a
/// `type` is declared), and enum membership. returns a human readable error
/// string on the first violation.
pub fn validate_args(args: &Json, schema: &Json) -> (r: Result<(), String>)
    ensures
        match r {
            Ok(()) => complaint(args@, schema@) is None,
            Err(m) => complaint(args@, schema@) == Some(m@),
        },
{
    let fields = match args.as_object() {
        Some(fields) => fields,
        None => {
            return Err("args must be a JSON object".to_owned());
        },
    };
    assert(json::field_models(fields@).dom() =~= fields@.dom());
    if let Some(required) = schema.get("required") {
        if let Some(required) = required.as_array() {
            if let Some(m) = check_required(required, fields) {
                return Err(m);
            }
        }
    }
    if let Some(properties) = schema.get("properties") {
        if let Some(properties) = properties.as_object() {
            if let Some(m) = check_arguments(fields, properties) {
                return Err(m);
            }
        }
    }
    Ok(())
}

// --- laws ---

/// the schema keeps none of the protocol's own words: a parameter given as an
/// object has no `optional` mark, no `any` type and no `array[T]` shorthand left.
pub proof fn law_schema_is_standard(f: Map<Seq<char>, Model>)
    ensures
        json::field(property_of(Model::Object(f)), "optional"@) is None,
        json::field(property_of(Model::Object(f)), "type"@) != Some(Model::Text("any"@)),
        match json::text_in(json::field(property_of(Model::Object(f)), "type"@)) {
            Some(t) => element_type(t) is None,
            None => true,
        },
{
    reveal_strlit("optional");
    reveal_strlit("type");
    reveal_strlit("items");
    reveal_strlit("any");
    reveal_strlit("array");
    reveal_strlit("string");
    assert("type"@.len() != "optional"@.len());
    assert("items"@.len() != "optional"@.len());
    assert("items"@.len() != "type"@.len());
    assert("array"@.len() != "any"@.len());
    assert("string"@.len() != "any"@.len());
    assert(element_type("array"@) is None);
    assert(element_type("string"@) is None) by {
        assert("string"@[0] == 's');
    }
}

/// a parameter given as an object keeps all its other fields.
pub proof fn law_schema_keeps_fields(f: Map<Seq<char>, Model>, k: Seq<char>)
    requires
        k != "optional"@,
        k != "type"@,
        f.contains_key(k),
    ensures
        json::field(property_of(Model::Object(f)), k) == Some(f[k]),
{
}

/// what stands under the keys of a schema.
proof fn lemma_schema_parts(params: Map<Seq<char>, Model>)
    ensures
        items_under(schema_of(params), "required"@) == json::text_models(
            table::key_order(required_keys(params)),
        ),
        json::field(schema_of(params), "properties"@) == Some(
            Model::Object(params.map_values(|p: Model| property_of(p))),
        ),
{
    reveal_strlit("required");
    reveal_strlit("properties");
    assert("required"@.len() != "properties"@.len());
}

/// where a required name is missing, there is a complaint that names the first
/// one of them.
proof fn lemma_missing(names: Seq<Seq<char>>, args: Map<Seq<char>, Model>)
    ensures
        missing_complaint(json::text_models(names), args) is Some <==> exists|i: int|
            0 <= i < names.len() && !args.contains_key(#[trigger] names[i]),
    decreases names.len(),
{
    if names.len() > 0 {
        let rest = names.drop_first();
        lemma_missing(rest, args);
        assert(json::text_models(names).drop_first() =~= json::text_models(rest));
        if exists|i: int| 0 <= i < names.len() && !args.contains_key(#[trigger] names[i]) {
            let i = choose|i: int| 0 <= i < names.len() && !args.contains_key(#[trigger] names[i]);
            if i > 0 {
                assert(rest[i - 1] == names[i]);
            }
        }
        if exists|i: int| 0 <= i < rest.len() && !args.contains_key(#[trigger] rest[i]) {
            let i = choose|i: int| 0 <= i < rest.len() && !args.contains_key(#[trigger] rest[i]);
            assert(names[i + 1] == rest[i]);
        }
    }
}

/// there is a complaint about the values iff one of the named arguments has a
/// wrong value.
proof fn lemma_first(
    names: Seq<Seq<char>>,
    args: Map<Seq<char>, Model>,
    properties: Map<Seq<char>, Model>,
)
    ensures
        first_complaint(names, args, properties) is Some <==> exists|i: int|
            0 <= i < names.len() && properties.contains_key(#[trigger] names[i])
                && value_complaint(names[i], properties[names[i]], args[names[i]]) is Some,
    decreases names.len(),
{
    if names.len() > 0 {
        let rest = names.drop_first();
        lemma_first(rest, args, properties);
        if exists|i: int|
            0 <= i < names.len() && properties.contains_key(#[trigger] names[i])
                && value_complaint(names[i], properties[names[i]], args[names[i]]) is Some {
            let i = choose|i: int|
                0 <= i < names.len() && properties.contains_key(#[trigger] names[i])
                    && value_complaint(names[i], properties[names[i]], args[names[i]]) is Some;
            if i > 0 {
                assert(rest[i - 1] == names[i]);
            }
        }
        if exists|i: int|
            0 <= i < rest.len() && properties.contains_key(#[trigger] rest[i])
                && value_complaint(rest[i], properties[rest[i]], args[rest[i]]) is Some {
            let i = choose|i: int|
                0 <= i < rest.len() && properties.contains_key(#[trigger] rest[i])
                    && value_complaint(rest[i], properties[rest[i]], args[rest[i]]) is Some;
            assert(names[i + 1] == rest[i]);
        }
    }
}

/// the arguments of a call pass the schema of its parameters iff none that is
/// required is missing and each one that is a parameter has a value to which
/// its property has no objection. arguments that are no parameters pass.
pub proof fn law_validation(params: Map<Seq<char>, Model>, args: Map<Seq<char>, Model>)
    requires
        params.dom().finite(),
        args.dom().finite(),
    ensures
        complaint(Model::Object(args), schema_of(params)) is None <==> {
            &&& forall|k: Seq<char>| #[trigger]
                params.contains_key(k) && !is_optional(params[k]) ==> args.contains_key(k)
            &&& forall|k: Seq<char>|
                params.contains_key(k) && args.contains_key(k) ==> #[trigger] value_complaint(
                    k,
                    property_of(params[k]),
                    args[k],
                ) is None
        },
{
    lemma_schema_parts(params);
    let keys = required_keys(params);
    assert(keys.subset_of(params.dom()));
    vstd::set_lib::lemma_set_subset_finite(params.dom(), keys);
    table::lemma_listed(keys);
    let required = table::key_order(keys);
    lemma_missing(required, args);
    let props = params.map_values(|p: Model| property_of(p));
    table::lemma_listed(args.dom());
    let names = table::key_order(args.dom());
    lemma_first(names, args, props);
    if complaint(Model::Object(args), schema_of(params)) is None {
        assert forall|k: Seq<char>| #[trigger]
            params.contains_key(k) && !is_optional(params[k]) implies args.contains_key(k) by {
            assert(required.contains(k) == keys.contains(k));
            let i = choose|i: int| 0 <= i < required.len() && required[i] == k;
            assert(args.contains_key(required[i]));
        }
        assert forall|k: Seq<char>|
            params.contains_key(k) && args.contains_key(k) implies #[trigger] value_complaint(
            k,
            property_of(params[k]),
            args[k],
        ) is None by {
            assert(names.contains(k) == args.dom().contains(k));
            let i = choose|i: int| 0 <= i < names.len() && names[i] == k;
            assert(props.contains_key(names[i]));
        }
    } else {
        if exists|i: int| 0 <= i < required.len() && !args.contains_key(#[trigger] required[i]) {
            let i = choose|i: int|
                0 <= i < required.len() && !args.contains_key(#[trigger] required[i]);
            assert(required.contains(required[i]));
            assert(keys.contains(required[i]));
        } else {
            let i = choose|i: int|
                0 <= i < names.len() && props.contains_key(#[trigger] names[i]) && value_complaint(
                    names[i],
                    props[names[i]],
                    args[names[i]],
                ) is Some;
            assert(names.contains(names[i]));
            assert(args.contains_key(names[i]));
        }
    }
}

/// a call without arguments passes iff every parameter is optional.
pub proof fn law_empty_call(params: Map<Seq<char>, Model>)
    requires
        params.dom().finite(),
    ensures
        complaint(Model::Object(Map::empty()), schema_of(params)) is None <==> forall|k: Seq<char>|
         #[trigger]
            params.contains_key(k) ==> is_optional(params[k]),
{
    law_validation(params, Map::empty());
}

/// a value of another type than the declared one is refused.
pub proof fn law_type_is_enforced(name: Seq<char>, ty: Seq<char>, prop: Model, value: Model)
    requires
        json::field(prop, "type"@) == Some(Model::Text(ty)),
        is_checked_type(ty),
        kind_name(value) != ty,
    ensures
        value_complaint(name, prop, value) == Some(type_message(name, ty, value)),
{
}

/// a value is refused where there is a list of allowed ones and it equals none
/// of them.
pub proof fn law_choice_is_enforced(name: Seq<char>, prop: Model, allowed: Seq<Model>, value: Model)
    requires
        json::field(prop, "enum"@) == Some(Model::Array(allowed)),
        !listed(allowed, value),
    ensures
        value_complaint(name, prop, value) is Some,
{
}

/// a value that equals one of the allowed ones passes where its type does,
/// wherever that one stands in the list.
pub proof fn law_allowed_values_pass(
    name: Seq<char>,
    prop: Model,
    allowed: Seq<Model>,
    i: int,
    value: Model,
)
    requires
        json::field(prop, "enum"@) == Some(Model::Array(allowed)),
        0 <= i < allowed.len(),
        json::equal(allowed[i], value),
        match json::text_in(json::field(prop, "type"@)) {
            Some(ty) => type_allows(ty, value),
            None => true,
        },
    ensures
        value_complaint(name, prop, value) is None,
{
    assert(listed(allowed, value));
}

/// a text that is written out in the list of allowed ones passes, and one that is
/// not is refused, where the type is string or not declared.
pub proof fn law_allowed_texts(
    name: Seq<char>,
    prop: Model,
    allowed: Seq<Seq<char>>,
    value: Seq<char>,
)
    requires
        json::field(prop, "enum"@) == Some(Model::Array(json::text_models(allowed))),
        json::field(prop, "type"@) is None || json::field(prop, "type"@) == Some(
            Model::Text("string"@),
        ),
    ensures
        value_complaint(name, prop, Model::Text(value)) is None <==> allowed.contains(value),
{
    let list = json::text_models(allowed);
    if allowed.contains(value) {
        let i = choose|i: int| 0 <= i < allowed.len() && allowed[i] == value;
        assert(json::equal(list[i], Model::Text(value)));
        law_allowed_values_pass(name, prop, list, i, Model::Text(value));
    } else if listed(list, Model::Text(value)) {
        let i = choose|i: int|
            0 <= i < list.len() && json::equal(#[trigger] list[i], Model::Text(value));
        assert(allowed[i] == value);
    }
}

/// a value of the declared type passes where no list of allowed ones is given, and
/// so does every value where no type is declared either.
pub proof fn law_right_type_passes(name: Seq<char>, prop: Model, value: Model)
    requires
        json::field(prop, "enum"@) is None,
    ensures
        json::text_in(json::field(prop, "type"@)) is None ==> value_complaint(name, prop, value)
            is None,
        json::field(prop, "type"@) == Some(Model::Text(kind_name(value))) ==> value_complaint(
            name,
            prop,
            value,
        ) is None,
{
}

/// the names of the types are told apart.
proof fn lemma_type_names()
    ensures
        "string"@ != "number"@,
        "string"@ != "boolean"@,
        "string"@ != "object"@,
        "string"@ != "array"@,
        "string"@ != "null"@,
        "number"@ != "boolean"@,
        "number"@ != "object"@,
        "number"@ != "array"@,
        "number"@ != "null"@,
        "boolean"@ != "object"@,
        "boolean"@ != "array"@,
        "boolean"@ != "null"@,
        "object"@ != "array"@,
        "object"@ != "null"@,
        "array"@ != "null"@,
{
    reveal_strlit("string");
    reveal_strlit("number");
    reveal_strlit("boolean");
    reveal_strlit("object");
    reveal_strlit("array");
    reveal_strlit("null");
    assert("string"@[0] == 's' && "number"@[0] == 'n' && "boolean"@[0] == 'b' && "object"@[0] == 'o'
        && "array"@[0] == 'a' && "null"@[0] == 'n');
    assert("number"@.len() == 6 && "null"@.len() == 4);
}

/// where a type is declared and no list of allowed values, a value passes iff it is
/// of that type; a type that is none of the five lets every value pass.
pub proof fn law_types(name: Seq<char>, ty: Seq<char>, prop: Model, value: Model)
    requires
        json::field(prop, "type"@) == Some(Model::Text(ty)),
        json::field(prop, "enum"@) is None,
    ensures
        ty == "string"@ ==> (value_complaint(name, prop, value) is None <==> value is Text),
        ty == "number"@ ==> (value_complaint(name, prop, value) is None <==> value is Number),
        ty == "boolean"@ ==> (value_complaint(name, prop, value) is None <==> value is Bool),
        ty == "object"@ ==> (value_complaint(name, prop, value) is None <==> value is Object),
        ty == "array"@ ==> (value_complaint(name, prop, value) is None <==> value is Array),
        ty != "string"@ && ty != "number"@ && ty != "boolean"@ && ty != "object"@ && ty
            != "array"@ ==> value_complaint(name, prop, value) is None,
{
    lemma_type_names();
}

/// the complaint about a value of the wrong type names the parameter, the declared
/// type and the type of the value.
pub proof fn law_type_complaint(name: Seq<char>, ty: Seq<char>, prop: Model, value: Model)
    requires
        json::field(prop, "type"@) == Some(Model::Text(ty)),
        ty == "string"@ && !(value is Text) || ty == "number"@ && !(value is Number) || ty
            == "boolean"@ && !(value is Bool) || ty == "object"@ && !(value is Object) || ty
            == "array"@ && !(value is Array),
    ensures
        value_complaint(name, prop, value) == Some(
            "parameter '"@ + name + "' expected "@ + ty + ", got "@ + match value {
                Model::Null => "null"@,
                Model::Bool(_) => "boolean"@,
                Model::Number(_) => "number"@,
                Model::Text(_) => "string"@,
                Model::Array(_) => "array"@,
                Model::Object(_) => "object"@,
            },
        ),
{
    lemma_type_names();
}

/// the complaint about a value that is not allowed shows all allowed ones, in their
/// order, and the value.
pub proof fn law_choice_complaint(
    name: Seq<char>,
    prop: Model,
    allowed: Seq<Model>,
    shown: Seq<Seq<char>>,
    value: Model,
)
    requires
        json::field(prop, "enum"@) == Some(Model::Array(allowed)),
        json::field(prop, "type"@) is None,
        forall|i: int| 0 <= i < allowed.len() ==> !json::equal(#[trigger] allowed[i], value),
        shown.len() == allowed.len(),
        forall|i: int| 0 <= i < allowed.len() ==> #[trigger] shown[i] == json::rendered(allowed[i]),
    ensures
        value_complaint(name, prop, value) == Some(
            "parameter '"@ + name + "' must be one of ["@ + text::join(shown, ", "@) + "], got "@
                + json::rendered(value),
        ),
{
    assert(!listed(allowed, value));
    assert(all_rendered(allowed) =~= shown);
}

/// where all earlier ones of the required names are given, the first missing one is
/// named in the complaint.
pub proof fn law_first_missing_is_named(
    names: Seq<Seq<char>>,
    args: Map<Seq<char>, Model>,
    schema: Model,
    i: int,
)
    requires
        json::field(schema, "required"@) == Some(Model::Array(json::text_models(names))),
        0 <= i < names.len(),
        !args.contains_key(names[i]),
        forall|j: int| 0 <= j < i ==> args.contains_key(#[trigger] names[j]),
    ensures
        complaint(Model::Object(args), schema) == Some(
            "missing required parameter '"@ + names[i] + "'"@,
        ),
{
    lemma_first_missing(names, args, i);
}

/// the complaint about the first missing name.
proof fn lemma_first_missing(names: Seq<Seq<char>>, args: Map<Seq<char>, Model>, i: int)
    requires
        0 <= i < names.len(),
        !args.contains_key(names[i]),
        forall|j: int| 0 <= j < i ==> args.contains_key(#[trigger] names[j]),
    ensures
        missing_complaint(json::text_models(names), args) == Some(missing_message(names[i])),
    decreases i,
{
    let list = json::text_models(names);
    assert(list[0] == Model::Text(names[0]));
    if i > 0 {
        let rest = names.drop_first();
        assert(args.contains_key(names[0]));
        assert(list.drop_first() =~= json::text_models(rest));
        assert forall|j: int| 0 <= j < i - 1 implies args.contains_key(#[trigger] rest[j]) by {
            assert(rest[j] == names[j + 1]);
        }
        lemma_first_missing(rest, args, i - 1);
    }
}

/// arguments that are no object are refused.
pub proof fn law_arguments_are_an_object(args: Model, schema: Model)
    requires
        !(args is Object),
    ensures
        complaint(args, schema) == Some("args must be a JSON object"@),
{
}

/// where a value is wrong the complaint is the one about it, where nothing is
/// missing and no other value is wrong.
pub proof fn law_wrong_value_is_told(
    params: Map<Seq<char>, Model>,
    args: Map<Seq<char>, Model>,
    k: Seq<char>,
)
    requires
        params.dom().finite(),
        args.dom().finite(),
        params.contains_key(k),
        args.contains_key(k),
        forall|n: Seq<char>| #[trigger]
            params.contains_key(n) && !is_optional(params[n]) ==> args.contains_key(n),
        forall|n: Seq<char>| #[trigger]
            params.contains_key(n) && args.contains_key(n) && n != k ==> value_complaint(
                n,
                property_of(params[n]),
                args[n],
            ) is None,
    ensures
        complaint(Model::Object(args), schema_of(params)) == value_complaint(
            k,
            property_of(params[k]),
            args[k],
        ),
{
    lemma_schema_parts(params);
    let keys = required_keys(params);
    assert(keys.subset_of(params.dom()));
    vstd::set_lib::lemma_set_subset_finite(params.dom(), keys);
    table::lemma_listed(keys);
    let required = table::key_order(keys);
    lemma_missing(required, args);
    assert forall|i: int| 0 <= i < required.len() implies args.contains_key(
        #[trigger] required[i],
    ) by {
        assert(required.contains(required[i]));
        assert(keys.contains(required[i]));
    }
    let props = params.map_values(|p: Model| property_of(p));
    table::lemma_listed(args.dom());
    let names = table::key_order(args.dom());
    assert(names.contains(k));
    assert forall|i: int|
        0 <= i < names.len() && #[trigger] names[i] != k && props.contains_key(
            names[i],
        ) implies value_complaint(names[i], props[names[i]], args[names[i]]) is None by {
        assert(names.contains(names[i]));
        assert(args.contains_key(names[i]));
        assert(params.contains_key(names[i]));
    }
    lemma_only_wrong(names, args, props, k);
}

/// the complaint about the only value that may be wrong.
proof fn lemma_only_wrong(
    names: Seq<Seq<char>>,
    args: Map<Seq<char>, Model>,
    properties: Map<Seq<char>, Model>,
    k: Seq<char>,
)
    requires
        properties.contains_key(k),
        forall|i: int|
            0 <= i < names.len() && #[trigger] names[i] != k && properties.contains_key(names[i])
                ==> value_complaint(names[i], properties[names[i]], args[names[i]]) is None,
    ensures
        names.contains(k) ==> first_complaint(names, args, properties) == value_complaint(
            k,
            properties[k],
            args[k],
        ),
        !names.contains(k) ==> first_complaint(names, args, properties) is None,
    decreases names.len(),
{
    if names.len() > 0 {
        let rest = names.drop_first();
        assert forall|i: int|
            0 <= i < rest.len() && #[trigger] rest[i] != k && properties.contains_key(
                rest[i],
            ) implies value_complaint(rest[i], properties[rest[i]], args[rest[i]]) is None by {
            assert(rest[i] == names[i + 1]);
        }
        lemma_only_wrong(rest, args, properties, k);
        if names[0] == k {
            assert(names.contains(k));
        } else {
            if names.contains(k) {
                let i = choose|i: int| 0 <= i < names.len() && names[i] == k;
                assert(rest[i - 1] == k);
            }
            if rest.contains(k) {
                let i = choose|i: int| 0 <= i < rest.len() && rest[i] == k;
                assert(names[i + 1] == k);
            }
        }
    }
}

/// the schema requires exactly the parameters that are not marked as optional, in
/// key order, and describes all of them.
pub proof fn law_schema_parts(params: Map<Seq<char>, Model>, k: Seq<char>)
    requires
        params.dom().finite(),
    ensures
        json::field(schema_of(params), "type"@) == Some(Model::Text("object"@)),
        ({
            let required = items_under(schema_of(params), "required"@);
            &&& required.contains(Model::Text(k)) <==> params.contains_key(k) && json::field(
                params[k],
                "optional"@,
            ) != Some(Model::Bool(true))
            &&& forall|i: int, j: int|
                0 <= i < j < required.len() ==> (#[trigger] required[i]) is Text && (
                #[trigger] required[j]) is Text && text::before(
                    required[i]->Text_0,
                    required[j]->Text_0,
                )
        }),
        json::field(schema_of(params), "properties"@) is Some,
        json::field(json::field(schema_of(params), "properties"@)->0, k) == if params.contains_key(
            k,
        ) {
            Some(property_of(params[k]))
        } else {
            None
        },
{
    reveal_strlit("type");
    reveal_strlit("required");
    reveal_strlit("properties");
    assert("type"@.len() == 4 && "required"@.len() == 8 && "properties"@.len() == 10);
    lemma_schema_parts(params);
    let keys = required_keys(params);
    assert(keys.subset_of(params.dom()));
    vstd::set_lib::lemma_set_subset_finite(params.dom(), keys);
    table::lemma_listed(keys);
    let names = table::key_order(keys);
    let required = items_under(schema_of(params), "required"@);
    assert(names.contains(k) == keys.contains(k));
    if names.contains(k) {
        let i = choose|i: int| 0 <= i < names.len() && names[i] == k;
        assert(required[i] == Model::Text(k));
    }
    if required.contains(Model::Text(k)) {
        let i = choose|i: int| 0 <= i < required.len() && required[i] == Model::Text(k);
        assert(names[i] == k);
    }
}

/// a parameter given as a text is a string with that description, and one that is
/// neither a text nor an object stands as it is.
pub proof fn law_described_parameter(desc: Seq<char>, other: Model)
    ensures
        json::field(property_of(Model::Text(desc)), "type"@) == Some(Model::Text("string"@)),
        json::field(property_of(Model::Text(desc)), "description"@) == Some(Model::Text(desc)),
        !(other is Text) && !(other is Object) ==> property_of(other) == other,
{
    reveal_strlit("type");
    reveal_strlit("description");
    assert("type"@.len() != "description"@.len());
}

/// the names of the fields of a parameter are told apart.
proof fn lemma_field_names()
    ensures
        "type"@ != "optional"@,
        "items"@ != "optional"@,
        "items"@ != "type"@,
{
    reveal_strlit("type");
    reveal_strlit("optional");
    reveal_strlit("items");
    assert("type"@.len() == 4 && "optional"@.len() == 8 && "items"@.len() == 5);
}

/// a parameter given as an object without a type is a string; one of any type has
/// none; `array[T]` is an array whose items are of type `T`, or any for `any`, where
/// it does not say otherwise; and any other type stays.
pub proof fn law_parameter_types(f: Map<Seq<char>, Model>, inner: Seq<char>, ty: Seq<char>)
    ensures
        ({
            let p = property_of(Model::Object(f));
            let head = seq!['a', 'r', 'r', 'a', 'y', '['];
            let shorthand = head + inner + seq![']'];
            &&& !f.contains_key("type"@) ==> json::field(p, "type"@) == Some(
                Model::Text("string"@),
            )
            &&& f.contains_key("type"@) && f["type"@] == Model::Text("any"@) ==> json::field(
                p,
                "type"@,
            ) is None
            &&& f.contains_key("type"@) && f["type"@] == Model::Text(shorthand) ==> {
                &&& json::field(p, "type"@) == Some(Model::Text("array"@))
                &&& f.contains_key("items"@) ==> json::field(p, "items"@) == Some(f["items"@])
                &&& !f.contains_key("items"@) && inner != "any"@ ==> json::field(
                    json::field(p, "items"@)->0,
                    "type"@,
                ) == Some(Model::Text(inner))
                &&& !f.contains_key("items"@) && inner == "any"@ ==> json::field(p, "items"@)
                    == Some(Model::Object(Map::empty()))
            }
            &&& f.contains_key("type"@) && f["type"@] == Model::Text(ty) && ty != "any"@ && !(
            head.is_prefix_of(ty) && ty.len() > 6 && ty.last() == ']') ==> json::field(
                p,
                "type"@,
            ) == Some(Model::Text(ty))
        }),
{
    lemma_field_names();
    let head = seq!['a', 'r', 'r', 'a', 'y', '['];
    let shorthand = head + inner + seq![']'];
    assert(shorthand.subrange(0, 6) =~= head);
    assert(head.is_prefix_of(shorthand));
    assert(shorthand.subrange(6, shorthand.len() - 1) =~= inner);
    reveal_strlit("any");
    reveal_strlit("string");
    assert("any"@.len() == 3);
    assert(shorthand.len() >= 7);
    assert(!head.is_prefix_of("string"@)) by {
        if head.is_prefix_of("string"@) {
            assert("string"@.subrange(0, 6)[0] == head[0]);
        }
    }
}

/// a schema without properties has no objection to any value, and arguments that are
/// no parameters pass.
pub proof fn law_undescribed_arguments_pass(args: Map<Seq<char>, Model>, schema: Model)
    requires
        items_under(schema, "required"@).len() == 0,
        args.dom().finite(),
        match json::field(schema, "properties"@) {
            Some(Model::Object(p)) => forall|k: Seq<char>| #[trigger]
                args.contains_key(k) ==> !p.contains_key(k),
            _ => true,
        },
    ensures
        complaint(Model::Object(args), schema) is None,
{
    match json::field(schema, "properties"@) {
        Some(Model::Object(p)) => {
            table::lemma_listed(args.dom());
            let names = table::key_order(args.dom());
            lemma_first(names, args, p);
            assert forall|i: int| 0 <= i < names.len() implies !p.contains_key(
                #[trigger] names[i],
            ) by {
                assert(names.contains(names[i]));
                assert(args.contains_key(names[i]));
            }
        },
        _ => {},
    }
}

/// the arguments are held against the schema in key order: the complaint is about the
/// first one whose value is wrong.
pub proof fn law_first_wrong_value_is_told(
    params: Map<Seq<char>, Model>,
    args: Map<Seq<char>, Model>,
    k: Seq<char>,
)
    requires
        params.dom().finite(),
        args.dom().finite(),
        params.contains_key(k),
        args.contains_key(k),
        value_complaint(k, property_of(params[k]), args[k]) is Some,
        forall|n: Seq<char>| #[trigger]
            params.contains_key(n) && !is_optional(params[n]) ==> args.contains_key(n),
        forall|n: Seq<char>| #[trigger]
            params.contains_key(n) && args.contains_key(n) && text::before(n, k)
                ==> value_complaint(n, property_of(params[n]), args[n]) is None,
    ensures
        complaint(Model::Object(args), schema_of(params)) == value_complaint(
            k,
            property_of(params[k]),
            args[k],
        ),
{
    lemma_schema_parts(params);
    let keys = required_keys(params);
    assert(keys.subset_of(params.dom()));
    vstd::set_lib::lemma_set_subset_finite(params.dom(), keys);
    table::lemma_listed(keys);
    let required = table::key_order(keys);
    lemma_missing(required, args);
    assert forall|i: int| 0 <= i < required.len() implies args.contains_key(
        #[trigger] required[i],
    ) by {
        assert(required.contains(required[i]));
        assert(keys.contains(required[i]));
    }
    let props = params.map_values(|p: Model| property_of(p));
    table::lemma_listed(args.dom());
    let names = table::key_order(args.dom());
    assert(names.contains(k));
    let at = choose|i: int| 0 <= i < names.len() && names[i] == k;
    assert forall|i: int| 0 <= i < at && props.contains_key(#[trigger] names[i]) implies
        value_complaint(names[i], props[names[i]], args[names[i]]) is None by {
        assert(names.contains(names[i]));
        assert(args.contains_key(names[i]));
        assert(params.contains_key(names[i]));
        assert(text::before(names[i], names[at]));
    }
    lemma_first_wrong(names, args, props, at);
}

/// the complaint about the first value that is wrong.
proof fn lemma_first_wrong(
    names: Seq<Seq<char>>,
    args: Map<Seq<char>, Model>,
    properties: Map<Seq<char>, Model>,
    at: int,
)
    requires
        0 <= at < names.len(),
        properties.contains_key(names[at]),
        value_complaint(names[at], properties[names[at]], args[names[at]]) is Some,
        forall|i: int|
            0 <= i < at && properties.contains_key(#[trigger] names[i]) ==> value_complaint(
                names[i],
                properties[names[i]],
                args[names[i]],
            ) is None,
    ensures
        first_complaint(names, args, properties) == value_complaint(
            names[at],
            properties[names[at]],
            args[names[at]],
        ),
    decreases names.len(),
{
    if at > 0 {
        let rest = names.drop_first();
        assert(rest[at - 1] == names[at]);
        assert(properties.contains_key(names[0]) ==> value_complaint(
            names[0],
            properties[names[0]],
            args[names[0]],
        ) is None);
        assert forall|i: int| 0 <= i < at - 1 && properties.contains_key(#[trigger] rest[i]) implies
            value_complaint(rest[i], properties[rest[i]], args[rest[i]]) is None by {
            assert(rest[i] == names[i + 1]);
        }
        lemma_first_wrong(rest, args, properties, at - 1);
    }
}

} // verus!
