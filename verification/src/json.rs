//! JSON values, and the bridge to `serde_json`, which reads and writes them.

use crate::table;
use crate::table::Table;
use crate::text;
use vstd::prelude::*;

verus! {

// --- values ---

/// a number of `serde_json`; it is carried, compared and written by that crate.
#[verifier::external_type_specification]
#[verifier::external_body]
pub struct ExNumber(serde_json::Number);

/// a JSON value. the fields of an object are kept in key order.
#[derive(Debug, PartialEq)]
pub enum Json {
    Null,
    Bool(bool),
    Number(serde_json::Number),
    Text(String),
    Array(Vec<Json>),
    Object(Table<Json>),
}

/// what a JSON value stands for.
pub enum Model {
    Null,
    Bool(bool),
    Number(serde_json::Number),
    Text(Seq<char>),
    Array(Seq<Model>),
    Object(Map<Seq<char>, Model>),
}

impl View for Json {
    type V = Model;

    open spec fn view(&self) -> Model {
        model(*self)
    }
}

/// what a JSON value stands for.
pub open spec fn model(j: Json) -> Model
    decreases j,
{
    match j {
        Json::Null => Model::Null,
        Json::Bool(b) => Model::Bool(b),
        Json::Number(n) => Model::Number(n),
        Json::Text(s) => Model::Text(s@),
        Json::Array(items) => Model::Array(item_models(items@)),
        Json::Object(fields) => {
            proof {
                Table::lemma_list_smaller(fields);
            }
            Model::Object(entry_models(fields.list()))
        },
    }
}

/// what a value that may be missing stands for.
pub open spec fn model_opt(j: Option<Json>) -> Option<Model> {
    match j {
        Some(v) => Some(model(v)),
        None => None,
    }
}

/// what a list of JSON values stands for.
pub open spec fn item_models(s: Seq<Json>) -> Seq<Model>
    decreases s,
{
    if s.len() == 0 {
        Seq::empty()
    } else {
        item_models(s.drop_last()).push(model(s.last()))
    }
}

/// what a list of fields stands for.
pub open spec fn entry_models(s: Seq<(String, Json)>) -> Map<Seq<char>, Model>
    decreases s,
{
    if s.len() == 0 {
        Map::empty()
    } else {
        entry_models(s.drop_last()).insert(s.last().0@, model(s.last().1))
    }
}

/// what the fields of an object stand for.
pub open spec fn field_models(m: Map<Seq<char>, Json>) -> Map<Seq<char>, Model> {
    m.map_values(|j: Json| model(j))
}

/// the model of a list, item by item.
pub proof fn lemma_item_models(s: Seq<Json>)
    ensures
        item_models(s).len() == s.len(),
        forall|i: int| 0 <= i < s.len() ==> #[trigger] item_models(s)[i] == model(s[i]),
    decreases s.len(),
{
    if s.len() > 0 {
        lemma_item_models(s.drop_last());
        assert forall|i: int| 0 <= i < s.len() implies #[trigger] item_models(s)[i] == model(
            s[i],
        ) by {
            if i < s.len() - 1 {
                assert(s.drop_last()[i] == s[i]);
            }
        }
    }
}

/// the model of a list of fields, field by field.
pub proof fn lemma_entry_models(s: Seq<(String, Json)>)
    ensures
        entry_models(s) == field_models(table::map_of(s)),
    decreases s.len(),
{
    if s.len() == 0 {
        assert(entry_models(s) =~= field_models(table::map_of(s)));
    } else {
        lemma_entry_models(s.drop_last());
        assert(entry_models(s) =~= field_models(table::map_of(s)));
    }
}

/// the model of an object.
pub proof fn lemma_object(fields: Table<Json>)
    ensures
        model(Json::Object(fields)) == Model::Object(field_models(fields@)),
{
    lemma_entry_models(fields.list());
}

// --- comparison ---

/// whether two numbers of `serde_json` are equal, as its `PartialEq` has it.
pub uninterp spec fn numbers_equal(a: serde_json::Number, b: serde_json::Number) -> bool;

/// whether two values are equal: numbers as `serde_json` compares them, and
/// everything else by its parts.
pub open spec fn equal(a: Model, b: Model) -> bool
    decreases a,
{
    match (a, b) {
        (Model::Null, Model::Null) => true,
        (Model::Bool(x), Model::Bool(y)) => x == y,
        (Model::Number(x), Model::Number(y)) => numbers_equal(x, y),
        (Model::Text(x), Model::Text(y)) => x == y,
        (Model::Array(x), Model::Array(y)) => x.len() == y.len() && forall|i: int|
            0 <= i < x.len() ==> equal(#[trigger] x[i], y[i]),
        (Model::Object(x), Model::Object(y)) => x.dom() == y.dom() && forall|k: Seq<char>|
            x.contains_key(k) ==> equal(#[trigger] x[k], y[k]),
        _ => false,
    }
}

/// `==` of `serde_json::Number`: what it says is named `numbers_equal`.
#[verifier::external_body]
fn same_number(a: &serde_json::Number, b: &serde_json::Number) -> (r: bool)
    ensures
        r == numbers_equal(*a, *b),
{
    a == b
}

/// whether two values are equal.
pub fn json_eq(a: &Json, b: &Json) -> (r: bool)
    ensures
        r == equal(a@, b@),
    decreases a,
{
    match (a, b) {
        (Json::Null, Json::Null) => true,
        (Json::Bool(x), Json::Bool(y)) => *x == *y,
        (Json::Number(x), Json::Number(y)) => same_number(x, y),
        (Json::Text(x), Json::Text(y)) => text::str_eq(x.as_str(), y.as_str()),
        (Json::Array(x), Json::Array(y)) => {
            proof {
                lemma_item_models(x@);
                lemma_item_models(y@);
            }
            if x.len() != y.len() {
                return false;
            }
            let mut i: usize = 0;
            while i < x.len()
                invariant
                    i <= x@.len(),
                    x@.len() == y@.len(),
                    *a == Json::Array(*x),
                    *b == Json::Array(*y),
                    item_models(x@).len() == x@.len(),
                    item_models(y@).len() == y@.len(),
                    forall|j: int| 0 <= j < x@.len() ==> #[trigger] item_models(x@)[j] == model(x@[j]),
                    forall|j: int| 0 <= j < y@.len() ==> #[trigger] item_models(y@)[j] == model(y@[j]),
                    forall|j: int|
                        0 <= j < i ==> equal(#[trigger] item_models(x@)[j], item_models(y@)[j]),
                decreases x@.len() - i,
            {
                assert(item_models(x@)[i as int] == model(x@[i as int]));
                assert(item_models(y@)[i as int] == model(y@[i as int]));
                assert(decreases_to!(*a => a->Array_0));
                assert(decreases_to!(*x => x@));
                assert(decreases_to!(x@ => x@[i as int]));
                if !json_eq(&x[i], &y[i]) {
                    return false;
                }
                i += 1;
            }
            true
        },
        (Json::Object(x), Json::Object(y)) => {
            proof {
                lemma_object(*x);
                lemma_object(*y);
                Table::lemma_list_smaller(*x);
            }
            let n = x.len();
            if n != y.len() {
                proof {
                    lemma_lengths_differ(x.list(), y.list());
                }
                return false;
            }
            let mut i: usize = 0;
            while i < n
                invariant
                    i <= n,
                    n == x.list().len(),
                    n == y.list().len(),
                    *a == Json::Object(*x),
                    *b == Json::Object(*y),
                    table::sorted(x.list()),
                    table::sorted(y.list()),
                    a@ == Model::Object(field_models(x@)),
                    b@ == Model::Object(field_models(y@)),
                    decreases_to!(*x => x.list()),
                    forall|j: int|
                        0 <= j < i ==> #[trigger] x.list()[j].0@ == y.list()[j].0@ && equal(
                            model(x.list()[j].1),
                            model(y.list()[j].1),
                        ),
                decreases n - i,
            {
                let kx = x.key_at(i);
                let ky = y.key_at(i);
                if !text::str_eq(kx.as_str(), ky.as_str()) {
                    proof {
                        lemma_keys_differ(x.list(), y.list(), i as int);
                    }
                    return false;
                }
                assert(decreases_to!(x.list() => x.list()[i as int]));
                if !json_eq(x.value_at(i), y.value_at(i)) {
                    assert(!equal(field_models(x@)[kx@], field_models(y@)[kx@]));
                    return false;
                }
                assert(x.list()[i as int].0@ == y.list()[i as int].0@);
                assert(equal(model(x.list()[i as int].1), model(y.list()[i as int].1)));
                assert forall|j: int| 0 <= j < i + 1 implies #[trigger] x.list()[j].0@
                    == y.list()[j].0@ && equal(
                    model(x.list()[j].1),
                    model(y.list()[j].1),
                ) by {
                    if j < i {
                        assert(x.list()[j].0@ == y.list()[j].0@);
                    }
                }
                i += 1;
            }
            proof {
                let fx = field_models(x@);
                let fy = field_models(y@);
                table::lemma_map_of(x.list());
                table::lemma_map_of(y.list());
                assert forall|k: Seq<char>| fx.contains_key(k) == fy.contains_key(k) by {
                    if fx.contains_key(k) {
                        assert(x@.contains_key(k));
                        let j = choose|j: int| 0 <= j < n && #[trigger] x.list()[j].0@ == k;
                        assert(y.list()[j].0@ == k);
                    }
                    if fy.contains_key(k) {
                        assert(y@.contains_key(k));
                        let j = choose|j: int| 0 <= j < n && #[trigger] y.list()[j].0@ == k;
                        assert(x.list()[j].0@ == k);
                    }
                }
                assert(fx.dom() =~= fy.dom());
                assert forall|k: Seq<char>| fx.contains_key(k) implies equal(
                    #[trigger] fx[k],
                    fy[k],
                ) by {
                    assert(x@.contains_key(k));
                    let j = choose|j: int| 0 <= j < n && #[trigger] x.list()[j].0@ == k;
                    assert(y.list()[j].0@ == k);
                }
            }
            true
        },
        _ => false,
    }
}

/// the keys of the entries `s[0..n]`.
spec fn keys_of(s: Seq<(String, Json)>) -> Set<Seq<char>> {
    table::map_of(s).dom()
}

/// sorted lists of different lengths have different keys.
proof fn lemma_lengths_differ(s: Seq<(String, Json)>, t: Seq<(String, Json)>)
    requires
        table::sorted(s),
        table::sorted(t),
        s.len() != t.len(),
    ensures
        field_models(table::map_of(s)).dom() != field_models(table::map_of(t)).dom(),
{
    lemma_key_count(s);
    lemma_key_count(t);
    assert(field_models(table::map_of(s)).dom() =~= keys_of(s));
    assert(field_models(table::map_of(t)).dom() =~= keys_of(t));
}

/// a sorted list has as many keys as entries.
proof fn lemma_key_count(s: Seq<(String, Json)>)
    requires
        table::sorted(s),
    ensures
        keys_of(s).finite(),
        keys_of(s).len() == s.len(),
    decreases s.len(),
{
    if s.len() == 0 {
        assert(keys_of(s) =~= Set::empty());
    } else {
        let t = s.drop_last();
        assert forall|a: int, b: int| 0 <= a < b < t.len() implies text::before(
            #[trigger] t[a].0@,
            #[trigger] t[b].0@,
        ) by {
            assert(t[a] == s[a] && t[b] == s[b]);
        }
        lemma_key_count(t);
        let k = s.last().0@;
        if keys_of(t).contains(k) {
            table::lemma_key(t, k);
            let i = choose|i: int| 0 <= i < t.len() && #[trigger] t[i].0@ == k;
            assert(text::before(s[i].0@, s.last().0@));
            text::lemma_before_irreflexive(k);
        }
        assert(keys_of(s) =~= keys_of(t).insert(k));
    }
}

/// sorted lists that agree before `i` and differ in the key at `i` have
/// different keys.
proof fn lemma_keys_differ(s: Seq<(String, Json)>, t: Seq<(String, Json)>, i: int)
    requires
        table::sorted(s),
        table::sorted(t),
        s.len() == t.len(),
        0 <= i < s.len(),
        forall|j: int| 0 <= j < i ==> #[trigger] s[j].0@ == t[j].0@,
        s[i].0@ != t[i].0@,
    ensures
        field_models(table::map_of(s)).dom() != field_models(table::map_of(t)).dom(),
{
    text::lemma_before_total(s[i].0@, t[i].0@);
    if text::before(s[i].0@, t[i].0@) {
        lemma_smaller_key_missing(s, t, i);
    } else {
        assert forall|j: int| 0 <= j < i implies #[trigger] t[j].0@ == s[j].0@ by {
            assert(s[j].0@ == t[j].0@);
        }
        lemma_smaller_key_missing(t, s, i);
    }
}

/// the smaller one of two keys at which the lists first differ is missing in
/// the other list.
proof fn lemma_smaller_key_missing(s: Seq<(String, Json)>, t: Seq<(String, Json)>, i: int)
    requires
        table::sorted(s),
        table::sorted(t),
        s.len() == t.len(),
        0 <= i < s.len(),
        forall|j: int| 0 <= j < i ==> #[trigger] s[j].0@ == t[j].0@,
        text::before(s[i].0@, t[i].0@),
    ensures
        field_models(table::map_of(s)).dom().contains(s[i].0@),
        !field_models(table::map_of(t)).dom().contains(s[i].0@),
{
    let k = s[i].0@;
    table::lemma_entry(s, i);
    if table::map_of(t).contains_key(k) {
        table::lemma_key(t, k);
        let j = choose|j: int| 0 <= j < t.len() && #[trigger] t[j].0@ == k;
        text::lemma_before_irreflexive(k);
        if j < i {
            assert(s[j].0@ == t[j].0@);
            assert(text::before(s[j].0@, s[i].0@));
        } else if j > i {
            assert(text::before(t[i].0@, t[j].0@));
            text::lemma_before_asymmetric(s[i].0@, t[i].0@);
        }
    }
}

// --- building and reading values ---

/// `clone` of `serde_json::Number` gives the same number.
pub assume_specification[ <serde_json::Number as Clone>::clone ](n: &serde_json::Number) -> (r:
    serde_json::Number)
    ensures
        r == *n,
;

/// `serde_json::Number::from` for `u64`: the number is named `number_of`.
pub uninterp spec fn number_of(n: u64) -> serde_json::Number;

/// `From<u64>` of `serde_json::Number`.
#[verifier::external_body]
fn number_from(n: u64) -> (r: serde_json::Number)
    ensures
        r == number_of(n),
{
    serde_json::Number::from(n)
}

/// `serde_json::Number::from` for `i64`: the number is named `number_of_int`.
pub uninterp spec fn number_of_int(n: i64) -> serde_json::Number;

/// `From<i64>` of `serde_json::Number`.
#[verifier::external_body]
fn number_from_int(n: i64) -> (r: serde_json::Number)
    ensures
        r == number_of_int(n),
{
    serde_json::Number::from(n)
}

impl Json {
    /// a string.
    pub fn text(s: &str) -> (r: Json)
        ensures
            r@ == Model::Text(s@),
    {
        Json::Text(s.to_owned())
    }

    /// a whole number.
    pub fn number(n: u64) -> (r: Json)
        ensures
            r@ == Model::Number(number_of(n)),
    {
        Json::Number(number_from(n))
    }

    /// a whole number that may be negative.
    pub fn integer(n: i64) -> (r: Json)
        ensures
            r@ == Model::Number(number_of_int(n)),
    {
        Json::Number(number_from_int(n))
    }

    /// an array.
    pub fn array(items: Vec<Json>) -> (r: Json)
        ensures
            r@ == Model::Array(item_models(items@)),
    {
        Json::Array(items)
    }

    /// an object.
    pub fn object(fields: Table<Json>) -> (r: Json)
        ensures
            r@ == Model::Object(field_models(fields@)),
    {
        proof {
            lemma_object(fields);
        }
        Json::Object(fields)
    }

    /// the text of a string.
    pub fn as_str(&self) -> (r: Option<&String>)
        ensures
            match r {
                Some(s) => self@ == Model::Text(s@),
                None => !(self@ is Text),
            },
    {
        match self {
            Json::Text(s) => Some(s),
            _ => None,
        }
    }

    /// the items of an array.
    pub fn as_array(&self) -> (r: Option<&Vec<Json>>)
        ensures
            match r {
                Some(items) => self@ == Model::Array(item_models(items@)),
                None => !(self@ is Array),
            },
    {
        match self {
            Json::Array(items) => Some(items),
            _ => None,
        }
    }

    /// the fields of an object.
    pub fn as_object(&self) -> (r: Option<&Table<Json>>)
        ensures
            match r {
                Some(fields) => self@ == Model::Object(field_models(fields@)),
                None => !(self@ is Object),
            },
    {
        match self {
            Json::Object(fields) => {
                proof {
                    lemma_object(*fields);
                }
                Some(fields)
            },
            _ => None,
        }
    }

    /// the field of an object under the given key.
    pub fn get(&self, key: &str) -> (r: Option<&Json>)
        ensures
            match r {
                Some(j) => field(self@, key@) == Some(j@),
                None => field(self@, key@) is None,
            },
    {
        match self.as_object() {
            Some(fields) => fields.get(key),
            None => None,
        }
    }

    /// an independent copy.
    pub fn copy(&self) -> (r: Json)
        ensures
            r@ == self@,
        decreases self,
    {
        match self {
            Json::Null => Json::Null,
            Json::Bool(b) => Json::Bool(*b),
            Json::Number(n) => Json::Number(n.clone()),
            Json::Text(s) => Json::Text(s.clone()),
            Json::Array(items) => {
                let mut out: Vec<Json> = Vec::new();
                let mut i: usize = 0;
                assert(items@.take(0) =~= Seq::empty());
                while i < items.len()
                    invariant
                        i <= items@.len(),
                        *self == Json::Array(*items),
                        item_models(out@) == item_models(items@.take(i as int)),
                    decreases items@.len() - i,
                {
                    assert(decreases_to!(*self => self->Array_0));
                    assert(decreases_to!(*items => items@));
                    assert(decreases_to!(items@ => items@[i as int]));
                    let ghost before = out@;
                    out.push(items[i].copy());
                    assert(out@.drop_last() =~= before);
                    assert(items@.take(i + 1).drop_last() =~= items@.take(i as int));
                    i += 1;
                }
                assert(items@.take(items@.len() as int) =~= items@);
                Json::Array(out)
            },
            Json::Object(fields) => {
                proof {
                    lemma_object(*fields);
                }
                assert(decreases_to!(*self => self->Object_0));
                let out = copy_fields(fields);
                Json::object(out)
            },
        }
    }
}

/// an independent copy of the fields of an object.
pub fn copy_fields(fields: &Table<Json>) -> (r: Table<Json>)
    ensures
        field_models(r@) == field_models(fields@),
    decreases fields,
{
    proof {
        lemma_entry_models(fields.list());
        Table::lemma_list_smaller(*fields);
    }
    let mut out: Table<Json> = Table::new();
    let n = fields.len();
    let mut i: usize = 0;
    assert(fields.list().take(0) =~= Seq::empty());
    assert(field_models(out@) =~= Map::empty());
    while i < n
        invariant
            i <= n,
            n == fields.list().len(),
            decreases_to!(*fields => fields.list()),
            field_models(out@) == entry_models(fields.list().take(i as int)),
        decreases n - i,
    {
        assert(decreases_to!(fields.list() => fields.list()[i as int]));
        assert(fields.list().take(i + 1).drop_last() =~= fields.list().take(i as int));
        let key = fields.key_at(i).clone();
        let value = fields.value_at(i).copy();
        put(&mut out, key, value);
        i += 1;
    }
    assert(fields.list().take(n as int) =~= fields.list());
    out
}

/// takes a field out.
pub fn take(fields: &mut Table<Json>, key: &str) -> (r: Option<Json>)
    ensures
        field_models(final(fields)@) == field_models(old(fields)@).remove(key@),
        match r {
            Some(j) => field(Model::Object(field_models(old(fields)@)), key@) == Some(j@),
            None => !field_models(old(fields)@).contains_key(key@),
        },
{
    let ghost before = fields@;
    let r = fields.remove(key);
    assert(field_models(fields@) =~= field_models(before).remove(key@));
    r
}

/// the field of an object under the given key.
pub open spec fn field(m: Model, key: Seq<char>) -> Option<Model> {
    match m {
        Model::Object(fields) => if fields.contains_key(key) {
            Some(fields[key])
        } else {
            None
        },
        _ => None,
    }
}

/// the text of a string.
pub open spec fn text_in(m: Option<Model>) -> Option<Seq<char>> {
    match m {
        Some(Model::Text(s)) => Some(s),
        _ => None,
    }
}

/// an independent copy of a list of values.
pub fn copy_items(items: &Vec<Json>) -> (r: Vec<Json>)
    ensures
        item_models(r@) == item_models(items@),
{
    let mut out: Vec<Json> = Vec::new();
    let mut i: usize = 0;
    while i < items.len()
        invariant
            i <= items@.len(),
            out@.len() == i,
            forall|j: int| 0 <= j < i ==> model(#[trigger] out@[j]) == model(items@[j]),
        decreases items@.len() - i,
    {
        out.push(items[i].copy());
        i += 1;
    }
    proof {
        lemma_item_models(out@);
        lemma_item_models(items@);
        assert(item_models(out@) =~= item_models(items@));
    }
    out
}

/// sets a field.
pub fn put(fields: &mut Table<Json>, key: String, value: Json)
    ensures
        field_models(final(fields)@) == field_models(old(fields)@).insert(key@, value@),
{
    let ghost before = fields@;
    let ghost k = key@;
    let ghost v = value@;
    fields.insert(key, value);
    assert(field_models(fields@) =~= field_models(before).insert(k, v));
}

/// the given fields with one more.
pub fn with(fields: Table<Json>, key: &str, value: Json) -> (r: Table<Json>)
    ensures
        field_models(r@) == field_models(fields@).insert(key@, value@),
{
    let mut r = fields;
    put(&mut r, key.to_owned(), value);
    r
}

/// no fields.
pub fn no_fields() -> (r: Table<Json>)
    ensures
        field_models(r@) == Map::<Seq<char>, Model>::empty(),
{
    let r: Table<Json> = Table::new();
    assert(field_models(r@) =~= Map::empty());
    r
}

/// an array of strings.
pub open spec fn text_models(list: Seq<Seq<char>>) -> Seq<Model> {
    Seq::new(list.len(), |i: int| Model::Text(list[i]))
}

/// an array of strings.
pub fn text_array(list: &[String]) -> (r: Json)
    ensures
        r@ == Model::Array(text_models(text::texts(list@))),
{
    let mut out: Vec<Json> = Vec::new();
    let mut i: usize = 0;
    while i < list.len()
        invariant
            i <= list@.len(),
            out@.len() == i,
            forall|j: int| 0 <= j < i ==> model(#[trigger] out@[j]) == Model::Text(list@[j]@),
        decreases list@.len() - i,
    {
        out.push(Json::text(list[i].as_str()));
        i += 1;
    }
    proof {
        lemma_item_models(out@);
        assert(item_models(out@) =~= text_models(text::texts(list@)));
    }
    Json::Array(out)
}

// --- the bridge to serde_json ---

/// a value of `serde_json`; what it holds is named `contents`.
#[verifier::external_type_specification]
#[verifier::external_body]
pub struct ExValue(serde_json::Value);

/// an error of `serde_json`.
#[verifier::external_type_specification]
#[verifier::external_body]
pub struct ExError(serde_json::Error);

/// what a value of `serde_json` holds.
pub uninterp spec fn contents(v: serde_json::Value) -> Model;

/// the outermost layer of a value, for reading.
enum Layer<'a> {
    Null,
    Bool(bool),
    Number(&'a serde_json::Number),
    Text(&'a String),
    Array(&'a Vec<serde_json::Value>),
    Object(Vec<(&'a String, &'a serde_json::Value)>),
}

/// the outermost layer of a value, for building.
enum Parts {
    Null,
    Bool(bool),
    Number(serde_json::Number),
    Text(String),
    Array(Vec<serde_json::Value>),
    Object(Vec<(String, serde_json::Value)>),
}

/// what a list of values holds.
spec fn item_contents(s: Seq<serde_json::Value>) -> Seq<Model> {
    Seq::new(s.len(), |i: int| contents(s[i]))
}

/// what a list of fields without repeated keys holds.
spec fn entry_contents(s: Seq<(String, serde_json::Value)>) -> Map<Seq<char>, Model>
    decreases s.len(),
{
    if s.len() == 0 {
        Map::empty()
    } else {
        entry_contents(s.drop_last()).insert(s.last().0@, contents(s.last().1))
    }
}

/// what a list of borrowed fields without repeated keys holds.
spec fn borrowed_contents(s: Seq<(&String, &serde_json::Value)>) -> Map<Seq<char>, Model>
    decreases s.len(),
{
    if s.len() == 0 {
        Map::empty()
    } else {
        borrowed_contents(s.drop_last()).insert(s.last().0@, contents(*s.last().1))
    }
}

/// what the outermost layer of a value says of its contents.
spec fn layer_contents(l: Layer<'_>) -> Model {
    match l {
        Layer::Null => Model::Null,
        Layer::Bool(b) => Model::Bool(b),
        Layer::Number(n) => Model::Number(*n),
        Layer::Text(s) => Model::Text(s@),
        Layer::Array(items) => Model::Array(item_contents(items@)),
        Layer::Object(fields) => Model::Object(borrowed_contents(fields@)),
    }
}

/// what the outermost layer of a value says of its contents.
spec fn parts_contents(p: Parts) -> Model {
    match p {
        Parts::Null => Model::Null,
        Parts::Bool(b) => Model::Bool(b),
        Parts::Number(n) => Model::Number(n),
        Parts::Text(s) => Model::Text(s@),
        Parts::Array(items) => Model::Array(item_contents(items@)),
        Parts::Object(fields) => Model::Object(entry_contents(fields@)),
    }
}

/// tells the variants of `serde_json::Value` apart: the layer holds the same,
/// and the fields of an object are those of its map, each key once.
#[verifier::external_body]
fn open_value<'a>(v: &'a serde_json::Value) -> (r: Layer<'a>)
    ensures
        contents(*v) == layer_contents(r),
        r matches Layer::Object(fields) ==> distinct_keys(fields@),
{
    match v {
        serde_json::Value::Null => Layer::Null,
        serde_json::Value::Bool(b) => Layer::Bool(*b),
        serde_json::Value::Number(n) => Layer::Number(n),
        serde_json::Value::String(s) => Layer::Text(s),
        serde_json::Value::Array(items) => Layer::Array(items),
        serde_json::Value::Object(fields) => Layer::Object(fields.iter().collect()),
    }
}

/// builds a `serde_json::Value` from its outermost layer: it holds the same. the
/// map of an object is collected from its fields, each key once.
#[verifier::external_body]
fn close_value(p: Parts) -> (r: serde_json::Value)
    requires
        p matches Parts::Object(fields) ==> distinct_names(fields@),
    ensures
        contents(r) == parts_contents(p),
{
    match p {
        Parts::Null => serde_json::Value::Null,
        Parts::Bool(b) => serde_json::Value::Bool(b),
        Parts::Number(n) => serde_json::Value::Number(n),
        Parts::Text(s) => serde_json::Value::String(s),
        Parts::Array(items) => serde_json::Value::Array(items),
        Parts::Object(fields) => serde_json::Value::Object(fields.into_iter().collect()),
    }
}

/// no key stands twice in the list.
spec fn distinct_names(s: Seq<(String, serde_json::Value)>) -> bool {
    forall|i: int, j: int| 0 <= i < j < s.len() ==> (#[trigger] s[i]).0@ != (#[trigger] s[j]).0@
}

/// no key stands twice in the list of borrowed fields.
spec fn distinct_keys(s: Seq<(&String, &serde_json::Value)>) -> bool {
    forall|i: int, j: int| 0 <= i < j < s.len() ==> (#[trigger] s[i]).0@ != (#[trigger] s[j]).0@
}

/// a list has finitely many keys.
proof fn lemma_borrowed_finite(s: Seq<(&String, &serde_json::Value)>)
    ensures
        borrowed_contents(s).dom().finite(),
    decreases s.len(),
{
    if s.len() > 0 {
        lemma_borrowed_finite(s.drop_last());
    }
}

/// each field of a list without repeated keys counts.
proof fn lemma_borrowed(s: Seq<(&String, &serde_json::Value)>, i: int)
    requires
        distinct_keys(s),
        0 <= i < s.len(),
    ensures
        borrowed_contents(s).contains_key(s[i].0@),
        borrowed_contents(s)[s[i].0@] == contents(*s[i].1),
    decreases s.len(),
{
    if i < s.len() - 1 {
        let t = s.drop_last();
        assert forall|a: int, b: int| 0 <= a < b < t.len() implies (#[trigger] t[a]).0@ != (
        #[trigger] t[b]).0@ by {
            assert(t[a] == s[a] && t[b] == s[b]);
        }
        lemma_borrowed(t, i);
        assert(s[i].0@ != s[s.len() - 1].0@);
    }
}

/// the library's value for one of `serde_json`.
pub fn from_value(v: &serde_json::Value) -> (r: Json)
    ensures
        r@ == contents(*v),
    decreases contents(*v),
{
    match open_value(v) {
        Layer::Null => Json::Null,
        Layer::Bool(b) => Json::Bool(b),
        Layer::Number(n) => Json::Number(n.clone()),
        Layer::Text(s) => Json::Text(s.clone()),
        Layer::Array(items) => {
            let mut out: Vec<Json> = Vec::new();
            let mut i: usize = 0;
            while i < items.len()
                invariant
                    i <= items@.len(),
                    contents(*v) == Model::Array(item_contents(items@)),
                    out@.len() == i,
                    forall|j: int| 0 <= j < i ==> model(#[trigger] out@[j]) == contents(items@[j]),
                decreases items@.len() - i,
            {
                proof {
                    let whole = contents(*v);
                    assert(decreases_to!(whole => whole->Array_0));
                    assert(decreases_to!(item_contents(items@) => item_contents(items@)[i as int]));
                }
                out.push(from_value(&items[i]));
                i += 1;
            }
            proof {
                lemma_item_models(out@);
                assert(item_models(out@) =~= item_contents(items@));
            }
            Json::Array(out)
        },
        Layer::Object(fields) => {
            let mut out: Table<Json> = Table::new();
            let n = fields.len();
            let mut i: usize = 0;
            assert(field_models(out@) =~= Map::empty());
            assert(fields@.take(0) =~= Seq::empty());
            while i < n
                invariant
                    i <= n,
                    n == fields@.len(),
                    contents(*v) == Model::Object(borrowed_contents(fields@)),
                    distinct_keys(fields@),
                    field_models(out@) == borrowed_contents(fields@.take(i as int)),
                decreases n - i,
            {
                proof {
                    lemma_borrowed(fields@, i as int);
                    lemma_borrowed_finite(fields@);
                    let whole = contents(*v);
                    assert(decreases_to!(whole => whole->Object_0));
                    assert(decreases_to!(borrowed_contents(fields@) => borrowed_contents(fields@)[fields@[i as int].0@]));
                    assert(fields@.take(i + 1).drop_last() =~= fields@.take(i as int));
                }
                let key = fields[i].0.clone();
                let value = from_value(fields[i].1);
                put(&mut out, key, value);
                i += 1;
            }
            assert(fields@.take(n as int) =~= fields@);
            Json::object(out)
        },
    }
}

/// the `serde_json` value for one of the library's.
pub fn to_value(j: &Json) -> (r: serde_json::Value)
    ensures
        contents(r) == j@,
    decreases j,
{
    match j {
        Json::Null => close_value(Parts::Null),
        Json::Bool(b) => close_value(Parts::Bool(*b)),
        Json::Number(n) => close_value(Parts::Number(n.clone())),
        Json::Text(s) => close_value(Parts::Text(s.clone())),
        Json::Array(items) => {
            let mut out: Vec<serde_json::Value> = Vec::new();
            let mut i: usize = 0;
            while i < items.len()
                invariant
                    i <= items@.len(),
                    *j == Json::Array(*items),
                    out@.len() == i,
                    forall|k: int| 0 <= k < i ==> contents(#[trigger] out@[k]) == model(items@[k]),
                decreases items@.len() - i,
            {
                assert(decreases_to!(*j => j->Array_0));
                assert(decreases_to!(*items => items@));
                assert(decreases_to!(items@ => items@[i as int]));
                out.push(to_value(&items[i]));
                i += 1;
            }
            proof {
                lemma_item_models(items@);
                assert(item_contents(out@) =~= item_models(items@));
            }
            close_value(Parts::Array(out))
        },
        Json::Object(fields) => {
            proof {
                Table::lemma_list_smaller(*fields);
            }
            let mut out: Vec<(String, serde_json::Value)> = Vec::new();
            let n = fields.len();
            let mut i: usize = 0;
            assert(fields.list().take(0) =~= Seq::empty());
            while i < n
                invariant
                    i <= n,
                    n == fields.list().len(),
                    *j == Json::Object(*fields),
                    decreases_to!(*fields => fields.list()),
                    table::sorted(fields.list()),
                    out@.len() == i,
                    forall|k: int| 0 <= k < i ==> (#[trigger] out@[k]).0@ == fields.list()[k].0@,
                    entry_contents(out@) == entry_models(fields.list().take(i as int)),
                decreases n - i,
            {
                assert(decreases_to!(*j => j->Object_0));
                assert(decreases_to!(fields.list() => fields.list()[i as int]));
                assert(fields.list().take(i + 1).drop_last() =~= fields.list().take(i as int));
                let key = fields.key_at(i).clone();
                let value = to_value(fields.value_at(i));
                let ghost before = out@;
                out.push((key, value));
                assert(out@.drop_last() =~= before);
                i += 1;
            }
            proof {
                assert(fields.list().take(n as int) =~= fields.list());
                assert forall|a: int, b: int| 0 <= a < b < out@.len() implies (#[trigger] out@[a]).0@
                    != (#[trigger] out@[b]).0@ by {
                    assert(text::before(fields.list()[a].0@, fields.list()[b].0@));
                    text::lemma_before_irreflexive(fields.list()[a].0@);
                }
            }
            close_value(Parts::Object(out))
        },
    }
}

/// what `serde_json::from_str` reads as a `Value` from a text, or what its
/// error says.
pub uninterp spec fn parsed(text: Seq<char>) -> Result<Model, Seq<char>>;

/// what an error of `serde_json` says (its `Display`).
pub uninterp spec fn error_text(e: serde_json::Error) -> Seq<char>;

/// how `serde_json` writes a value on one line (`Display` of `Value`).
pub uninterp spec fn rendered(m: Model) -> Seq<char>;

/// how `serde_json::to_string_pretty` writes a value.
pub uninterp spec fn pretty(m: Model) -> Seq<char>;

/// how `serde_json::to_vec` writes a value.
pub uninterp spec fn encoded(m: Model) -> Seq<u8>;

/// `serde_json::from_str` for `Value`: what it reads is named `parsed`.
#[verifier::external_body]
fn read_value(text: &str) -> (r: Result<serde_json::Value, serde_json::Error>)
    ensures
        match r {
            Ok(v) => parsed(text@) == Ok::<Model, Seq<char>>(contents(v)),
            Err(e) => parsed(text@) == Err::<Model, Seq<char>>(error_text(e)),
        },
{
    serde_json::from_str::<serde_json::Value>(text)
}

/// `to_string` of `serde_json::Value`, by its `Display`: the text is named
/// `rendered`.
#[verifier::external_body]
fn show_value(v: &serde_json::Value) -> (r: String)
    ensures
        r@ == rendered(contents(*v)),
{
    v.to_string()
}

/// `serde_json::to_string_pretty` for `Value`: the text is named `pretty`. it
/// fails only where a `Serialize` does or a key is no string, and neither
/// happens for a `Value`.
#[verifier::external_body]
fn show_value_pretty(v: &serde_json::Value) -> (r: Result<String, serde_json::Error>)
    ensures
        r is Ok,
        r->Ok_0@ == pretty(contents(*v)),
{
    serde_json::to_string_pretty(v)
}

/// `serde_json::to_vec` for `Value`: the bytes are named `encoded`. it fails
/// only where a `Serialize` does or a key is no string, and neither happens for
/// a `Value`.
#[verifier::external_body]
fn encode_value(v: &serde_json::Value) -> (r: Result<Vec<u8>, serde_json::Error>)
    ensures
        r is Ok,
        r->Ok_0@ == encoded(contents(*v)),
{
    serde_json::to_vec(v)
}

/// `to_string` of `serde_json::Error`, by its `Display`: the text is named
/// `error_text`.
#[verifier::external_body]
fn show_error(e: &serde_json::Error) -> (r: String)
    ensures
        r@ == error_text(*e),
{
    e.to_string()
}

/// reads a JSON text; an error carries the message of `serde_json`.
pub fn parse_json(text: &str) -> (r: Result<Json, String>)
    ensures
        match r {
            Ok(j) => parsed(text@) == Ok::<Model, Seq<char>>(j@),
            Err(e) => parsed(text@) == Err::<Model, Seq<char>>(e@),
        },
{
    match read_value(text) {
        Ok(v) => Ok(from_value(&v)),
        Err(e) => Err(show_error(&e)),
    }
}

impl Json {
    /// the value on one line.
    pub fn render(&self) -> (r: String)
        ensures
            r@ == rendered(self@),
    {
        show_value(&to_value(self))
    }

    /// the value over several lines, indented; an error carries the message of
    /// `serde_json`.
    pub fn render_pretty(&self) -> (r: Result<String, String>)
        ensures
            r matches Ok(s) && s@ == pretty(self@),
    {
        match show_value_pretty(&to_value(self)) {
            Ok(s) => Ok(s),
            Err(e) => Err(show_error(&e)),
        }
    }

    /// the bytes of the value; an error carries the message of `serde_json`.
    pub fn encode(&self) -> (r: Result<Vec<u8>, String>)
        ensures
            r matches Ok(bytes) && bytes@ == encoded(self@),
    {
        match encode_value(&to_value(self)) {
            Ok(bytes) => Ok(bytes),
            Err(e) => Err(show_error(&e)),
        }
    }
}

// --- laws ---

/// a value stands for what it holds: the value itself, the text, the items in their
/// order, or the fields by their keys.
pub proof fn law_models(
    b: bool,
    n: serde_json::Number,
    s: String,
    items: Vec<Json>,
    fields: Table<Json>,
    i: int,
    k: Seq<char>,
)
    ensures
        Json::Null@ == Model::Null,
        Json::Bool(b)@ == Model::Bool(b),
        Json::Number(n)@ == Model::Number(n),
        Json::Text(s)@ == Model::Text(s@),
        Json::Array(items)@ is Array,
        Json::Array(items)@->Array_0.len() == items@.len(),
        0 <= i < items@.len() ==> Json::Array(items)@->Array_0[i] == items@[i]@,
        Json::Object(fields)@ is Object,
        Json::Object(fields)@->Object_0.contains_key(k) == fields@.contains_key(k),
        fields@.contains_key(k) ==> Json::Object(fields)@->Object_0[k] == fields@[k]@,
{
    lemma_item_models(items@);
    lemma_object(fields);
}

/// values of different kinds are unequal; truth values and texts are equal where
/// they are the same.
pub proof fn law_equal_scalars(a: bool, b: bool, s: Seq<char>, t: Seq<char>, x: Model, y: Model)
    ensures
        equal(Model::Null, Model::Null),
        equal(Model::Bool(a), Model::Bool(b)) <==> a == b,
        equal(Model::Text(s), Model::Text(t)) <==> s == t,
        equal(x, y) ==> (x is Null <==> y is Null) && (x is Bool <==> y is Bool) && (x is Number
            <==> y is Number) && (x is Text <==> y is Text) && (x is Array <==> y is Array) && (x
            is Object <==> y is Object),
{
}

/// lists are equal item by item.
pub proof fn law_equal_lists(a: Seq<Model>, b: Seq<Model>, x: Model, y: Model)
    ensures
        equal(Model::Array(Seq::empty()), Model::Array(Seq::empty())),
        equal(Model::Array(a.push(x)), Model::Array(b.push(y))) <==> equal(
            Model::Array(a),
            Model::Array(b),
        ) && equal(x, y),
        a.len() != b.len() ==> !equal(Model::Array(a), Model::Array(b)),
{
    let p = a.push(x);
    let q = b.push(y);
    if equal(Model::Array(p), Model::Array(q)) {
        assert(equal(p[a.len() as int], q[a.len() as int]));
        assert forall|i: int| 0 <= i < a.len() implies equal(#[trigger] a[i], b[i]) by {
            assert(equal(p[i], q[i]));
        }
    }
    if equal(Model::Array(a), Model::Array(b)) && equal(x, y) {
        assert forall|i: int| 0 <= i < p.len() implies equal(#[trigger] p[i], q[i]) by {
            if i < a.len() {
                assert(equal(a[i], b[i]));
            }
        }
    }
}

/// objects are equal where they have the same keys and equal values under them.
pub proof fn law_equal_objects(a: Map<Seq<char>, Model>, b: Map<Seq<char>, Model>, k: Seq<char>)
    requires
        equal(Model::Object(a), Model::Object(b)),
    ensures
        a.contains_key(k) == b.contains_key(k),
        a.contains_key(k) ==> equal(a[k], b[k]),
{
    assert(a.dom().contains(k) == b.dom().contains(k));
}

/// the field under a key is what was last put there.
pub proof fn law_field(f: Map<Seq<char>, Model>, k: Seq<char>, j: Seq<char>, v: Model)
    ensures
        field(Model::Object(f.insert(k, v)), k) == Some(v),
        j != k ==> field(Model::Object(f.insert(k, v)), j) == field(Model::Object(f), j),
        field(Model::Object(f), k) is Some <==> f.contains_key(k),
        field(Model::Null, k) is None,
        text_in(Some(v)) is Some <==> v is Text,
        v is Text ==> text_in(Some(v)) == Some(v->Text_0),
        text_in(None) is None,
{
}

} // verus!
