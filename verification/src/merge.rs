//! the composability rules of hook responses: how the JSON lines of a script,
//! and the responses of several scripts, become one object.

use crate::json;
use crate::json::{Json, Model};
use crate::table;
use crate::table::Table;
use crate::text;
use vstd::prelude::*;

verus! {

// --- fields ---

/// the fields whose values are lists; they are put one behind the other.
pub open spec fn is_list_field(key: Seq<char>) -> bool {
    ||| key == "system"@
    ||| key == "tools"@
    ||| key == "notifications"@
    ||| key == "actions"@
    ||| key == "modified"@
    ||| key == "notify"@
}

/// the fields whose values are texts; they are joined by line feeds.
pub open spec fn is_text_field(key: Seq<char>) -> bool {
    ||| key == "continue"@
    ||| key == "prompt"@
    ||| key == "user"@
    ||| key == "message"@
    ||| key == "result"@
}

/// a value as text: a string as it is, anything else as JSON.
pub open spec fn plain_text(m: Model) -> Seq<char> {
    match m {
        Model::Text(s) => s,
        _ => json::rendered(m),
    }
}

/// a value as a list: an array as it is, anything else as the only item.
pub open spec fn items_in(m: Model) -> Seq<Model> {
    match m {
        Model::Array(items) => items,
        _ => seq![m],
    }
}

/// the text of a text field after one more text came in.
pub open spec fn joined(old: Option<Model>, s: Seq<char>) -> Model {
    match old {
        Some(Model::Text(e)) => Model::Text(e + seq!['\n'] + s),
        _ => Model::Text(s),
    }
}

/// the value of a field after one more value came in: lists grow, texts are
/// joined, and any other field is replaced. a list field that holds no list
/// keeps what it holds.
pub open spec fn merged_value(key: Seq<char>, old: Option<Model>, new: Model) -> Model {
    if is_list_field(key) {
        match old {
            None => Model::Array(items_in(new)),
            Some(Model::Array(items)) => Model::Array(items + items_in(new)),
            Some(other) => other,
        }
    } else if is_text_field(key) {
        joined(old, plain_text(new))
    } else {
        new
    }
}

/// what stands under a key.
pub open spec fn at(fields: Map<Seq<char>, Model>, key: Seq<char>) -> Option<Model> {
    if fields.contains_key(key) {
        Some(fields[key])
    } else {
        None
    }
}

/// the fields after one more value came in.
pub open spec fn merged(acc: Map<Seq<char>, Model>, key: Seq<char>, value: Model) -> Map<
    Seq<char>,
    Model,
> {
    acc.insert(key, merged_value(key, at(acc, key), value))
}

/// the fields after all fields of an object came in.
pub open spec fn merged_object(
    acc: Map<Seq<char>, Model>,
    obj: Map<Seq<char>, Model>,
) -> Map<Seq<char>, Model> {
    Map::new(
        |k: Seq<char>| acc.contains_key(k) || obj.contains_key(k),
        |k: Seq<char>|
            if obj.contains_key(k) {
                merged_value(k, at(acc, k), obj[k])
            } else {
                acc[k]
            },
    )
}

/// whether the values of a field are lists.
fn list_field(key: &str) -> (r: bool)
    ensures
        r == is_list_field(key@),
{
    text::str_eq(key, "system") || text::str_eq(key, "tools") || text::str_eq(
        key,
        "notifications",
    ) || text::str_eq(key, "actions") || text::str_eq(key, "modified") || text::str_eq(
        key,
        "notify",
    )
}

/// whether the values of a field are texts.
fn text_field(key: &str) -> (r: bool)
    ensures
        r == is_text_field(key@),
{
    text::str_eq(key, "continue") || text::str_eq(key, "prompt") || text::str_eq(key, "user")
        || text::str_eq(key, "message") || text::str_eq(key, "result")
}

/// a value as a list.
fn items_of(value: Json) -> (r: Vec<Json>)
    ensures
        json::item_models(r@) == items_in(value@),
{
    match value {
        Json::Array(items) => items,
        _ => {
            let mut r: Vec<Json> = Vec::new();
            r.push(value);
            proof {
                json::lemma_item_models(r@);
                assert(json::item_models(r@) =~= seq![value@]);
            }
            r
        },
    }
}

/// puts the items of a value behind those of a list field.
fn merge_items(acc: &mut Table<Json>, key: String, value: Json)
    ensures
        json::field_models(final(acc)@) == json::field_models(old(acc)@).insert(
            key@,
            match at(json::field_models(old(acc)@), key@) {
                None => Model::Array(items_in(value@)),
                Some(Model::Array(items)) => Model::Array(items + items_in(value@)),
                Some(other) => other,
            },
        ),
{
    let ghost before = json::field_models(acc@);
    let new = items_of(value);
    match json::take(acc, key.as_str()) {
        None => {
            json::put(acc, key, Json::array(new));
            assert(json::field_models(acc@) =~= before.insert(key@, Model::Array(items_in(value@))));
        },
        Some(Json::Array(mut items)) => {
            let ghost a = items@;
            let ghost b = new@;
            let mut new = new;
            items.append(&mut new);
            proof {
                json::lemma_item_models(a);
                json::lemma_item_models(b);
                json::lemma_item_models(items@);
                assert(json::item_models(items@) =~= json::item_models(a) + json::item_models(b));
            }
            json::put(acc, key, Json::array(items));
            assert(json::field_models(acc@) =~= before.insert(
                key@,
                Model::Array(json::item_models(a) + items_in(value@)),
            ));
        },
        Some(other) => {
            json::put(acc, key, other);
            assert(json::field_models(acc@) =~= before.insert(key@, other@));
        },
    }
}

/// joins a text to that of a text field.
pub fn merge_text(acc: &mut Table<Json>, key: String, new: String)
    ensures
        json::field_models(final(acc)@) == json::field_models(old(acc)@).insert(
            key@,
            joined(at(json::field_models(old(acc)@), key@), new@),
        ),
{
    let ghost before = json::field_models(acc@);
    let joined_text = match acc.get(key.as_str()) {
        Some(Json::Text(existing)) => {
            let mut s = existing.clone();
            s.push('\n');
            s.append(new.as_str());
            assert(s@ =~= existing@ + seq!['\n'] + new@);
            s
        },
        _ => new,
    };
    json::put(acc, key, Json::Text(joined_text));
}

/// a value as text.
fn text_of(value: Json) -> (r: String)
    ensures
        r@ == plain_text(value@),
{
    match value {
        Json::Text(s) => s,
        _ => value.render(),
    }
}

/// merges a single field into the accumulator per the composability rules:
/// arrays concatenate, scalars join with newline.
pub fn merge_field(acc: &mut Table<Json>, key: String, value: Json)
    ensures
        json::field_models(final(acc)@) == merged(json::field_models(old(acc)@), key@, value@),
{
    if list_field(key.as_str()) {
        merge_items(acc, key, value);
    } else if text_field(key.as_str()) {
        merge_text(acc, key, text_of(value));
    } else {
        json::put(acc, key, value);
    }
}

/// a key that is new to the object comes in after the others.
proof fn lemma_one_more(
    acc: Map<Seq<char>, Model>,
    obj: Map<Seq<char>, Model>,
    key: Seq<char>,
    value: Model,
)
    requires
        !obj.contains_key(key),
    ensures
        merged_object(acc, obj.insert(key, value)) == merged(
            merged_object(acc, obj),
            key,
            value,
        ),
{
    assert(merged_object(acc, obj.insert(key, value)) =~= merged(
        merged_object(acc, obj),
        key,
        value,
    ));
}

/// merges all fields of an object into the accumulator.
pub fn merge_object(acc: &mut Table<Json>, obj: &Table<Json>)
    ensures
        json::field_models(final(acc)@) == merged_object(
            json::field_models(old(acc)@),
            json::field_models(obj@),
        ),
{
    let ghost before = json::field_models(acc@);
    let n = obj.len();
    let ghost list = obj.list();
    let mut i: usize = 0;
    assert(list.take(0) =~= Seq::empty());
    assert(merged_object(before, json::field_models(table::map_of(list.take(0)))) =~= before);
    while i < n
        invariant
            i <= n,
            n == list.len(),
            list == obj.list(),
            table::sorted(list),
            json::field_models(acc@) == merged_object(
                before,
                json::field_models(table::map_of(list.take(i as int))),
            ),
        decreases n - i,
    {
        let key = obj.key_at(i).clone();
        let value = obj.value_at(i).copy();
        proof {
            let t = list.take(i + 1);
            assert(t.drop_last() =~= list.take(i as int));
            let m = table::map_of(list.take(i as int));
            table::lemma_new_key(list, i as int);
            assert(json::field_models(table::map_of(t)) =~= json::field_models(m).insert(
                key@,
                value@,
            ));
            lemma_one_more(before, json::field_models(m), key@, value@);
        }
        merge_field(acc, key, value);
        i += 1;
    }
    assert(list.take(n as int) =~= list);
}

// --- the output of a script ---

/// what a script's output gives the host to report.
#[derive(Debug, PartialEq)]
pub enum Note {
    /// a text that the script logs.
    Log(String),
    /// a line that is no JSON, with what is wrong with it.
    Malformed(String),
}

/// what a note stands for.
pub enum NoteModel {
    Log(Seq<char>),
    Malformed(Seq<char>),
}

impl View for Note {
    type V = NoteModel;

    open spec fn view(&self) -> NoteModel {
        match *self {
            Note::Log(s) => NoteModel::Log(s@),
            Note::Malformed(s) => NoteModel::Malformed(s@),
        }
    }
}

/// what a list of notes stands for.
pub open spec fn note_models(s: Seq<Note>) -> Seq<NoteModel> {
    Seq::new(s.len(), |i: int| s[i]@)
}

/// what has been read of a script's output.
pub struct Progress {
    pub fields: Map<Seq<char>, Model>,
    pub notes: Seq<NoteModel>,
}

/// the fields after a value came in: those of an object, but for its `log`.
pub open spec fn absorbed_fields(acc: Map<Seq<char>, Model>, value: Model) -> Map<
    Seq<char>,
    Model,
> {
    match value {
        Model::Object(obj) => merged_object(acc, obj.remove("log"@)),
        _ => acc,
    }
}

/// the text that a value logs.
pub open spec fn logged(value: Model) -> Option<Seq<char>> {
    json::text_in(json::field(value, "log"@))
}

/// the progress after one more line: blank lines and values that are no objects
/// count for nothing, a line that is no JSON is reported, and the fields of an
/// object come in.
pub open spec fn after_line(p: Progress, line: Seq<char>) -> Progress {
    let content = text::trim(line);
    if content.len() == 0 {
        p
    } else {
        match json::parsed(content) {
            Err(e) => Progress { fields: p.fields, notes: p.notes.push(NoteModel::Malformed(e)) },
            Ok(value) => Progress {
                fields: absorbed_fields(p.fields, value),
                notes: match logged(value) {
                    Some(s) => p.notes.push(NoteModel::Log(s)),
                    None => p.notes,
                },
            },
        }
    }
}

/// the progress after all of the lines.
pub open spec fn after_lines(lines: Seq<Seq<char>>) -> Progress
    decreases lines.len(),
{
    if lines.len() == 0 {
        Progress { fields: Map::empty(), notes: Seq::empty() }
    } else {
        after_line(after_lines(lines.drop_last()), lines.last())
    }
}

/// merges one value of a script's output into the accumulator, and hands out
/// what it logs.
pub fn absorb(acc: &mut Table<Json>, value: Json) -> (r: Option<String>)
    ensures
        json::field_models(final(acc)@) == absorbed_fields(json::field_models(old(acc)@), value@),
        match r {
            Some(s) => logged(value@) == Some(s@),
            None => logged(value@) is None,
        },
{
    match value {
        Json::Object(fields) => {
            proof {
                json::lemma_object(fields);
            }
            let mut fields = fields;
            let log = json::take(&mut fields, "log");
            merge_object(acc, &fields);
            match log {
                Some(Json::Text(s)) => Some(s),
                _ => None,
            }
        },
        _ => None,
    }
}

/// merges every JSON line of a script's output into a single object per the
/// composability rules. lines that are no JSON are dropped and reported, and
/// `log` texts are handed out.
pub fn merge_output(stdout: &str) -> (r: (Table<Json>, Vec<Note>))
    ensures
        json::field_models(r.0@) == after_lines(text::lines(stdout@)).fields,
        note_models(r.1@) == after_lines(text::lines(stdout@)).notes,
{
    let lines = text::lines_of(stdout);
    let ghost all = text::texts(lines@);
    let mut acc = json::no_fields();
    let mut notes: Vec<Note> = Vec::new();
    let mut i: usize = 0;
    assert(all.take(0) =~= Seq::empty());
    assert(note_models(notes@) =~= Seq::empty());
    while i < lines.len()
        invariant
            i <= lines@.len(),
            all == text::texts(lines@),
            json::field_models(acc@) == after_lines(all.take(i as int)).fields,
            note_models(notes@) == after_lines(all.take(i as int)).notes,
        decreases lines@.len() - i,
    {
        assert(all.take(i + 1).drop_last() =~= all.take(i as int));
        let line = text::trimmed(lines[i].as_str());
        let ghost before = note_models(notes@);
        if !line.as_str().is_empty() {
            match json::parse_json(line.as_str()) {
                Err(e) => {
                    notes.push(Note::Malformed(e));
                    assert(note_models(notes@) =~= before.push(NoteModel::Malformed(e@)));
                },
                Ok(value) => {
                    if let Some(s) = absorb(&mut acc, value) {
                        notes.push(Note::Log(s));
                        assert(note_models(notes@) =~= before.push(NoteModel::Log(s@)));
                    }
                },
            }
        }
        i += 1;
    }
    assert(all.take(lines@.len() as int) =~= all);
    (acc, notes)
}

/// the line that reports a note.
pub open spec fn note_text(note: NoteModel, script: Seq<char>, stage: Seq<char>) -> Seq<char> {
    match note {
        NoteModel::Log(s) => "hook "@ + script + ": "@ + s,
        NoteModel::Malformed(e) => "hook "@ + script + " stage="@ + stage
            + " dropped malformed line: "@ + e,
    }
}

/// the line that reports a note.
pub fn describe_note(note: &Note, script: &str, stage: &str) -> (r: String)
    ensures
        r@ == note_text(note@, script@, stage@),
{
    match note {
        Note::Log(s) => {
            let head = text::concat3("hook ", script, ": ");
            text::concat2(head.as_str(), s.as_str())
        },
        Note::Malformed(e) => {
            let head = text::concat3("hook ", script, " stage=");
            let tail = text::concat3(stage, " dropped malformed line: ", e.as_str());
            let r = text::concat2(head.as_str(), tail.as_str());
            assert(r@ =~= note_text(note@, script@, stage@));
            r
        },
    }
}

// --- laws ---

/// the lists that come in for a list field are put one behind the other; a value
/// that is no list counts as its only item.
pub proof fn law_lists_concatenate(key: Seq<char>, a: Model, b: Model)
    requires
        is_list_field(key),
    ensures
        merged(merged(Map::empty(), key, a), key, b) == Map::empty().insert(
            key,
            Model::Array(items_in(a) + items_in(b)),
        ),
{
    assert(merged(merged(Map::empty(), key, a), key, b) =~= Map::empty().insert(
        key,
        Model::Array(items_in(a) + items_in(b)),
    ));
}

/// no field is both a list field and a text field.
proof fn lemma_kinds_differ(key: Seq<char>)
    ensures
        !(is_list_field(key) && is_text_field(key)),
{
    reveal_strlit("system");
    reveal_strlit("tools");
    reveal_strlit("notifications");
    reveal_strlit("actions");
    reveal_strlit("modified");
    reveal_strlit("notify");
    reveal_strlit("continue");
    reveal_strlit("prompt");
    reveal_strlit("user");
    reveal_strlit("message");
    reveal_strlit("result");
    if is_text_field(key) {
        assert(key[0] == 'c' || key[0] == 'p' || key[0] == 'u' || key[0] == 'm' || key[0] == 'r');
        if key[0] == 'm' {
            assert(key[1] == 'e');
        }
    }
    if is_list_field(key) {
        assert(key[0] == 's' || key[0] == 't' || key[0] == 'n' || key[0] == 'a' || (key[0] == 'm'
            && key[1] == 'o'));
    }
}

/// the values that come in for a text field are joined, as texts, by a line feed.
pub proof fn law_texts_join(key: Seq<char>, a: Model, b: Model)
    requires
        is_text_field(key),
    ensures
        merged(merged(Map::empty(), key, a), key, b) == Map::empty().insert(
            key,
            Model::Text(plain_text(a) + seq!['\n'] + plain_text(b)),
        ),
{
    lemma_kinds_differ(key);
    assert(merged(merged(Map::empty(), key, a), key, b) =~= Map::empty().insert(
        key,
        Model::Text(plain_text(a) + seq!['\n'] + plain_text(b)),
    ));
}

/// of any other field the last value counts.
pub proof fn law_last_value_counts(
    acc: Map<Seq<char>, Model>,
    key: Seq<char>,
    a: Model,
    b: Model,
)
    requires
        !is_list_field(key),
        !is_text_field(key),
    ensures
        merged(merged(acc, key, a), key, b) == acc.insert(key, b),
{
    assert(merged(merged(acc, key, a), key, b) =~= acc.insert(key, b));
}

/// the order in which different fields come in makes no difference.
pub proof fn law_fields_are_independent(
    acc: Map<Seq<char>, Model>,
    j: Seq<char>,
    a: Model,
    k: Seq<char>,
    b: Model,
)
    requires
        j != k,
    ensures
        merged(merged(acc, j, a), k, b) == merged(merged(acc, k, b), j, a),
{
    assert(merged(merged(acc, j, a), k, b) =~= merged(merged(acc, k, b), j, a));
}

/// how responses are grouped makes no difference: merging two objects one after
/// the other is merging what they make together.
pub proof fn law_grouping(
    acc: Map<Seq<char>, Model>,
    a: Map<Seq<char>, Model>,
    b: Map<Seq<char>, Model>,
)
    ensures
        merged_object(merged_object(acc, a), b) == merged_object(
            acc,
            merged_object(merged_object(Map::empty(), a), b),
        ),
{
    let l = merged_object(merged_object(acc, a), b);
    let both = merged_object(merged_object(Map::empty(), a), b);
    let r = merged_object(acc, both);
    assert forall|k: Seq<char>| l.contains_key(k) implies #[trigger] l[k] == r[k] by {
        lemma_kinds_differ(k);
        if is_list_field(k) && a.contains_key(k) && b.contains_key(k) {
            let x = items_in(a[k]);
            let y = items_in(b[k]);
            assert(both[k] == Model::Array(x + y));
            if acc.contains_key(k) && acc[k] is Array {
                let w = acc[k]->Array_0;
                assert((w + x) + y =~= w + (x + y));
            }
        }
        if is_text_field(k) && a.contains_key(k) && b.contains_key(k) {
            let x = plain_text(a[k]);
            let y = plain_text(b[k]);
            assert(both[k] == Model::Text(x + seq!['\n'] + y));
            if acc.contains_key(k) && acc[k] is Text {
                let w = acc[k]->Text_0;
                assert((w + seq!['\n'] + x) + seq!['\n'] + y =~= w + seq!['\n'] + (x + seq!['\n']
                    + y));
            }
        }
    }
    assert(l =~= r);
}

/// what a script logs never becomes part of its response.
pub proof fn law_log_is_kept_out(lines: Seq<Seq<char>>)
    ensures
        !after_lines(lines).fields.contains_key("log"@),
    decreases lines.len(),
{
    if lines.len() > 0 {
        law_log_is_kept_out(lines.drop_last());
    }
}

/// blank lines make no difference.
pub proof fn law_blank_lines_are_skipped(lines: Seq<Seq<char>>, blank: Seq<char>)
    requires
        text::trim(blank).len() == 0,
    ensures
        after_lines(lines.push(blank)) == after_lines(lines),
{
    assert(lines.push(blank).drop_last() =~= lines);
}

/// the names of the list fields.
pub open spec fn list_names() -> Seq<Seq<char>> {
    seq!["system"@, "tools"@, "notifications"@, "actions"@, "modified"@, "notify"@]
}

/// the names of the text fields.
pub open spec fn text_names() -> Seq<Seq<char>> {
    seq!["continue"@, "prompt"@, "user"@, "message"@, "result"@]
}

/// the fields of those names are the list fields and the text fields.
proof fn lemma_names(key: Seq<char>)
    ensures
        list_names().contains(key) == is_list_field(key),
        text_names().contains(key) == is_text_field(key),
{
    let a = list_names();
    let b = text_names();
    assert(a[0] == "system"@ && a[1] == "tools"@ && a[2] == "notifications"@ && a[3]
        == "actions"@ && a[4] == "modified"@ && a[5] == "notify"@);
    assert(b[0] == "continue"@ && b[1] == "prompt"@ && b[2] == "user"@ && b[3] == "message"@
        && b[4] == "result"@);
}

/// arrays that come in for one of the named list fields are put one behind the
/// other, and a single value counts as a list of it.
pub proof fn law_named_lists_grow(
    acc: Map<Seq<char>, Model>,
    i: int,
    old: Seq<Model>,
    new: Seq<Model>,
    item: Model,
)
    requires
        0 <= i < list_names().len(),
        acc.contains_key(list_names()[i]),
        acc[list_names()[i]] == Model::Array(old),
        !(item is Array),
    ensures
        merged(acc, list_names()[i], Model::Array(new))[list_names()[i]] == Model::Array(old + new),
        merged(acc, list_names()[i], item)[list_names()[i]] == Model::Array(old.push(item)),
        merged(Map::empty(), list_names()[i], Model::Array(new))[list_names()[i]] == Model::Array(
            new,
        ),
        merged(Map::empty(), list_names()[i], item)[list_names()[i]] == Model::Array(seq![item]),
{
    let key = list_names()[i];
    assert(list_names().contains(key));
    lemma_names(key);
    assert(old + seq![item] =~= old.push(item));
}

/// texts that come in for one of the named text fields are joined by line feeds, and
/// anything else is joined as it is written.
pub proof fn law_named_texts_join(
    acc: Map<Seq<char>, Model>,
    i: int,
    old: Seq<char>,
    new: Seq<char>,
    other: Model,
)
    requires
        0 <= i < text_names().len(),
        acc.contains_key(text_names()[i]),
        acc[text_names()[i]] == Model::Text(old),
        !(other is Text),
    ensures
        merged(acc, text_names()[i], Model::Text(new))[text_names()[i]] == Model::Text(
            old.push('\n') + new,
        ),
        merged(acc, text_names()[i], other)[text_names()[i]] == Model::Text(
            old.push('\n') + json::rendered(other),
        ),
        merged(Map::empty(), text_names()[i], Model::Text(new))[text_names()[i]] == Model::Text(
            new,
        ),
{
    let key = text_names()[i];
    assert(text_names().contains(key));
    lemma_names(key);
    lemma_kinds_differ(key);
    assert(old.push('\n') =~= old + seq!['\n']);
}

/// a field of any other name holds the value that came in last.
pub proof fn law_other_fields_are_replaced(
    acc: Map<Seq<char>, Model>,
    key: Seq<char>,
    value: Model,
)
    requires
        !list_names().contains(key),
        !text_names().contains(key),
    ensures
        merged(acc, key, value) == acc.insert(key, value),
{
    lemma_names(key);
}

/// merging an object merges each of its fields, and leaves the others.
pub proof fn law_object_field_by_field(
    acc: Map<Seq<char>, Model>,
    obj: Map<Seq<char>, Model>,
    key: Seq<char>,
    value: Model,
)
    ensures
        merged_object(acc, Map::empty()) == acc,
        !obj.contains_key(key) ==> merged_object(acc, obj.insert(key, value)) == merged(
            merged_object(acc, obj),
            key,
            value,
        ),
        !obj.contains_key(key) ==> at(merged_object(acc, obj), key) == at(acc, key),
{
    assert(merged_object(acc, Map::empty()) =~= acc);
    if !obj.contains_key(key) {
        lemma_one_more(acc, obj, key, value);
    }
}

/// a line that holds an object brings in its fields but for `log`, whose text is
/// noted; a line that is no JSON is noted with what is wrong and brings in nothing;
/// and neither does a value that is no object.
pub proof fn law_lines_come_in(lines: Seq<Seq<char>>, line: Seq<char>)
    requires
        text::trim(line).len() > 0,
    ensures
        ({
            let before = after_lines(lines);
            let after = after_lines(lines.push(line));
            match json::parsed(text::trim(line)) {
                Ok(Model::Object(obj)) => {
                    &&& after.fields == merged_object(before.fields, obj.remove("log"@))
                    &&& obj.contains_key("log"@) && obj["log"@] is Text ==> after.notes
                        == before.notes.push(NoteModel::Log(obj["log"@]->Text_0))
                    &&& !(obj.contains_key("log"@) && obj["log"@] is Text) ==> after.notes
                        == before.notes
                },
                Ok(_) => after.fields == before.fields && after.notes == before.notes,
                Err(e) => after.fields == before.fields && after.notes == before.notes.push(
                    NoteModel::Malformed(e),
                ),
            }
        }),
        after_lines(Seq::empty()).fields == Map::<Seq<char>, Model>::empty(),
        after_lines(Seq::empty()).notes == Seq::<NoteModel>::empty(),
{
    assert(lines.push(line).drop_last() =~= lines);
}

/// a note is shown with its script, and a line that is no JSON with the stage too.
pub proof fn law_note_texts(s: Seq<char>, script: Seq<char>, stage: Seq<char>, note: Note)
    ensures
        note_text(NoteModel::Log(s), script, stage) == "hook "@ + script + ": "@ + s,
        note_text(NoteModel::Malformed(s), script, stage) == "hook "@ + script + " stage="@ + stage
            + " dropped malformed line: "@ + s,
        match note {
            Note::Log(t) => note@ == NoteModel::Log(t@),
            Note::Malformed(t) => note@ == NoteModel::Malformed(t@),
        },
{
}

/// a list field that holds no list keeps what it holds.
pub proof fn law_list_field_without_list(
    acc: Map<Seq<char>, Model>,
    i: int,
    value: Model,
)
    requires
        0 <= i < list_names().len(),
        acc.contains_key(list_names()[i]),
        !(acc[list_names()[i]] is Array),
    ensures
        merged(acc, list_names()[i], value) == acc,
{
    let key = list_names()[i];
    assert(list_names().contains(key));
    lemma_names(key);
    assert(merged(acc, key, value) =~= acc);
}

} // verus!
