use vstd::prelude::*;

verus! {

#[verifier::external_type_specification]
#[verifier::external_body]
pub struct ExNumber(serde_json::Number);

#[verifier::external_type_specification]
#[verifier::external_body]
pub struct ExValue(serde_json::Value);

/// A JSON document as the management protocol carries it. Object entries are
/// kept in the order of the map they came from.
pub enum JsonValue {
    Null,
    Bool(bool),
    Number(serde_json::Number),
    Str(String),
    Array(Vec<JsonValue>),
    Object(Vec<(String, JsonValue)>),
}

/// The mathematical model of a [`JsonValue`]: strings become character
/// sequences and arrays and objects become sequences.
pub enum Json {
    Null,
    Bool(bool),
    Number(serde_json::Number),
    Str(Seq<char>),
    Array(Seq<Json>),
    Object(Seq<(Seq<char>, Json)>),
}

pub open spec fn json_view(v: JsonValue) -> Json
    decreases v,
{
    match v {
        JsonValue::Null => Json::Null,
        JsonValue::Bool(b) => Json::Bool(b),
        JsonValue::Number(n) => Json::Number(n),
        JsonValue::Str(s) => Json::Str(s@),
        JsonValue::Array(items) => Json::Array(items_view(items@)),
        JsonValue::Object(entries) => Json::Object(entries_view(entries@)),
    }
}

pub open spec fn items_view(items: Seq<JsonValue>) -> Seq<Json>
    decreases items,
{
    if items.len() == 0 {
        Seq::empty()
    } else {
        items_view(items.drop_last()).push(json_view(items.last()))
    }
}

pub open spec fn entries_view(entries: Seq<(String, JsonValue)>) -> Seq<(Seq<char>, Json)>
    decreases entries,
{
    if entries.len() == 0 {
        Seq::empty()
    } else {
        entries_view(entries.drop_last()).push(
            (entries.last().0@, json_view(entries.last().1)),
        )
    }
}

/// Calls `Clone::clone` of `serde_json::Number`. That impl is derived, so the
/// copy holds the same representation as the number it was taken from.
#[verifier::external_body]
pub(crate) fn copy_number(n: &serde_json::Number) -> (r: serde_json::Number)
    ensures
        r == *n,
{
    n.clone()
}

/// The document that `serde_json` reads from `bytes`, or `None` when it
/// refuses them.
pub uninterp spec fn parsed_json(bytes: Seq<u8>) -> Option<Json>;

/// Calls `serde_json::from_slice` to read one JSON document from `bytes`, and
/// hands it over as a [`JsonValue`]. What it reads depends on the bytes alone.
/// Its objects are `serde_json::Map`s, which hold each key once.
#[verifier::external_body]
pub(crate) fn parse_json(bytes: &[u8]) -> (parsed: Option<JsonValue>)
    ensures
        match parsed {
            Some(v) => parsed_json(bytes@) == Some(v@) && json_well_formed(v@),
            None => parsed_json(bytes@) is None,
        },
{
    serde_json::from_slice::<serde_json::Value>(bytes).ok().map(value_into_model)
}

/// Moves a `serde_json::Value` into a [`JsonValue`], variant by variant; the
/// entries of an object come in the order of its map.
#[verifier::external_body]
fn value_into_model(value: serde_json::Value) -> JsonValue {
    match value {
        serde_json::Value::Null => JsonValue::Null,
        serde_json::Value::Bool(b) => JsonValue::Bool(b),
        serde_json::Value::Number(n) => JsonValue::Number(n),
        serde_json::Value::String(s) => JsonValue::Str(s),
        serde_json::Value::Array(items) => JsonValue::Array(
            items.into_iter().map(value_into_model).collect(),
        ),
        serde_json::Value::Object(map) => JsonValue::Object(
            map.into_iter().map(|(k, v)| (k, value_into_model(v))).collect(),
        ),
    }
}

impl View for JsonValue {
    type V = Json;

    open spec fn view(&self) -> Json {
        json_view(*self)
    }
}


pub proof fn lemma_items_view_index(items: Seq<JsonValue>)
    ensures
        items_view(items).len() == items.len(),
        forall|k: int| 0 <= k < items.len() ==> #[trigger] items_view(items)[k] == json_view(items[k]),
    decreases items.len(),
{
    if items.len() > 0 {
        lemma_items_view_index(items.drop_last());
    }
}

pub proof fn lemma_entries_view_index(entries: Seq<(String, JsonValue)>)
    ensures
        entries_view(entries).len() == entries.len(),
        forall|k: int|
            0 <= k < entries.len() ==> #[trigger] entries_view(entries)[k] == (
                entries[k].0@,
                json_view(entries[k].1),
            ),
    decreases entries.len(),
{
    if entries.len() > 0 {
        lemma_entries_view_index(entries.drop_last());
    }
}

/// The value stored under `key` in an object's entries: that of the first
/// entry with this key.
pub open spec fn lookup(entries: Seq<(Seq<char>, Json)>, key: Seq<char>) -> Option<Json>
    decreases entries.len(),
{
    if entries.len() == 0 {
        None
    } else if entries[0].0 == key {
        Some(entries[0].1)
    } else {
        lookup(entries.drop_first(), key)
    }
}

/// The document is an object whose entry under `key` is the string `text`.
pub open spec fn has_text_field(j: Json, key: Seq<char>, text: Seq<char>) -> bool {
    match j {
        Json::Object(entries) => lookup(entries, key) == Some(Json::Str(text)),
        _ => false,
    }
}

/// Position of the first entry of `entries` stored under `key`.
pub fn find_key(entries: &Vec<(String, JsonValue)>, key: &String) -> (found: Option<usize>)
    ensures
        match found {
            Some(k) => {
                &&& k < entries.len()
                &&& entries@[k as int].0@ == key@
                &&& forall|j: int| 0 <= j < k ==> #[trigger] entries@[j].0@ != key@
                &&& lookup(entries_view(entries@), key@) == Some(json_view(entries@[k as int].1))
            },
            None => lookup(entries_view(entries@), key@) is None,
        },
{
    let ghost ev = entries_view(entries@);
    proof {
        lemma_entries_view_index(entries@);
        assert(ev.skip(0) =~= ev);
    }
    let mut i: usize = 0;
    while i < entries.len()
        invariant
            i <= entries.len(),
            ev == entries_view(entries@),
            ev.len() == entries.len(),
            forall|k: int|
                0 <= k < entries.len() ==> #[trigger] ev[k] == (
                    entries@[k].0@,
                    json_view(entries@[k].1),
                ),
            lookup(ev, key@) == lookup(ev.skip(i as int), key@),
            forall|j: int| 0 <= j < i ==> #[trigger] entries@[j].0@ != key@,
        decreases entries.len() - i,
    {
        assert(ev.skip(i as int)[0] == ev[i as int]);
        assert(ev.skip(i as int).drop_first() =~= ev.skip(i + 1));
        if entries[i].0 == *key {
            return Some(i);
        }
        i = i + 1;
    }
    None
}

/// Whether `value` is an object whose entry under `key` is the string `text`.
pub fn text_field_is(value: &JsonValue, key: &String, text: &String) -> (b: bool)
    ensures
        b == has_text_field(value@, key@, text@),
{
    match value {
        JsonValue::Object(entries) => {
            match find_key(entries, key) {
                Some(k) => match &entries[k].1 {
                    JsonValue::Str(s) => *s == *text,
                    _ => false,
                },
                None => false,
            }
        },
        _ => false,
    }
}

/// A key that the management API hides from its clients: one that starts with `_`.
pub open spec fn is_hidden_key(key: Seq<char>) -> bool {
    key.len() > 0 && key[0] == '_'
}

/// The document with every object entry under a hidden key removed, at any depth.
pub open spec fn strip_hidden(j: Json) -> Json
    decreases j,
{
    match j {
        Json::Array(items) => Json::Array(strip_hidden_items(items)),
        Json::Object(entries) => Json::Object(strip_hidden_entries(entries)),
        _ => j,
    }
}

pub open spec fn strip_hidden_items(items: Seq<Json>) -> Seq<Json>
    decreases items,
{
    if items.len() == 0 {
        Seq::empty()
    } else {
        strip_hidden_items(items.drop_last()).push(strip_hidden(items.last()))
    }
}

pub open spec fn strip_hidden_entries(entries: Seq<(Seq<char>, Json)>) -> Seq<(Seq<char>, Json)>
    decreases entries,
{
    if entries.len() == 0 {
        Seq::empty()
    } else {
        let rest = strip_hidden_entries(entries.drop_last());
        if is_hidden_key(entries.last().0) {
            rest
        } else {
            rest.push((entries.last().0, strip_hidden(entries.last().1)))
        }
    }
}

pub proof fn lemma_strip_hidden_items_index(items: Seq<Json>)
    ensures
        strip_hidden_items(items).len() == items.len(),
        forall|k: int|
            0 <= k < items.len() ==> #[trigger] strip_hidden_items(items)[k] == strip_hidden(
                items[k],
            ),
    decreases items.len(),
{
    if items.len() > 0 {
        lemma_strip_hidden_items_index(items.drop_last());
    }
}

/// Looking a key up finds the value of the first entry stored under it, and
/// nothing when no entry has the key.
pub proof fn lemma_lookup_finds_first(entries: Seq<(Seq<char>, Json)>, key: Seq<char>)
    ensures
        lookup(entries, key) is None <==> (forall|i: int|
            0 <= i < entries.len() ==> #[trigger] entries[i].0 != key),
        lookup(entries, key) matches Some(v) ==> exists|i: int|
            0 <= i < entries.len() && #[trigger] entries[i].0 == key && entries[i].1 == v && (forall|
                j: int,
            | 0 <= j < i ==> entries[j].0 != key),
    decreases entries.len(),
{
    if entries.len() > 0 {
        let rest = entries.drop_first();
        lemma_lookup_finds_first(rest, key);
        assert forall|i: int| 0 <= i < rest.len() implies rest[i] == entries[i + 1] by {}
        if entries[0].0 != key {
            if lookup(rest, key) is None {
                assert forall|i: int| 0 <= i < entries.len() implies #[trigger] entries[i].0 != key by {
                    if i > 0 {
                        assert(rest[i - 1] == entries[i]);
                    }
                }
            } else {
                let v = lookup(rest, key)->0;
                let i = choose|i: int|
                    0 <= i < rest.len() && #[trigger] rest[i].0 == key && rest[i].1 == v && (forall|
                        j: int,
                    | 0 <= j < i ==> rest[j].0 != key);
                assert(entries[i + 1] == rest[i]);
                assert forall|j: int| 0 <= j < i + 1 implies entries[j].0 != key by {
                    if j > 0 {
                        assert(rest[j - 1] == entries[j]);
                    }
                }
                assert(rest[i].0 == key);
            }
        } else {
            assert(entries[0].0 == key);
        }
    }
}

/// Looking a key up after appending an entry: an earlier entry under the key
/// still answers; otherwise the new entry does when it has the key.
pub proof fn lemma_lookup_push(entries: Seq<(Seq<char>, Json)>, e: (Seq<char>, Json), key: Seq<char>)
    ensures
        lookup(entries.push(e), key) == match lookup(entries, key) {
            Some(v) => Some(v),
            None => if e.0 == key {
                Some(e.1)
            } else {
                None
            },
        },
    decreases entries.len(),
{
    if entries.len() > 0 {
        assert(entries.push(e).drop_first() =~= entries.drop_first().push(e));
        assert(entries.push(e)[0] == entries[0]);
        lemma_lookup_push(entries.drop_first(), e, key);
    } else {
        assert(entries.push(e).drop_first() =~= Seq::<(Seq<char>, Json)>::empty());
        assert(lookup(Seq::<(Seq<char>, Json)>::empty(), key) is None);
        assert(entries.push(e)[0] == e);
    }
}

/// After hidden keys are removed from an object's entries, a key that starts
/// with `_` finds nothing, and any other key finds what it found before, with
/// hidden keys removed from it too.
pub proof fn lemma_strip_hidden_lookup(entries: Seq<(Seq<char>, Json)>, key: Seq<char>)
    ensures
        lookup(strip_hidden_entries(entries), key) == if key.len() > 0 && key[0] == '_' {
            None
        } else {
            match lookup(entries, key) {
                Some(v) => Some(strip_hidden(v)),
                None => None,
            }
        },
    decreases entries.len(),
{
    if entries.len() > 0 {
        let d = entries.drop_last();
        let e = entries.last();
        lemma_strip_hidden_lookup(d, key);
        assert(d.push(e) =~= entries);
        lemma_lookup_push(d, e, key);
        let rest = strip_hidden_entries(d);
        if !is_hidden_key(e.0) {
            lemma_lookup_push(rest, (e.0, strip_hidden(e.1)), key);
        }
    }
}

/// Some entry of `entries` is stored under `key`.
pub open spec fn has_key(entries: Seq<(Seq<char>, Json)>, key: Seq<char>) -> bool {
    exists|i: int| 0 <= i < entries.len() && #[trigger] entries[i].0 == key
}

/// Every object in the document, at any depth, holds each key at most once,
/// as a JSON map does.
pub open spec fn json_well_formed(j: Json) -> bool
    decreases j,
{
    match j {
        Json::Array(items) => items_well_formed(items),
        Json::Object(entries) => entries_well_formed(entries),
        _ => true,
    }
}

pub open spec fn items_well_formed(items: Seq<Json>) -> bool
    decreases items,
{
    items.len() == 0 || (items_well_formed(items.drop_last()) && json_well_formed(items.last()))
}

pub open spec fn entries_well_formed(entries: Seq<(Seq<char>, Json)>) -> bool
    decreases entries,
{
    entries.len() == 0 || {
        &&& entries_well_formed(entries.drop_last())
        &&& !has_key(entries.drop_last(), entries.last().0)
        &&& json_well_formed(entries.last().1)
    }
}

proof fn lemma_strip_hidden_entries_keys(entries: Seq<(Seq<char>, Json)>, key: Seq<char>)
    ensures
        has_key(strip_hidden_entries(entries), key) ==> has_key(entries, key),
    decreases entries.len(),
{
    if entries.len() > 0 {
        let rest = strip_hidden_entries(entries.drop_last());
        lemma_strip_hidden_entries_keys(entries.drop_last(), key);
        let out = strip_hidden_entries(entries);
        if has_key(out, key) {
            let i = choose|i: int| 0 <= i < out.len() && #[trigger] out[i].0 == key;
            if i < rest.len() {
                assert(out[i] == rest[i]);
                let j = choose|j: int|
                    0 <= j < entries.drop_last().len() && #[trigger] entries.drop_last()[j].0 == key;
                assert(entries[j] == entries.drop_last()[j]);
            } else {
                assert(entries[entries.len() - 1].0 == key);
            }
        }
    }
}

/// Removing hidden keys keeps every key of each object unique.
pub proof fn lemma_strip_hidden_well_formed(j: Json)
    requires
        json_well_formed(j),
    ensures
        json_well_formed(strip_hidden(j)),
    decreases j,
{
    match j {
        Json::Array(items) => lemma_strip_hidden_items_well_formed(items),
        Json::Object(entries) => lemma_strip_hidden_entries_well_formed(entries),
        _ => {},
    }
}

pub proof fn lemma_strip_hidden_items_well_formed(items: Seq<Json>)
    requires
        items_well_formed(items),
    ensures
        items_well_formed(strip_hidden_items(items)),
    decreases items,
{
    if items.len() > 0 {
        lemma_strip_hidden_items_well_formed(items.drop_last());
        lemma_strip_hidden_well_formed(items.last());
        assert(strip_hidden_items(items).drop_last() =~= strip_hidden_items(items.drop_last()));
    }
}

proof fn lemma_strip_hidden_entries_well_formed(entries: Seq<(Seq<char>, Json)>)
    requires
        entries_well_formed(entries),
    ensures
        entries_well_formed(strip_hidden_entries(entries)),
    decreases entries,
{
    if entries.len() > 0 {
        lemma_strip_hidden_entries_well_formed(entries.drop_last());
        lemma_strip_hidden_well_formed(entries.last().1);
        lemma_strip_hidden_entries_keys(entries.drop_last(), entries.last().0);
        let rest = strip_hidden_entries(entries.drop_last());
        if !is_hidden_key(entries.last().0) {
            assert(strip_hidden_entries(entries).drop_last() =~= rest);
        }
    }
}

/// Every reply in `items` is well formed, read entry by entry.
pub proof fn lemma_items_well_formed_from_each(items: Seq<Json>)
    requires
        forall|i: int| 0 <= i < items.len() ==> json_well_formed(#[trigger] items[i]),
    ensures
        items_well_formed(items),
    decreases items.len(),
{
    if items.len() > 0 {
        assert forall|i: int| 0 <= i < items.drop_last().len() implies json_well_formed(
            #[trigger] items.drop_last()[i],
        ) by {
            assert(items.drop_last()[i] == items[i]);
        }
        lemma_items_well_formed_from_each(items.drop_last());
        assert(json_well_formed(items[items.len() - 1]));
    }
}

/// No object in the document, at any depth, has an entry under a hidden key.
pub open spec fn all_keys_visible(j: Json) -> bool
    decreases j,
{
    match j {
        Json::Array(items) => items_keys_visible(items),
        Json::Object(entries) => entries_keys_visible(entries),
        _ => true,
    }
}

pub open spec fn items_keys_visible(items: Seq<Json>) -> bool
    decreases items,
{
    items.len() == 0 || (items_keys_visible(items.drop_last()) && all_keys_visible(items.last()))
}

pub open spec fn entries_keys_visible(entries: Seq<(Seq<char>, Json)>) -> bool
    decreases entries,
{
    entries.len() == 0 || {
        &&& entries_keys_visible(entries.drop_last())
        &&& !is_hidden_key(entries.last().0)
        &&& all_keys_visible(entries.last().1)
    }
}

/// Stripping hidden keys leaves no hidden key anywhere in the document.
pub proof fn lemma_strip_hidden_leaves_no_hidden_key(j: Json)
    ensures
        all_keys_visible(strip_hidden(j)),
    decreases j,
{
    match j {
        Json::Array(items) => lemma_strip_hidden_items_visible(items),
        Json::Object(entries) => lemma_strip_hidden_entries_visible(entries),
        _ => {},
    }
}

pub proof fn lemma_strip_hidden_items_visible(items: Seq<Json>)
    ensures
        items_keys_visible(strip_hidden_items(items)),
    decreases items,
{
    if items.len() > 0 {
        lemma_strip_hidden_items_visible(items.drop_last());
        lemma_strip_hidden_leaves_no_hidden_key(items.last());
        let out = strip_hidden_items(items);
        assert(out.drop_last() =~= strip_hidden_items(items.drop_last()));
    }
}

proof fn lemma_strip_hidden_entries_visible(entries: Seq<(Seq<char>, Json)>)
    ensures
        entries_keys_visible(strip_hidden_entries(entries)),
    decreases entries,
{
    if entries.len() > 0 {
        lemma_strip_hidden_entries_visible(entries.drop_last());
        lemma_strip_hidden_leaves_no_hidden_key(entries.last().1);
        let rest = strip_hidden_entries(entries.drop_last());
        let out = strip_hidden_entries(entries);
        if !is_hidden_key(entries.last().0) {
            assert(out.drop_last() =~= rest);
        }
    }
}

/// A document without hidden keys is left as it is by stripping.
pub proof fn lemma_strip_hidden_keeps_visible_document(j: Json)
    requires
        all_keys_visible(j),
    ensures
        strip_hidden(j) == j,
    decreases j,
{
    match j {
        Json::Array(items) => lemma_strip_hidden_items_keeps(items),
        Json::Object(entries) => lemma_strip_hidden_entries_keeps(entries),
        _ => {},
    }
}

proof fn lemma_strip_hidden_items_keeps(items: Seq<Json>)
    requires
        items_keys_visible(items),
    ensures
        strip_hidden_items(items) == items,
    decreases items,
{
    if items.len() > 0 {
        lemma_strip_hidden_items_keeps(items.drop_last());
        lemma_strip_hidden_keeps_visible_document(items.last());
        assert(items.drop_last().push(items.last()) =~= items);
    }
}

proof fn lemma_strip_hidden_entries_keeps(entries: Seq<(Seq<char>, Json)>)
    requires
        entries_keys_visible(entries),
    ensures
        strip_hidden_entries(entries) == entries,
    decreases entries,
{
    if entries.len() > 0 {
        lemma_strip_hidden_entries_keeps(entries.drop_last());
        lemma_strip_hidden_keeps_visible_document(entries.last().1);
        assert(entries.drop_last().push((entries.last().0, entries.last().1)) =~= entries);
    }
}

/// Stripping hidden keys twice gives what stripping once gives.
pub proof fn lemma_strip_hidden_idempotent(j: Json)
    ensures
        strip_hidden(strip_hidden(j)) == strip_hidden(j),
{
    lemma_strip_hidden_leaves_no_hidden_key(j);
    lemma_strip_hidden_keeps_visible_document(strip_hidden(j));
}

} // verus!
