//! Model of a JSON document, the form in which the parsers read both the
//! JSON files and the YAML frontmatter of the planning documents.
use vstd::prelude::*;

use crate::text::{chars_of, same_chars};

verus! {

/// A JSON number as the logic reads it: its value when it is an integer that
/// fits `i64`, and its text.
#[derive(Debug)]
pub struct JsonNumber {
    int: Option<i64>,
    text: String,
}

impl JsonNumber {
    /// The value, when the number is an integer that fits `i64`.
    pub closed spec fn int_value(self) -> Option<i64> {
        self.int
    }

    /// The number's text.
    pub closed spec fn text_view(self) -> Seq<char> {
        self.text@
    }

    /// `serde_json::Number::as_i64`.
    pub fn as_i64(&self) -> (r: Option<i64>)
        ensures
            r == self.int_value(),
    {
        self.int
    }

    pub fn text(&self) -> (r: &String)
        ensures
            r@ == self.text_view(),
    {
        &self.text
    }
}

/// A JSON value. Object entries keep the order in which a `serde_json` map
/// yields them (sorted by key, keys unique).
#[derive(Debug)]
pub enum Json {
    Null,
    Bool(bool),
    Number(JsonNumber),
    Str(String),
    Array(Vec<Json>),
    Object(Vec<(String, Json)>),
}

#[verifier::external_type_specification]
#[verifier::external_body]
pub struct ExSerdeJsonValue(serde_json::Value);

/// The document that `serde_json::from_str::<serde_json::Value>` reads from a
/// text, or the text of its error.
pub uninterp spec fn json_document(text: Seq<char>) -> Result<Json, Seq<char>>;

/// The document that `serde_yml::from_str::<serde_json::Value>` reads from a
/// YAML text, or the text of its error.
pub uninterp spec fn yaml_document(text: Seq<char>) -> Result<Json, Seq<char>>;

/// The compact text that `serde_json::to_string` writes for a value.
pub uninterp spec fn json_text(v: Json) -> Seq<char>;

pub open spec fn result_view(r: Result<Json, String>) -> Result<Json, Seq<char>> {
    match r {
        Ok(j) => Ok(j),
        Err(e) => Err(e@),
    }
}

/// Converts a `serde_json` value into the model, entry for entry.
#[verifier::external_body]
fn model_of(v: serde_json::Value) -> Json {
    match v {
        serde_json::Value::Null => Json::Null,
        serde_json::Value::Bool(b) => Json::Bool(b),
        serde_json::Value::Number(n) => Json::Number(JsonNumber { int: n.as_i64(), text: n.to_string() }),
        serde_json::Value::String(s) => Json::Str(s),
        serde_json::Value::Array(a) => Json::Array(a.into_iter().map(model_of).collect()),
        serde_json::Value::Object(o) => Json::Object(o.into_iter().map(|(k, x)| (k, model_of(x))).collect()),
    }
}

/// Converts the model back into a `serde_json` value, entry for entry.
#[verifier::external_body]
fn serde_of(v: &Json) -> serde_json::Value {
    match v {
        Json::Null => serde_json::Value::Null,
        Json::Bool(b) => serde_json::Value::Bool(*b),
        Json::Number(n) => serde_json::Value::Number(n.text.parse().unwrap()),
        Json::Str(s) => serde_json::Value::String(s.clone()),
        Json::Array(a) => serde_json::Value::Array(a.iter().map(serde_of).collect()),
        Json::Object(o) => serde_json::Value::Object(o.iter().map(|(k, x)| (k.clone(), serde_of(x))).collect()),
    }
}

/// Calls `serde_json::from_str::<serde_json::Value>`; the contract names the
/// document (or error text) it reads, which is a function of the text alone.
#[verifier::external_body]
pub fn parse_json_text(text: &str) -> (r: Result<Json, String>)
    ensures
        result_view(r) == json_document(text@),
{
    match serde_json::from_str::<serde_json::Value>(text) {
        Ok(v) => Ok(model_of(v)),
        Err(e) => Err(e.to_string()),
    }
}

/// Calls `serde_yml::from_str::<serde_json::Value>`; the contract names the
/// document (or error text) it reads, which is a function of the text alone.
#[verifier::external_body]
pub fn parse_yaml_text(text: &str) -> (r: Result<Json, String>)
    ensures
        result_view(r) == yaml_document(text@),
{
    match serde_yml::from_str::<serde_json::Value>(text) {
        Ok(v) => Ok(model_of(v)),
        Err(e) => Err(e.to_string()),
    }
}

/// Calls `serde_json::to_string` on the value; the contract names the text.
#[verifier::external_body]
pub fn json_to_text(v: &Json) -> (r: String)
    ensures
        r@ == json_text(*v),
{
    serde_json::to_string(&serde_of(v)).unwrap()
}

/// Index of the first entry whose key reads `k` (the length when none does).
pub open spec fn key_pos(e: Seq<(String, Json)>, k: Seq<char>, i: int) -> int
    decreases e.len() - i,
{
    if i < 0 || i >= e.len() {
        e.len() as int
    } else if e[i].0@ == k {
        i
    } else {
        key_pos(e, k, i + 1)
    }
}

/// The value stored under `k` (the first entry with that key), if any.
pub open spec fn lookup(e: Seq<(String, Json)>, k: Seq<char>) -> Option<Json> {
    let i = key_pos(e, k, 0);
    if i < e.len() {
        Some(e[i].1)
    } else {
        None
    }
}

pub proof fn lemma_key_pos(e: Seq<(String, Json)>, k: Seq<char>, i: int)
    requires
        0 <= i <= e.len(),
    ensures
        i <= key_pos(e, k, i) <= e.len(),
        key_pos(e, k, i) < e.len() ==> e[key_pos(e, k, i)].0@ == k,
        forall|j: int| i <= j < key_pos(e, k, i) ==> e[j].0@ != k,
    decreases e.len() - i,
{
    if i < e.len() && e[i].0@ != k {
        lemma_key_pos(e, k, i + 1);
    }
}

/// Removing an entry with another key does not change what `k` looks up.
pub proof fn lemma_lookup_remove(e: Seq<(String, Json)>, k: Seq<char>, m: int)
    requires
        0 <= m < e.len(),
        e[m].0@ != k,
    ensures
        lookup(e.remove(m), k) == lookup(e, k),
{
    let r = e.remove(m);
    lemma_key_pos(e, k, 0);
    lemma_key_pos(r, k, 0);
    let a = key_pos(e, k, 0);
    let b = key_pos(r, k, 0);
    if a < e.len() {
        if a < m {
            assert(r[a] == e[a]);
            if b < a {
                assert(r[b] == e[b]);
            }
        } else {
            assert(r[a - 1] == e[a]);
            if b < a - 1 {
                if b < m {
                    assert(r[b] == e[b]);
                } else {
                    assert(r[b] == e[b + 1]);
                }
            }
        }
    } else {
        if b < r.len() {
            if b < m {
                assert(r[b] == e[b]);
            } else {
                assert(r[b] == e[b + 1]);
            }
        }
    }
}

/// Takes the value stored under `key` out of an object's entries.
pub fn take_field(entries: &mut Vec<(String, Json)>, key: &[char]) -> (r: Option<Json>)
    ensures
        r == lookup(old(entries)@, key@),
        key_pos(old(entries)@, key@, 0) < old(entries)@.len() ==> final(entries)@ == old(
            entries,
        )@.remove(key_pos(old(entries)@, key@, 0)),
        key_pos(old(entries)@, key@, 0) >= old(entries)@.len() ==> final(entries)@ == old(
            entries,
        )@,
{
    let mut i: usize = 0;
    while i < entries.len()
        invariant
            i <= entries@.len(),
            entries@ == old(entries)@,
            key_pos(entries@, key@, i as int) == key_pos(entries@, key@, 0),
        decreases entries@.len() - i,
    {
        let k = chars_of(entries[i].0.as_str());
        if same_chars(&k, key) {
            let (_, v) = entries.remove(i);
            return Some(v);
        }
        i = i + 1;
    }
    None
}

/// `Option<String>` read the way serde's derive reads a field: absent or
/// `null` is `None`, a string is `Some`, anything else is an error.
pub open spec fn opt_str(v: Option<Json>) -> Result<Option<Seq<char>>, ()> {
    match v {
        None => Ok(None),
        Some(Json::Null) => Ok(None),
        Some(Json::Str(s)) => Ok(Some(s@)),
        Some(_) => Err(()),
    }
}

/// `Option<bool>` read the way serde's derive reads a field.
pub open spec fn opt_bool(v: Option<Json>) -> Result<Option<bool>, ()> {
    match v {
        None => Ok(None),
        Some(Json::Null) => Ok(None),
        Some(Json::Bool(b)) => Ok(Some(b)),
        Some(_) => Err(()),
    }
}

/// `Option<i64>` read the way serde's derive reads a field: only integers
/// that fit `i64` are accepted.
pub open spec fn opt_int(v: Option<Json>) -> Result<Option<i64>, ()> {
    match v {
        None => Ok(None),
        Some(Json::Null) => Ok(None),
        Some(Json::Number(n)) => match n.int_value() {
            Some(i) => Ok(Some(i)),
            None => Err(()),
        },
        Some(_) => Err(()),
    }
}

/// The characters of each string.
pub open spec fn strings_view(v: Seq<String>) -> Seq<Seq<char>> {
    v.map_values(|s: String| s@)
}

/// Whether every item of an array is a string.
pub open spec fn all_strings(items: Seq<Json>) -> bool {
    forall|i: int| 0 <= i < items.len() ==> items[i] is Str
}

/// The strings of an array whose items are all strings.
pub open spec fn string_items(items: Seq<Json>) -> Seq<Seq<char>> {
    items.map_values(|j: Json| if let Json::Str(s) = j { s@ } else { Seq::empty() })
}

/// `Option<Vec<String>>` read the way serde's derive reads a field.
pub open spec fn opt_str_list(v: Option<Json>) -> Result<Option<Seq<Seq<char>>>, ()> {
    match v {
        None => Ok(None),
        Some(Json::Null) => Ok(None),
        Some(Json::Array(items)) => if all_strings(items@) {
            Ok(Some(string_items(items@)))
        } else {
            Err(())
        },
        Some(_) => Err(()),
    }
}

/// `Option<serde_json::Value>` read the way serde's derive reads a field:
/// absent or `null` is `None`, anything else is kept.
pub open spec fn opt_value(v: Option<Json>) -> Option<Json> {
    match v {
        None => None,
        Some(Json::Null) => None,
        Some(j) => Some(j),
    }
}

pub open spec fn opt_string_view(o: Option<String>) -> Option<Seq<char>> {
    match o {
        Some(s) => Some(s@),
        None => None,
    }
}

/// Index of the entry stored under `key`, if any.
pub fn find_field(entries: &Vec<(String, Json)>, key: &[char]) -> (r: Option<usize>)
    ensures
        match r {
            Some(i) => key_pos(entries@, key@, 0) == i && i < entries@.len(),
            None => key_pos(entries@, key@, 0) >= entries@.len(),
        },
{
    proof {
        lemma_key_pos(entries@, key@, 0);
    }
    let mut i: usize = 0;
    while i < entries.len()
        invariant
            i <= entries@.len(),
            key_pos(entries@, key@, i as int) == key_pos(entries@, key@, 0),
        decreases entries@.len() - i,
    {
        let k = chars_of(entries[i].0.as_str());
        if same_chars(&k, key) {
            return Some(i);
        }
        i = i + 1;
    }
    None
}

/// The field `key` read as `Option<String>`.
pub fn str_field(entries: &Vec<(String, Json)>, key: &str) -> (r: Result<Option<String>, ()>)
    ensures
        match r {
            Ok(o) => opt_str(lookup(entries@, key@)) == Ok::<_, ()>(opt_string_view(o)),
            Err(_) => opt_str(lookup(entries@, key@)) is Err,
        },
{
    let k = chars_of(key);
    match find_field(entries, &k) {
        None => Ok(None),
        Some(i) => match &entries[i].1 {
            Json::Null => Ok(None),
            Json::Str(s) => Ok(Some(s.clone())),
            _ => Err(()),
        },
    }
}

/// The field `key` read as `Option<bool>`.
pub fn bool_field(entries: &Vec<(String, Json)>, key: &str) -> (r: Result<Option<bool>, ()>)
    ensures
        r == opt_bool(lookup(entries@, key@)),
{
    let k = chars_of(key);
    match find_field(entries, &k) {
        None => Ok(None),
        Some(i) => match &entries[i].1 {
            Json::Null => Ok(None),
            Json::Bool(b) => Ok(Some(*b)),
            _ => Err(()),
        },
    }
}

/// The field `key` read as `Option<i64>`.
pub fn int_field(entries: &Vec<(String, Json)>, key: &str) -> (r: Result<Option<i64>, ()>)
    ensures
        r == opt_int(lookup(entries@, key@)),
{
    let k = chars_of(key);
    match find_field(entries, &k) {
        None => Ok(None),
        Some(i) => match &entries[i].1 {
            Json::Null => Ok(None),
            Json::Number(n) => match n.as_i64() {
                Some(v) => Ok(Some(v)),
                None => Err(()),
            },
            _ => Err(()),
        },
    }
}

/// The strings of an array whose items are all strings, or an error.
pub fn string_items_of(items: &Vec<Json>) -> (r: Result<Vec<String>, ()>)
    ensures
        match r {
            Ok(l) => all_strings(items@) && strings_view(l@) == string_items(items@),
            Err(_) => !all_strings(items@),
        },
{
    let ghost orig = items@;
    let mut out: Vec<String> = Vec::new();
    let mut i: usize = 0;
    while i < items.len()
        invariant
            i <= items@.len(),
            items@ == orig,
            forall|j: int| 0 <= j < i ==> orig[j] is Str,
            out@.len() == i,
            strings_view(out@) == string_items(orig.take(i as int)),
        decreases items@.len() - i,
    {
        match &items[i] {
            Json::Str(s) => {
                let ghost prev = out@;
                out.push(s.clone());
                proof {
                    let t = orig.take(i + 1);
                    assert(t == orig.take(i as int).push(orig[i as int]));
                    assert forall|j: int| 0 <= j < t.len() implies strings_view(out@)[j]
                        == string_items(t)[j] by {
                        if j < i {
                            assert(strings_view(prev)[j] == string_items(orig.take(i as int))[j]);
                        }
                    }
                    assert(strings_view(out@) =~= string_items(t));
                }
            },
            _ => {
                return Err(());
            },
        }
        i = i + 1;
    }
    proof {
        assert(orig.take(orig.len() as int) =~= orig);
    }
    Ok(out)
}

/// The field `key` read as `Option<Vec<String>>`.
pub fn str_list_field(entries: &Vec<(String, Json)>, key: &str) -> (r: Result<
    Option<Vec<String>>,
    (),
>)
    ensures
        match r {
            Ok(Some(l)) => opt_str_list(lookup(entries@, key@)) == Ok::<_, ()>(
                Some(strings_view(l@)),
            ),
            Ok(None) => opt_str_list(lookup(entries@, key@)) == Ok::<
                Option<Seq<Seq<char>>>,
                (),
            >(None),
            Err(_) => opt_str_list(lookup(entries@, key@)) is Err,
        },
{
    let k = chars_of(key);
    match find_field(entries, &k) {
        None => Ok(None),
        Some(i) => match &entries[i].1 {
            Json::Null => Ok(None),
            Json::Array(items) => match string_items_of(items) {
                Ok(l) => Ok(Some(l)),
                Err(_) => Err(()),
            },
            _ => Err(()),
        },
    }
}

/// The field `key` taken out of the entries as `Option<serde_json::Value>`
/// (`null` reads as `None`).
pub fn take_value_field(entries: &mut Vec<(String, Json)>, key: &str) -> (r: Option<Json>)
    ensures
        r == opt_value(lookup(old(entries)@, key@)),
        forall|k: Seq<char>| k != key@ ==> lookup(final(entries)@, k) == lookup(old(entries)@, k),
{
    let kc = chars_of(key);
    let ghost before = entries@;
    let v = take_field(entries, &kc);
    proof {
        lemma_key_pos(before, key@, 0);
        assert forall|k: Seq<char>| k != key@ implies lookup(entries@, k) == lookup(before, k) by {
            if key_pos(before, key@, 0) < before.len() {
                lemma_lookup_remove(before, k, key_pos(before, key@, 0));
            }
        }
    }
    match v {
        None => None,
        Some(Json::Null) => None,
        Some(j) => Some(j),
    }
}

} // verus!
