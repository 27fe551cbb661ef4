//! A JSON value held as plain data, with the number tokens kept verbatim.

use crate::text::same_text;
use vstd::prelude::*;

verus! {

/// A JSON number: its token as written, and its value where it is an integer of
/// the given type.
#[derive(Clone, Debug, PartialEq, Eq)]
pub struct JsonNumber {
    pub token: String,
    pub as_i64: Option<i64>,
    pub as_u64: Option<u64>,
}

#[derive(Debug, PartialEq, Eq)]
pub enum Json {
    Null,
    Bool(bool),
    Number(JsonNumber),
    Text(String),
    Array(Vec<Json>),
    Object(Vec<(String, Json)>),
}

/// The model of a JSON value.
pub enum Node {
    Null,
    Bool(bool),
    Number { token: Seq<char>, as_i64: Option<i64>, as_u64: Option<u64> },
    Text(Seq<char>),
    Array(Seq<Node>),
    Object(Seq<(Seq<char>, Node)>),
}

impl Json {
    pub open spec fn node(self) -> Node
        decreases self,
    {
        match self {
            Json::Null => Node::Null,
            Json::Bool(b) => Node::Bool(b),
            Json::Number(n) => Node::Number {
                token: n.token@,
                as_i64: n.as_i64,
                as_u64: n.as_u64,
            },
            Json::Text(text) => Node::Text(text@),
            Json::Array(items) => Node::Array(
                Seq::new(
                    items@.len(),
                    |i: int|
                        if 0 <= i < items@.len() {
                            items@[i].node()
                        } else {
                            Node::Null
                        },
                ),
            ),
            Json::Object(entries) => Node::Object(
                Seq::new(
                    entries@.len(),
                    |i: int|
                        if 0 <= i < entries@.len() {
                            (entries@[i].0@, entries@[i].1.node())
                        } else {
                            (Seq::empty(), Node::Null)
                        },
                ),
            ),
        }
    }
}

impl Json {
    /// A copy of this value.
    fn duplicate(&self) -> (out: Json)
        ensures
            out@ == self@,
        decreases self,
    {
        match self {
            Json::Null => Json::Null,
            Json::Bool(b) => Json::Bool(*b),
            Json::Number(n) => Json::Number(
                JsonNumber { token: n.token.clone(), as_i64: n.as_i64, as_u64: n.as_u64 },
            ),
            Json::Text(text) => Json::Text(text.clone()),
            Json::Array(items) => {
                let mut copy: Vec<Json> = Vec::new();
                let mut i: usize = 0;
                while i < items.len()
                    invariant
                        i <= items@.len(),
                        self == Json::Array(*items),
                        copy@.len() == i,
                        forall|k: int| 0 <= k < i ==> (#[trigger] copy@[k])@ == items@[k]@,
                    decreases items@.len() - i,
                {
                    assert(decreases_to!(self => self->Array_0));
                    assert(decreases_to!(self->Array_0 => self->Array_0@));
                    assert(decreases_to!(self->Array_0@ => self->Array_0@[i as int]));
                    copy.push(items[i].duplicate());
                    i += 1;
                }
                let out = Json::Array(copy);
                assert(out@->Array_0 =~= self@->Array_0);
                out
            },
            Json::Object(entries) => {
                let mut copy: Vec<(String, Json)> = Vec::new();
                let mut i: usize = 0;
                while i < entries.len()
                    invariant
                        i <= entries@.len(),
                        self == Json::Object(*entries),
                        copy@.len() == i,
                        forall|k: int|
                            0 <= k < i ==> (#[trigger] copy@[k]).0@ == entries@[k].0@
                                && copy@[k].1@ == entries@[k].1@,
                    decreases entries@.len() - i,
                {
                    assert(decreases_to!(self => self->Object_0));
                    assert(decreases_to!(self->Object_0 => self->Object_0@));
                    assert(decreases_to!(self->Object_0@ => self->Object_0@[i as int]));
                    assert(decreases_to!(self->Object_0@[i as int] => self->Object_0@[i as int].1));
                    copy.push((entries[i].0.clone(), entries[i].1.duplicate()));
                    i += 1;
                }
                let out = Json::Object(copy);
                assert(out@->Object_0 =~= self@->Object_0);
                out
            },
        }
    }
}

impl Clone for Json {
    fn clone(&self) -> (out: Json)
        ensures
            out@ == self@,
    {
        self.duplicate()
    }
}

impl View for Json {
    type V = Node;

    open spec fn view(&self) -> Node {
        self.node()
    }
}

/// The value of the first entry with that key.
pub open spec fn lookup(entries: Seq<(Seq<char>, Node)>, key: Seq<char>) -> Option<Node>
    decreases entries.len(),
{
    if entries.len() == 0 {
        None
    } else if entries[0].0 == key {
        Some(entries[0].1)
    } else {
        lookup(entries.drop_first(), key)
    }
}

impl Node {
    /// The value at a key; nothing where this is no object or lacks the key.
    pub open spec fn get(self, key: Seq<char>) -> Option<Node> {
        match self {
            Node::Object(entries) => lookup(entries, key),
            _ => None,
        }
    }

    pub open spec fn text(self) -> Option<Seq<char>> {
        match self {
            Node::Text(text) => Some(text),
            _ => None,
        }
    }

    pub open spec fn signed(self) -> Option<i64> {
        match self {
            Node::Number { as_i64, .. } => as_i64,
            _ => None,
        }
    }

    pub open spec fn unsigned(self) -> Option<u64> {
        match self {
            Node::Number { as_u64, .. } => as_u64,
            _ => None,
        }
    }

    pub open spec fn boolean(self) -> Option<bool> {
        match self {
            Node::Bool(b) => Some(b),
            _ => None,
        }
    }

    pub open spec fn number_token(self) -> Option<Seq<char>> {
        match self {
            Node::Number { token, .. } => Some(token),
            _ => None,
        }
    }

    pub open spec fn items(self) -> Option<Seq<Node>> {
        match self {
            Node::Array(items) => Some(items),
            _ => None,
        }
    }

    pub open spec fn text_at(self, key: Seq<char>) -> Option<Seq<char>> {
        match self.get(key) {
            Some(node) => node.text(),
            None => None,
        }
    }

    pub open spec fn int_at(self, key: Seq<char>) -> Option<i64> {
        match self.get(key) {
            Some(node) => node.signed(),
            None => None,
        }
    }

    pub open spec fn uint_at(self, key: Seq<char>) -> Option<u64> {
        match self.get(key) {
            Some(node) => node.unsigned(),
            None => None,
        }
    }

    pub open spec fn boolean_at(self, key: Seq<char>) -> Option<bool> {
        match self.get(key) {
            Some(node) => node.boolean(),
            None => None,
        }
    }

    pub open spec fn number_token_at(self, key: Seq<char>) -> Option<Seq<char>> {
        match self.get(key) {
            Some(node) => node.number_token(),
            None => None,
        }
    }

    pub open spec fn items_at(self, key: Seq<char>) -> Option<Seq<Node>> {
        match self.get(key) {
            Some(node) => node.items(),
            None => None,
        }
    }
}

/// The view of an optional text.
pub open spec fn opt_text(text: Option<&str>) -> Option<Seq<char>> {
    match text {
        Some(text) => Some(text@),
        None => None,
    }
}

/// The view of an optional owned text.
pub open spec fn opt_string(text: Option<String>) -> Option<Seq<char>> {
    match text {
        Some(text) => Some(text@),
        None => None,
    }
}

/// The view of an optional value.
pub open spec fn opt_node(value: Option<&Json>) -> Option<Node> {
    match value {
        Some(value) => Some(value@),
        None => None,
    }
}

proof fn lemma_lookup_at(entries: Seq<(Seq<char>, Node)>, key: Seq<char>, k: int)
    requires
        0 <= k < entries.len(),
        entries[k].0 == key,
        forall|i: int| 0 <= i < k ==> (#[trigger] entries[i]).0 != key,
    ensures
        lookup(entries, key) == Some(entries[k].1),
    decreases entries.len(),
{
    if k > 0 {
        assert(entries[0].0 != key);
        let rest = entries.drop_first();
        assert forall|i: int| 0 <= i < k - 1 implies (#[trigger] rest[i]).0 != key by {
            assert(entries[i + 1].0 != key);
        }
        lemma_lookup_at(rest, key, k - 1);
    }
}

proof fn lemma_lookup_none(entries: Seq<(Seq<char>, Node)>, key: Seq<char>)
    requires
        forall|i: int| 0 <= i < entries.len() ==> (#[trigger] entries[i]).0 != key,
    ensures
        lookup(entries, key) is None,
    decreases entries.len(),
{
    if entries.len() > 0 {
        assert(entries[0].0 != key);
        let rest = entries.drop_first();
        assert forall|i: int| 0 <= i < rest.len() implies (#[trigger] rest[i]).0 != key by {
            assert(entries[i + 1].0 != key);
        }
        lemma_lookup_none(rest, key);
    }
}

impl Json {
    /// The value at a key of an object.
    pub fn get(&self, key: &str) -> (out: Option<&Json>)
        ensures
            opt_node(out) == self@.get(key@),
    {
        match self {
            Json::Object(entries) => {
                let ghost model = self@->Object_0;
                let mut i: usize = 0;
                while i < entries.len()
                    invariant
                        i <= entries@.len() == model.len(),
                        self@ == Node::Object(model),
                        forall|k: int|
                            0 <= k < entries@.len() ==> #[trigger] model[k] == (
                                entries@[k].0@,
                                entries@[k].1@,
                            ),
                        forall|k: int| 0 <= k < i ==> (#[trigger] model[k]).0 != key@,
                    decreases entries@.len() - i,
                {
                    assert(model[i as int] == (entries@[i as int].0@, entries@[i as int].1@));
                    if same_text(entries[i].0.as_str(), key) {
                        proof {
                            lemma_lookup_at(model, key@, i as int);
                        }
                        return Some(&entries[i].1);
                    }
                    i += 1;
                }
                proof {
                    lemma_lookup_none(model, key@);
                }
                None
            },
            _ => None,
        }
    }

    pub fn as_str(&self) -> (out: Option<&str>)
        ensures
            opt_text(out) == self@.text(),
    {
        match self {
            Json::Text(text) => Some(text.as_str()),
            _ => None,
        }
    }

    pub fn as_i64(&self) -> (out: Option<i64>)
        ensures
            out == self@.signed(),
    {
        match self {
            Json::Number(number) => number.as_i64,
            _ => None,
        }
    }

    pub fn as_u64(&self) -> (out: Option<u64>)
        ensures
            out == self@.unsigned(),
    {
        match self {
            Json::Number(number) => number.as_u64,
            _ => None,
        }
    }

    pub fn as_bool(&self) -> (out: Option<bool>)
        ensures
            out == self@.boolean(),
    {
        match self {
            Json::Bool(b) => Some(*b),
            _ => None,
        }
    }

    pub fn as_array(&self) -> (out: Option<&Vec<Json>>)
        ensures
            match out {
                Some(items) => self@.items() matches Some(nodes) && nodes.len() == items@.len() && (
                forall|i: int| 0 <= i < nodes.len() ==> #[trigger] nodes[i] == items@[i]@),
                None => self@.items() is None,
            },
    {
        match self {
            Json::Array(items) => Some(items),
            _ => None,
        }
    }
}

// ---------------------------------------------------------------------------
// Fields
// ---------------------------------------------------------------------------
/// Read a string field, treating anything but a string as absent.
pub fn field<'a>(value: &'a Json, key: &str) -> (out: Option<&'a str>)
    ensures
        opt_text(out) == value@.text_at(key@),
{
    match value.get(key) {
        Some(found) => found.as_str(),
        None => None,
    }
}

pub fn int_field(value: &Json, key: &str) -> (out: Option<i64>)
    ensures
        out == value@.int_at(key@),
{
    match value.get(key) {
        Some(found) => found.as_i64(),
        None => None,
    }
}

pub fn uint_field(value: &Json, key: &str) -> (out: Option<u64>)
    ensures
        out == value@.uint_at(key@),
{
    match value.get(key) {
        Some(found) => found.as_u64(),
        None => None,
    }
}

pub fn bool_field(value: &Json, key: &str) -> (out: Option<bool>)
    ensures
        out == value@.boolean_at(key@),
{
    match value.get(key) {
        Some(found) => found.as_bool(),
        None => None,
    }
}

/// A number field kept as its raw wire token, never routed through a float.
pub fn number_token(value: &Json, key: &str) -> (out: Option<String>)
    ensures
        opt_string(out) == value@.number_token_at(key@),
{
    match value.get(key) {
        Some(Json::Number(number)) => Some(number.token.clone()),
        _ => None,
    }
}

// ---------------------------------------------------------------------------
// Text form
// ---------------------------------------------------------------------------
#[verifier::external_type_specification]
#[verifier::external_body]
pub struct ExValue(serde_json::Value);

/// What a `serde_json::Value` holds.
pub uninterp spec fn value_node(value: serde_json::Value) -> Node;

/// What `serde_json::from_str` makes of a text: its value, or nothing where the
/// text is no JSON document.
pub uninterp spec fn json_of_text(text: Seq<char>) -> Option<Node>;

/// What a `serde_json::Value` built from plain data holds. It differs from the
/// data where an object repeats a key or lists its keys in an order of its own.
pub uninterp spec fn built_node(node: Node) -> Node;

/// The text that `serde_json::Value::to_string` gives for a value.
pub uninterp spec fn value_text(node: Node) -> Seq<char>;

/// The compact text of plain data.
pub open spec fn json_text(node: Node) -> Seq<char> {
    value_text(built_node(node))
}

/// `serde_json::from_str::<Value>` on a text is a function of the text alone.
#[verifier::external_body]
fn value_of_text(text: &str) -> (out: Option<serde_json::Value>)
    ensures
        json_of_text(text@) == (match out {
            Some(value) => Some(value_node(value)),
            None => None::<Node>,
        }),
{
    serde_json::from_str(text).ok()
}

/// A `serde_json::Value` as plain data: the variants one for one, the number
/// token by `Number::to_string`, its integer readings by `Number::as_i64` and
/// `Number::as_u64`.
#[verifier::external_body]
fn json_of_value(value: serde_json::Value) -> (out: Json)
    ensures
        out@ == value_node(value),
{
    match value {
        serde_json::Value::Null => Json::Null,
        serde_json::Value::Bool(b) => Json::Bool(b),
        serde_json::Value::Number(n) => Json::Number(
            JsonNumber { token: n.to_string(), as_i64: n.as_i64(), as_u64: n.as_u64() },
        ),
        serde_json::Value::String(s) => Json::Text(s),
        serde_json::Value::Array(a) => Json::Array(a.into_iter().map(json_of_value).collect()),
        serde_json::Value::Object(o) => Json::Object(
            o.into_iter().map(|(k, v)| (k, json_of_value(v))).collect(),
        ),
    }
}

/// Plain data as a `serde_json::Value`, the variants one for one; a number is
/// carried by its token through `Number::from_string_unchecked`.
#[verifier::external_body]
fn value_of_json(json: &Json) -> (out: serde_json::Value)
    ensures
        value_node(out) == built_node(json@),
{
    match json {
        Json::Null => serde_json::Value::Null,
        Json::Bool(b) => serde_json::Value::Bool(*b),
        Json::Number(n) => serde_json::Value::Number(
            serde_json::Number::from_string_unchecked(n.token.clone()),
        ),
        Json::Text(s) => serde_json::Value::String(s.clone()),
        Json::Array(a) => serde_json::Value::Array(a.iter().map(value_of_json).collect()),
        Json::Object(o) => serde_json::Value::Object(
            o.iter().map(|(k, v)| (k.clone(), value_of_json(v))).collect(),
        ),
    }
}

/// `serde_json::Value::to_string` is a function of the value alone.
#[verifier::external_body]
fn text_of_value(value: &serde_json::Value) -> (out: String)
    ensures
        out@ == value_text(value_node(*value)),
{
    value.to_string()
}

impl Json {
    /// The value a text denotes; nothing where it is no JSON document.
    pub fn parse(text: &str) -> (out: Option<Json>)
        ensures
            json_of_text(text@) == (match out {
                Some(json) => Some(json@),
                None => None::<Node>,
            }),
    {
        match value_of_text(text) {
            Some(value) => Some(json_of_value(value)),
            None => None,
        }
    }

    /// The compact text of this value.
    pub fn to_text(&self) -> (out: String)
        ensures
            out@ == json_text(self@),
    {
        text_of_value(&value_of_json(self))
    }
}

// ---------------------------------------------------------------------------
// Building values
// ---------------------------------------------------------------------------
/// The number node of an unsigned integer.
pub open spec fn uint_node(n: u64) -> Node {
    Node::Number {
        token: crate::parse::decimal(n as nat),
        as_i64: if n <= i64::MAX {
            Some(n as i64)
        } else {
            None
        },
        as_u64: Some(n),
    }
}

pub open spec fn text_nodes(texts: Seq<String>) -> Seq<Node> {
    texts.map_values(|text: String| Node::Text(text@))
}

pub open spec fn uint_nodes(numbers: Seq<u64>) -> Seq<Node> {
    numbers.map_values(|n: u64| uint_node(n))
}

pub fn json_uint(n: u64) -> (out: Json)
    ensures
        out@ == uint_node(n),
{
    let mut token = String::new();
    crate::parse::push_decimal(&mut token, n as u128);
    assert(token@ =~= crate::parse::decimal(n as nat));
    Json::Number(
        JsonNumber {
            token,
            as_i64: if n <= i64::MAX as u64 {
                Some(n as i64)
            } else {
                None
            },
            as_u64: Some(n),
        },
    )
}

pub fn json_texts(texts: &Vec<String>) -> (out: Json)
    ensures
        out@ == Node::Array(text_nodes(texts@)),
{
    let mut items: Vec<Json> = Vec::new();
    let mut i: usize = 0;
    while i < texts.len()
        invariant
            i <= texts@.len(),
            items@.len() == i,
            forall|k: int| 0 <= k < i ==> (#[trigger] items@[k])@ == Node::Text(texts@[k]@),
        decreases texts@.len() - i,
    {
        items.push(Json::Text(texts[i].clone()));
        i += 1;
    }
    let out = Json::Array(items);
    assert(out@->Array_0 =~= text_nodes(texts@));
    out
}

pub fn json_uints(numbers: &Vec<u64>) -> (out: Json)
    ensures
        out@ == Node::Array(uint_nodes(numbers@)),
{
    let mut items: Vec<Json> = Vec::new();
    let mut i: usize = 0;
    while i < numbers.len()
        invariant
            i <= numbers@.len(),
            items@.len() == i,
            forall|k: int| 0 <= k < i ==> (#[trigger] items@[k])@ == uint_node(numbers@[k]),
        decreases numbers@.len() - i,
    {
        items.push(json_uint(numbers[i]));
        i += 1;
    }
    let out = Json::Array(items);
    assert(out@->Array_0 =~= uint_nodes(numbers@));
    out
}

/// Appends one entry to an object under construction.
pub fn push_entry(entries: &mut Vec<(String, Json)>, key: &str, value: Json)
    ensures
        entries_node(final(entries)@) == entries_node(old(entries)@).push((key@, value@)),
{
    entries.push((key.to_owned(), value));
    assert(entries_node(entries@) =~= entries_node(old(entries)@).push((key@, value@)));
}

/// The model of an object under construction.
pub open spec fn entries_node(entries: Seq<(String, Json)>) -> Seq<(Seq<char>, Node)> {
    Seq::new(entries.len(), |i: int| (entries[i].0@, entries[i].1@))
}

/// The object of the given entries.
pub fn json_object(entries: Vec<(String, Json)>) -> (out: Json)
    ensures
        out@ == Node::Object(entries_node(entries@)),
{
    let out = Json::Object(entries);
    assert(out@->Object_0 =~= entries_node(entries@));
    out
}

/// An object gives at a key the value of the first entry under it, and nothing where no
/// entry is under it; nothing but an object gives anything.
pub proof fn law_an_object_gives_its_first_entry(node: Node, key: Seq<char>)
    ensures
        node matches Node::Object(entries) ==> {
            &&& node.get(key) is None <==> forall|i: int|
                0 <= i < entries.len() ==> (#[trigger] entries[i]).0 != key
            &&& node.get(key) is Some ==> exists|k: int|
                0 <= k < entries.len() && (#[trigger] entries[k]).0 == key && node.get(key) == Some(
                    entries[k].1,
                ) && forall|i: int| 0 <= i < k ==> (#[trigger] entries[i]).0 != key
        },
        !(node is Object) ==> node.get(key) is None,
{
    if let Node::Object(entries) = node {
        lemma_lookup_is_first(entries, key);
    }
}

proof fn lemma_lookup_is_first(entries: Seq<(Seq<char>, Node)>, key: Seq<char>)
    ensures
        lookup(entries, key) is None <==> forall|i: int|
            0 <= i < entries.len() ==> (#[trigger] entries[i]).0 != key,
        lookup(entries, key) is Some ==> exists|k: int|
            0 <= k < entries.len() && (#[trigger] entries[k]).0 == key && lookup(entries, key)
                == Some(entries[k].1) && forall|i: int|
                0 <= i < k ==> (#[trigger] entries[i]).0 != key,
{
    if exists|k: int| 0 <= k < entries.len() && (#[trigger] entries[k]).0 == key {
        let k = choose|k: int| 0 <= k < entries.len() && (#[trigger] entries[k]).0 == key;
        lemma_least_entry(entries, key, k);
        let first = choose|f: int|
            0 <= f < entries.len() && (#[trigger] entries[f]).0 == key && forall|i: int|
                0 <= i < f ==> (#[trigger] entries[i]).0 != key;
        lemma_lookup_at(entries, key, first);
    } else {
        lemma_lookup_none(entries, key);
    }
}

proof fn lemma_least_entry(entries: Seq<(Seq<char>, Node)>, key: Seq<char>, k: int)
    requires
        0 <= k < entries.len(),
        entries[k].0 == key,
    ensures
        exists|f: int|
            0 <= f < entries.len() && (#[trigger] entries[f]).0 == key && forall|i: int|
                0 <= i < f ==> (#[trigger] entries[i]).0 != key,
    decreases k,
{
    if exists|j: int| 0 <= j < k && (#[trigger] entries[j]).0 == key {
        let j = choose|j: int| 0 <= j < k && (#[trigger] entries[j]).0 == key;
        lemma_least_entry(entries, key, j);
    } else {
        assert(entries[k].0 == key);
    }
}

/// A value is read as what it is: a text only of a text, an integer only of a number
/// that has one, a flag only of a flag, items only of an array; and at a key the value
/// there is read in the same way.
pub proof fn law_values_are_read_as_what_they_are(node: Node, key: Seq<char>)
    ensures
        node.text() matches Some(text) <==> node is Text,
        node matches Node::Text(text) ==> node.text() == Some(text),
        node matches Node::Number { token, as_i64, as_u64 } ==> node.signed() == as_i64
            && node.unsigned() == as_u64 && node.number_token() == Some(token),
        !(node is Number) ==> node.signed() is None && node.unsigned() is None
            && node.number_token() is None,
        node matches Node::Bool(b) ==> node.boolean() == Some(b),
        !(node is Bool) ==> node.boolean() is None,
        node matches Node::Array(items) ==> node.items() == Some(items),
        !(node is Array) ==> node.items() is None,
        node.get(key) is None ==> {
            &&& node.text_at(key) is None
            &&& node.int_at(key) is None
            &&& node.uint_at(key) is None
            &&& node.boolean_at(key) is None
            &&& node.number_token_at(key) is None
            &&& node.items_at(key) is None
        },
        node.get(key) matches Some(value) ==> {
            &&& node.text_at(key) == value.text()
            &&& node.int_at(key) == value.signed()
            &&& node.uint_at(key) == value.unsigned()
            &&& node.boolean_at(key) == value.boolean()
            &&& node.number_token_at(key) == value.number_token()
            &&& node.items_at(key) == value.items()
        },
{
}

/// Built values hold what they were built of: an integer under its numeral, texts and
/// integers in their order.
pub proof fn law_built_values_hold_their_parts(
    n: u64,
    number: Json,
    texts: Vec<String>,
    list: Json,
    numbers: Vec<u64>,
    ids: Json,
)
    requires
        call_ensures(json_uint, (n,), number),
        call_ensures(json_texts, (&texts,), list),
        call_ensures(json_uints, (&numbers,), ids),
    ensures
        number@.unsigned() == Some(n),
        n <= i64::MAX ==> number@.signed() == Some(n as i64),
        n > i64::MAX ==> number@.signed() is None,
        number@.number_token() is Some,
        crate::parse::digits_value(number@.number_token()->0) == n,
        list@ is Array && list@->Array_0.len() == texts@.len(),
        forall|i: int|
            0 <= i < texts@.len() ==> #[trigger] list@->Array_0[i] == Node::Text(texts@[i]@),
        ids@ is Array && ids@->Array_0.len() == numbers@.len(),
        forall|i: int|
            0 <= i < numbers@.len() ==> (#[trigger] ids@->Array_0[i]).unsigned() == Some(
                numbers@[i],
            ),
{
    crate::parse::law_digits_are_read_as_written(Seq::empty(), '0', n as nat);
}

/// A value is written out by what it holds.
pub proof fn law_a_value_is_its_model(value: Json, i: int)
    ensures
        value matches Json::Bool(b) ==> value@ == Node::Bool(b),
        value matches Json::Text(text) ==> value@ == Node::Text(text@),
        value matches Json::Null ==> value@ == Node::Null,
        value matches Json::Array(items) ==> value@ is Array && value@->Array_0.len()
            == items@.len() && (0 <= i < items@.len() ==> value@->Array_0[i] == items@[i]@),
        value matches Json::Object(entries) ==> value@ is Object && value@->Object_0.len()
            == entries@.len() && (0 <= i < entries@.len() ==> value@->Object_0[i] == (
            entries@[i].0@,
            entries@[i].1@,
        )),
        value matches Json::Number(n) ==> value@ == (Node::Number {
            token: n.token@,
            as_i64: n.as_i64,
            as_u64: n.as_u64,
        }),
{
}

/// A value is read as what it holds, and a member of an object under its key; an entry
/// that is added comes last.
pub proof fn law_members_are_read_under_their_keys(
    value: Json,
    key: &str,
    member: Option<&Json>,
    number: Option<i64>,
    uint: Option<u64>,
    flag: Option<bool>,
    text: Option<&str>,
    whole: Option<i64>,
    items: Option<&Vec<Json>>,
    added: Json,
    entries: Vec<(String, Json)>,
    object: Json,
)
    requires
        call_ensures(Json::get, (&value, key), member),
        call_ensures(int_field, (&value, key), number),
        call_ensures(uint_field, (&value, key), uint),
        call_ensures(bool_field, (&value, key), flag),
        call_ensures(field, (&value, key), text),
        call_ensures(Json::as_i64, (&value,), whole),
        call_ensures(Json::as_array, (&value,), items),
        call_ensures(json_object, (entries,), object),
    ensures
        member matches Some(found) ==> value@.get(key@) == Some(found@) && number == found@.signed()
            && uint == found@.unsigned() && flag == found@.boolean() && opt_text(text)
            == found@.text(),
        member is None ==> number is None && uint is None && flag is None && text is None,
        whole == value@.signed(),
        items is Some <==> value@ is Array,
        items matches Some(list) ==> list@.len() == value@->Array_0.len(),
        object@ is Object && object@->Object_0.len() == entries@.len(),
        forall|entries: &mut Vec<(String, Json)>| #[trigger]
            call_ensures(push_entry, (entries, key, added), ()) ==> {
                &&& final(entries)@.len() == entries@.len() + 1
                &&& final(entries)@.last().0@ == key@
                &&& final(entries)@.last().1@ == added@
            },
{
    assert(entries_node(entries@).len() == entries@.len());
    assert forall|entries: &mut Vec<(String, Json)>| #[trigger]
        call_ensures(push_entry, (entries, key, added), ()) implies {
        &&& final(entries)@.len() == entries@.len() + 1
        &&& final(entries)@.last().0@ == key@
        &&& final(entries)@.last().1@ == added@
    } by {
        let before = entries_node(entries@);
        let after = entries_node(final(entries)@);
        assert(after == before.push((key@, added@)));
        assert(after.len() == final(entries)@.len());
        assert(before.len() == entries@.len());
        assert(after.last() == (key@, added@));
    }
}

} // verus!
