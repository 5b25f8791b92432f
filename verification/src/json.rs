//! JSON values: how they are read from a text, looked into and built.

use crate::text::same_text;
use vstd::prelude::*;

verus! {

/// A JSON value as mathematics sees it.
#[verifier::ext_equal]
pub enum JsonNode {
    Null,
    Bool(bool),
    Unsigned(nat),
    Negative(int),
    Fraction(Seq<char>),
    Single(u32),
    Text(Seq<char>),
    Array(Seq<JsonNode>),
    Object(Seq<(Seq<char>, JsonNode)>),
}

/// A JSON value.
#[derive(Debug, PartialEq, Eq)]
pub enum Json {
    Null,
    Bool(bool),
    /// A number that is not negative and has no fraction.
    Unsigned(u64),
    /// A negative number without a fraction.
    Negative(i64),
    /// A number with a fraction or an exponent, as it is written. Nothing here computes with one.
    Fraction(String),
    /// A number of single precision, given by its bits, as a request carries one.
    Single(u32),
    Text(String),
    Array(Vec<Json>),
    /// The members, in order.
    Object(Vec<(String, Json)>),
}

/// The value that `value` stands for.
pub open spec fn json_node(value: Json) -> JsonNode
    decreases value,
{
    match value {
        Json::Null => JsonNode::Null,
        Json::Bool(b) => JsonNode::Bool(b),
        Json::Unsigned(n) => JsonNode::Unsigned(n as nat),
        Json::Negative(n) => JsonNode::Negative(n as int),
        Json::Fraction(s) => JsonNode::Fraction(s@),
        Json::Single(bits) => JsonNode::Single(bits),
        Json::Text(s) => JsonNode::Text(s@),
        Json::Array(items) => JsonNode::Array(
            Seq::new(
                items@.len(),
                |i: int|
                    if 0 <= i < items@.len() {
                        json_node(items@[i])
                    } else {
                        JsonNode::Null
                    },
            ),
        ),
        Json::Object(members) => JsonNode::Object(
            Seq::new(
                members@.len(),
                |i: int|
                    if 0 <= i < members@.len() {
                        (members@[i].0@, json_node(members@[i].1))
                    } else {
                        (Seq::empty(), JsonNode::Null)
                    },
            ),
        ),
    }
}

impl View for Json {
    type V = JsonNode;

    open spec fn view(&self) -> JsonNode {
        json_node(*self)
    }
}

// Reading from a text.

/// A value of the crate `serde_json`.
#[verifier::external_type_specification]
#[verifier::external_body]
pub struct ExValue(serde_json::Value);

/// What a value of the crate `serde_json` holds.
pub uninterp spec fn value_node(value: serde_json::Value) -> JsonNode;

/// The value that a text holds, as `serde_json::from_str` reads it; nothing where it refuses the
/// text.
pub uninterp spec fn parsed(text: Seq<char>) -> Option<JsonNode>;

/// One level of a value of the crate `serde_json`.
enum Opened<'a> {
    Null,
    Bool(bool),
    Unsigned(u64),
    Negative(i64),
    Fraction(String),
    Text(String),
    Array(Vec<&'a serde_json::Value>),
    Object(Vec<(String, &'a serde_json::Value)>),
}

/// `opened` is one level of `node`.
spec fn opens(node: JsonNode, opened: Opened<'_>) -> bool {
    match opened {
        Opened::Null => node == JsonNode::Null,
        Opened::Bool(b) => node == JsonNode::Bool(b),
        Opened::Unsigned(n) => node == JsonNode::Unsigned(n as nat),
        Opened::Negative(n) => node == JsonNode::Negative(n as int),
        Opened::Fraction(s) => node == JsonNode::Fraction(s@),
        Opened::Text(s) => node == JsonNode::Text(s@),
        Opened::Array(items) => match node {
            JsonNode::Array(nodes) => nodes.len() == items@.len() && forall|i: int|
                0 <= i < nodes.len() ==> #[trigger] nodes[i] == value_node(*items@[i]),
            _ => false,
        },
        Opened::Object(members) => match node {
            JsonNode::Object(nodes) => nodes.len() == members@.len() && forall|i: int|
                0 <= i < nodes.len() ==> #[trigger] nodes[i] == (
                    members@[i].0@,
                    value_node(*members@[i].1),
                ),
            _ => false,
        },
    }
}

/// `serde_json::from_str` reads a whole text as one JSON value. What it reads, and whether it
/// refuses the text, depends on the text alone.
#[verifier::external_body]
fn parse_value(text: &str) -> (value: Option<serde_json::Value>)
    ensures
        match value {
            Some(value) => parsed(text@) == Some(value_node(value)),
            None => parsed(text@) is None,
        },
{
    serde_json::from_str(text).ok()
}

/// Tells the variants of `serde_json::Value` apart. A number holds what `Number::as_u64` gives, or
/// else, being negative, what `Number::as_i64` gives, or else has a fraction or an exponent and is
/// kept as `Number` writes it.
#[verifier::external_body]
fn open_value<'a>(value: &'a serde_json::Value) -> (opened: Opened<'a>)
    ensures
        opens(value_node(*value), opened),
{
    match value {
        serde_json::Value::Null => Opened::Null,
        serde_json::Value::Bool(b) => Opened::Bool(*b),
        serde_json::Value::Number(n) => match (n.as_u64(), n.as_i64()) {
            (Some(n), _) => Opened::Unsigned(n),
            (None, Some(n)) => Opened::Negative(n),
            (None, None) => Opened::Fraction(n.to_string()),
        },
        serde_json::Value::String(s) => Opened::Text(s.clone()),
        serde_json::Value::Array(items) => Opened::Array(items.iter().collect()),
        serde_json::Value::Object(map) => {
            Opened::Object(map.iter().map(|(key, value)| (key.clone(), value)).collect())
        },
    }
}

/// A value of the crate `serde_json`, as a value of this crate.
pub fn from_value(value: &serde_json::Value) -> (json: Json)
    ensures
        json@ == value_node(*value),
    decreases value_node(*value),
{
    match open_value(value) {
        Opened::Null => Json::Null,
        Opened::Bool(b) => Json::Bool(b),
        Opened::Unsigned(n) => Json::Unsigned(n),
        Opened::Negative(n) => Json::Negative(n),
        Opened::Fraction(s) => Json::Fraction(s),
        Opened::Text(s) => Json::Text(s),
        Opened::Array(values) => {
            let ghost nodes = value_node(*value)->Array_0;
            let mut items: Vec<Json> = Vec::new();
            let mut i: usize = 0;
            while i < values.len()
                invariant
                    i == items@.len(),
                    i <= values@.len(),
                    value_node(*value) == JsonNode::Array(nodes),
                    nodes.len() == values@.len(),
                    forall|k: int|
                        0 <= k < nodes.len() ==> #[trigger] nodes[k] == value_node(*values@[k]),
                    forall|k: int| 0 <= k < i ==> (#[trigger] items@[k])@ == nodes[k],
                decreases values@.len() - i,
            {
                assert(nodes[i as int] == value_node(*values@[i as int]));
                assert(decreases_to!(value_node(*value) => value_node(*value)->Array_0));
                assert(decreases_to!(nodes => nodes[i as int]));
                items.push(from_value(values[i]));
                i = i + 1;
            }
            let json: Json = Json::Array(items);
            assert(json@->Array_0 =~= nodes);
            json
        },
        Opened::Object(values) => {
            let ghost nodes = value_node(*value)->Object_0;
            let mut members: Vec<(String, Json)> = Vec::new();
            let mut i: usize = 0;
            while i < values.len()
                invariant
                    i == members@.len(),
                    i <= values@.len(),
                    value_node(*value) == JsonNode::Object(nodes),
                    nodes.len() == values@.len(),
                    forall|k: int|
                        0 <= k < nodes.len() ==> #[trigger] nodes[k] == (
                            values@[k].0@,
                            value_node(*values@[k].1),
                        ),
                    forall|k: int|
                        0 <= k < i ==> (#[trigger] members@[k]).0@ == nodes[k].0
                            && members@[k].1@ == nodes[k].1,
                decreases values@.len() - i,
            {
                assert(nodes[i as int].1 == value_node(*values@[i as int].1));
                assert(decreases_to!(value_node(*value) => value_node(*value)->Object_0));
                assert(decreases_to!(nodes => nodes[i as int]));
                assert(decreases_to!(nodes[i as int] => nodes[i as int].1));
                members.push((values[i].0.clone(), from_value(values[i].1)));
                i = i + 1;
            }
            let json: Json = Json::Object(members);
            assert(json@->Object_0 =~= nodes);
            json
        },
    }
}

/// Reads a text as one JSON value.
pub fn parse(text: &str) -> (json: Option<Json>)
    ensures
        match json {
            Some(json) => parsed(text@) == Some(json@),
            None => parsed(text@) is None,
        },
{
    match parse_value(text) {
        Some(value) => Some(from_value(&value)),
        None => None,
    }
}

// Looking into a value.

/// The first member of the given name from `from` on.
pub open spec fn member_from(
    members: Seq<(Seq<char>, JsonNode)>,
    key: Seq<char>,
    from: int,
) -> Option<JsonNode>
    decreases members.len() - from,
{
    if from < 0 || from >= members.len() {
        None
    } else if members[from].0 == key {
        Some(members[from].1)
    } else {
        member_from(members, key, from + 1)
    }
}

/// The member of the given name, where the value is an object that has one.
pub open spec fn member(node: JsonNode, key: Seq<char>) -> Option<JsonNode> {
    match node {
        JsonNode::Object(members) => member_from(members, key, 0),
        _ => None,
    }
}

/// The item at the given place, where the value is an array that has one.
pub open spec fn item(node: JsonNode, i: int) -> Option<JsonNode> {
    match node {
        JsonNode::Array(items) => if 0 <= i < items.len() {
            Some(items[i])
        } else {
            None
        },
        _ => None,
    }
}

/// The text, where the value is one.
pub open spec fn text(node: JsonNode) -> Option<Seq<char>> {
    match node {
        JsonNode::Text(s) => Some(s),
        _ => None,
    }
}

/// The number, where the value is one without a fraction that fits a signed number of 64 bits.
pub open spec fn signed(node: JsonNode) -> Option<int> {
    match node {
        JsonNode::Unsigned(n) => if n <= i64::MAX {
            Some(n as int)
        } else {
            None
        },
        JsonNode::Negative(n) => Some(n),
        _ => None,
    }
}

/// The number, where the value is one that is not negative and has no fraction.
pub open spec fn unsigned(node: JsonNode) -> Option<nat> {
    match node {
        JsonNode::Unsigned(n) => Some(n),
        _ => None,
    }
}

/// The value that an optional value stands for.
pub open spec fn node_of(json: Option<&Json>) -> Option<JsonNode> {
    match json {
        Some(json) => Some(json@),
        None => None,
    }
}

/// The member of the member, and so on: the value at the end of a path of names.
pub open spec fn member_of(node: Option<JsonNode>, key: Seq<char>) -> Option<JsonNode> {
    match node {
        Some(node) => member(node, key),
        None => None,
    }
}

/// The item at a place of an optional value.
pub open spec fn item_of(node: Option<JsonNode>, i: int) -> Option<JsonNode> {
    match node {
        Some(node) => item(node, i),
        None => None,
    }
}

/// The text of an optional value.
pub open spec fn text_of(node: Option<JsonNode>) -> Option<Seq<char>> {
    match node {
        Some(node) => text(node),
        None => None,
    }
}

impl Json {
    /// The member of the given name.
    pub fn get(&self, key: &str) -> (found: Option<&Json>)
        ensures
            node_of(found) == member(self@, key@),
    {
        match self {
            Json::Object(members) => {
                let ghost nodes = self@->Object_0;
                let mut i: usize = 0;
                while i < members.len()
                    invariant
                        i <= members@.len(),
                        *self == Json::Object(*members),
                        self@ == JsonNode::Object(nodes),
                        nodes.len() == members@.len(),
                        member_from(nodes, key@, 0) == member_from(nodes, key@, i as int),
                    decreases members@.len() - i,
                {
                    assert(nodes[i as int] == (members@[i as int].0@, members@[i as int].1@));
                    if same_text(members[i].0.as_str(), key) {
                        return Some(&members[i].1);
                    }
                    i = i + 1;
                }
                None
            },
            _ => None,
        }
    }

    /// The item at the given place.
    pub fn item(&self, i: usize) -> (found: Option<&Json>)
        ensures
            node_of(found) == item(self@, i as int),
    {
        match self {
            Json::Array(items) => if i < items.len() {
                assert(self@->Array_0[i as int] == items@[i as int]@);
                Some(&items[i])
            } else {
                None
            },
            _ => None,
        }
    }

    /// The items, where the value is an array.
    pub fn as_array(&self) -> (found: Option<&Vec<Json>>)
        ensures
            match found {
                Some(items) => *self == Json::Array(*items) && self@ == JsonNode::Array(
                    nodes(items@),
                ),
                None => !(self@ is Array),
            },
    {
        match self {
            Json::Array(items) => {
                assert(self@->Array_0 =~= nodes(items@));
                Some(items)
            },
            _ => None,
        }
    }

    /// The text, where the value is one.
    pub fn as_str(&self) -> (found: Option<&str>)
        ensures
            match found {
                Some(s) => text(self@) == Some(s@),
                None => text(self@) is None,
            },
    {
        match self {
            Json::Text(s) => Some(s.as_str()),
            _ => None,
        }
    }

    /// The number, where the value is one without a fraction that fits.
    pub fn as_i64(&self) -> (found: Option<i64>)
        ensures
            match found {
                Some(n) => signed(self@) == Some(n as int),
                None => signed(self@) is None,
            },
    {
        match self {
            Json::Unsigned(n) => if *n <= 0x7fff_ffff_ffff_ffff {
                Some(*n as i64)
            } else {
                None
            },
            Json::Negative(n) => Some(*n),
            _ => None,
        }
    }

    /// The number, where the value is one that is not negative and has no fraction.
    pub fn as_u64(&self) -> (found: Option<u64>)
        ensures
            match found {
                Some(n) => unsigned(self@) == Some(n as nat),
                None => unsigned(self@) is None,
            },
    {
        match self {
            Json::Unsigned(n) => Some(*n),
            _ => None,
        }
    }
}

/// The member of an optional value.
pub fn get_of<'a>(json: Option<&'a Json>, key: &str) -> (found: Option<&'a Json>)
    ensures
        node_of(found) == member_of(node_of(json), key@),
{
    match json {
        Some(json) => json.get(key),
        None => None,
    }
}

/// The item of an optional value.
pub fn item_at<'a>(json: Option<&'a Json>, i: usize) -> (found: Option<&'a Json>)
    ensures
        node_of(found) == item_of(node_of(json), i as int),
{
    match json {
        Some(json) => json.item(i),
        None => None,
    }
}

/// The text of an optional value.
pub fn str_of<'a>(json: Option<&'a Json>) -> (found: Option<&'a str>)
    ensures
        match found {
            Some(s) => text_of(node_of(json)) == Some(s@),
            None => text_of(node_of(json)) is None,
        },
{
    match json {
        Some(json) => json.as_str(),
        None => None,
    }
}

// Building a value.

/// A copy of a value.
pub fn copy_json(json: &Json) -> (copy: Json)
    ensures
        copy@ == json@,
    decreases json@,
{
    match json {
        Json::Null => Json::Null,
        Json::Bool(b) => Json::Bool(*b),
        Json::Unsigned(n) => Json::Unsigned(*n),
        Json::Negative(n) => Json::Negative(*n),
        Json::Fraction(s) => Json::Fraction(s.clone()),
        Json::Single(bits) => Json::Single(*bits),
        Json::Text(s) => Json::Text(s.clone()),
        Json::Array(items) => {
            let mut copies: Vec<Json> = Vec::new();
            let mut i: usize = 0;
            while i < items.len()
                invariant
                    i == copies@.len(),
                    i <= items@.len(),
                    *json == Json::Array(*items),
                    forall|k: int| 0 <= k < i ==> (#[trigger] copies@[k])@ == items@[k]@,
                decreases items@.len() - i,
            {
                assert(json@->Array_0[i as int] == items@[i as int]@);
                assert(decreases_to!(json@ => json@->Array_0));
                assert(decreases_to!(json@->Array_0 => json@->Array_0[i as int]));
                copies.push(copy_json(&items[i]));
                i = i + 1;
            }
            let copy: Json = Json::Array(copies);
            assert(copy@->Array_0 =~= json@->Array_0);
            copy
        },
        Json::Object(members) => {
            let mut copies: Vec<(String, Json)> = Vec::new();
            let mut i: usize = 0;
            while i < members.len()
                invariant
                    i == copies@.len(),
                    i <= members@.len(),
                    *json == Json::Object(*members),
                    forall|k: int|
                        0 <= k < i ==> (#[trigger] copies@[k]).0@ == members@[k].0@
                            && copies@[k].1@ == members@[k].1@,
                decreases members@.len() - i,
            {
                assert(json@->Object_0[i as int].1 == members@[i as int].1@);
                assert(decreases_to!(json@ => json@->Object_0));
                assert(decreases_to!(json@->Object_0 => json@->Object_0[i as int]));
                assert(decreases_to!(json@->Object_0[i as int] => json@->Object_0[i as int].1));
                copies.push((members[i].0.clone(), copy_json(&members[i].1)));
                i = i + 1;
            }
            let copy: Json = Json::Object(copies);
            assert(copy@->Object_0 =~= json@->Object_0);
            copy
        },
    }
}

/// A copy of a list of values.
pub fn copy_items(items: &Vec<Json>) -> (copies: Vec<Json>)
    ensures
        nodes(copies@) == nodes(items@),
{
    let mut copies: Vec<Json> = Vec::new();
    let mut i: usize = 0;
    while i < items.len()
        invariant
            i == copies@.len(),
            i <= items@.len(),
            forall|k: int| 0 <= k < i ==> (#[trigger] copies@[k])@ == items@[k]@,
        decreases items@.len() - i,
    {
        copies.push(copy_json(&items[i]));
        i = i + 1;
    }
    assert(nodes(copies@) =~= nodes(items@));
    copies
}

/// The values that a list stands for.
pub open spec fn nodes(items: Seq<Json>) -> Seq<JsonNode> {
    items.map_values(|json: Json| json@)
}

/// The members that a list stands for.
pub open spec fn member_nodes(members: Seq<(String, Json)>) -> Seq<(Seq<char>, JsonNode)> {
    members.map_values(|m: (String, Json)| (m.0@, m.1@))
}

/// A text as a value.
pub fn json_text(s: &str) -> (json: Json)
    ensures
        json@ == JsonNode::Text(s@),
{
    Json::Text(s.to_owned())
}

/// An array of the given items.
pub fn json_array(items: Vec<Json>) -> (json: Json)
    ensures
        json@ == JsonNode::Array(nodes(items@)),
{
    let json: Json = Json::Array(items);
    assert(json@->Array_0 =~= nodes(items@));
    json
}

/// An object of the given members.
pub fn json_object(members: Vec<(String, Json)>) -> (json: Json)
    ensures
        json@ == JsonNode::Object(member_nodes(members@)),
{
    let json: Json = Json::Object(members);
    assert(json@->Object_0 =~= member_nodes(members@));
    json
}

/// Adds one member after the others.
pub fn with_member(members: Vec<(String, Json)>, key: &str, value: Json) -> (all: Vec<
    (String, Json),
>)
    ensures
        member_nodes(all@) == member_nodes(members@).push((key@, value@)),
{
    let mut all: Vec<(String, Json)> = members;
    all.push((key.to_owned(), value));
    assert(member_nodes(all@) =~= member_nodes(members@).push((key@, value@)));
    all
}

/// Adds one item after the others.
pub fn with_item(items: Vec<Json>, value: Json) -> (all: Vec<Json>)
    ensures
        nodes(all@) == nodes(items@).push(value@),
{
    let mut all: Vec<Json> = items;
    all.push(value);
    assert(nodes(all@) =~= nodes(items@).push(value@));
    all
}

/// No members.
pub fn no_members() -> (members: Vec<(String, Json)>)
    ensures
        member_nodes(members@) == Seq::<(Seq<char>, JsonNode)>::empty(),
{
    let members: Vec<(String, Json)> = Vec::new();
    assert(member_nodes(members@) =~= Seq::empty());
    members
}

/// No items.
pub fn no_items() -> (items: Vec<Json>)
    ensures
        nodes(items@) == Seq::<JsonNode>::empty(),
{
    let items: Vec<Json> = Vec::new();
    assert(nodes(items@) =~= Seq::empty());
    items
}

/// The place of the first member of the given name from `from` on.
pub open spec fn place_from(members: Seq<(Seq<char>, JsonNode)>, key: Seq<char>, from: int) -> Option<
    int,
>
    decreases members.len() - from,
{
    if from < 0 || from >= members.len() {
        None
    } else if members[from].0 == key {
        Some(from)
    } else {
        place_from(members, key, from + 1)
    }
}

/// The members with the one of the given name set: in its place, or after the others where there
/// was none.
pub open spec fn set_in(
    members: Seq<(Seq<char>, JsonNode)>,
    key: Seq<char>,
    value: JsonNode,
) -> Seq<(Seq<char>, JsonNode)> {
    match place_from(members, key, 0) {
        Some(i) => members.update(i, (key, value)),
        None => members.push((key, value)),
    }
}

proof fn lemma_place_from(members: Seq<(Seq<char>, JsonNode)>, key: Seq<char>, from: int)
    requires
        0 <= from,
    ensures
        match place_from(members, key, from) {
            Some(i) => {
                &&& from <= i < members.len()
                &&& members[i].0 == key
                &&& member_from(members, key, from) == Some(members[i].1)
                &&& forall|j: int| from <= j < i ==> (#[trigger] members[j]).0 != key
            },
            None => {
                &&& member_from(members, key, from) is None
                &&& forall|j: int| from <= j < members.len() ==> (#[trigger] members[j]).0 != key
            },
        },
    decreases members.len() - from,
{
    if from < members.len() && members[from].0 != key {
        lemma_place_from(members, key, from + 1);
    }
}

/// A member that has been set is found, and the members of other names are what they were.
pub proof fn law_set_member_is_found(
    members: Seq<(Seq<char>, JsonNode)>,
    key: Seq<char>,
    value: JsonNode,
    other: Seq<char>,
)
    ensures
        member(JsonNode::Object(set_in(members, key, value)), key) == Some(value),
        other != key ==> member(JsonNode::Object(set_in(members, key, value)), other) == member(
            JsonNode::Object(members),
            other,
        ),
{
    let after = set_in(members, key, value);
    lemma_place_from(members, key, 0);
    lemma_place_from(after, key, 0);
    lemma_place_from(members, other, 0);
    lemma_place_from(after, other, 0);
    match place_from(members, key, 0) {
        Some(i) => {
            assert(after[i].0 == key);
        },
        None => {
            assert(after[members.len() as int].0 == key);
        },
    }
    match place_from(after, key, 0) {
        Some(j) => {
            if j < members.len() {
                assert(after[j].0 == key);
                assert(place_from(members, key, 0) matches Some(i) && i == j);
            }
        },
        None => {},
    }
    if other != key {
        match place_from(members, other, 0) {
            Some(i) => {
                assert(after[i] == members[i]);
            },
            None => {},
        }
        match place_from(after, other, 0) {
            Some(j) => {
                assert(after[j].0 == other);
                assert(j < members.len() && members[j] == after[j]);
            },
            None => {},
        }
    }
}

/// Sets the member of the given name of an object.
pub fn set_member(json: Json, key: &str, value: Json) -> (changed: Json)
    requires
        json@ is Object,
    ensures
        changed@ == JsonNode::Object(set_in(json@->Object_0, key@, value@)),
{
    match json {
        Json::Object(members) => {
            let ghost before = member_nodes(members@);
            assert(json@->Object_0 =~= before);
            let mut all: Vec<(String, Json)> = members;
            let mut i: usize = 0;
            while i < all.len()
                invariant
                    i <= all@.len(),
                    all@ == members@,
                    before == member_nodes(members@),
                    json == Json::Object(members),
                    json@->Object_0 == before,
                    place_from(before, key@, 0) == place_from(before, key@, i as int),
                decreases all@.len() - i,
            {
                assert(before[i as int].0 == all@[i as int].0@);
                if same_text(all[i].0.as_str(), key) {
                    all.set(i, (key.to_owned(), value));
                    assert(member_nodes(all@) =~= before.update(i as int, (key@, value@)));
                    return json_object(all);
                }
                i = i + 1;
            }
            json_object(with_member(all, key, value))
        },
        other => other,
    }
}

// What looking into a value gives.

/// A member is the first of its name, and there is none where no name is that one. Only objects have
/// members.
pub proof fn law_member_is_the_first(
    members: Seq<(Seq<char>, JsonNode)>,
    key: Seq<char>,
    i: int,
    node: JsonNode,
)
    ensures
        0 <= i < members.len() && members[i].0 == key && (forall|j: int|
            0 <= j < i ==> (#[trigger] members[j]).0 != key) ==> member(
            JsonNode::Object(members),
            key,
        ) == Some(members[i].1),
        (forall|j: int| 0 <= j < members.len() ==> (#[trigger] members[j]).0 != key) ==> member(
            JsonNode::Object(members),
            key,
        ) is None,
        node !is Object ==> member(node, key) is None,
{
    lemma_member_from(members, key, 0, i);
}

proof fn lemma_member_from(members: Seq<(Seq<char>, JsonNode)>, key: Seq<char>, from: int, i: int)
    requires
        0 <= from,
    ensures
        from <= i < members.len() && members[i].0 == key && (forall|j: int|
            from <= j < i ==> (#[trigger] members[j]).0 != key) ==> member_from(members, key, from)
            == Some(members[i].1),
        (forall|j: int| from <= j < members.len() ==> (#[trigger] members[j]).0 != key)
            ==> member_from(members, key, from) is None,
    decreases members.len() - from,
{
    if from < members.len() && members[from].0 != key {
        lemma_member_from(members, key, from + 1, i);
    }
}

/// An item is the one at its place, and there is none outside of the array. Only arrays have items.
pub proof fn law_items_are_at_their_places(items: Seq<JsonNode>, i: int, node: JsonNode)
    ensures
        0 <= i < items.len() ==> item(JsonNode::Array(items), i) == Some(items[i]),
        i < 0 || items.len() <= i ==> item(JsonNode::Array(items), i) is None,
        node !is Array ==> item(node, i) is None,
{
}

/// What a value is read as: a text as itself, a number as itself where it fits, and nothing else as
/// either.
pub proof fn law_values_are_read_as_they_are(s: Seq<char>, n: nat, z: int, node: JsonNode)
    ensures
        text(JsonNode::Text(s)) == Some(s),
        node !is Text ==> text(node) is None,
        unsigned(JsonNode::Unsigned(n)) == Some(n),
        node !is Unsigned ==> unsigned(node) is None,
        n <= i64::MAX ==> signed(JsonNode::Unsigned(n)) == Some(n as int),
        n > i64::MAX ==> signed(JsonNode::Unsigned(n)) is None,
        signed(JsonNode::Negative(z)) == Some(z),
        node !is Unsigned && node !is Negative ==> signed(node) is None,
{
}

/// A value stands for what it holds, item by item and member by member, in the same order.
pub proof fn law_a_value_stands_for_what_it_holds(
    items: Vec<Json>,
    members: Vec<(String, Json)>,
    s: String,
    n: u64,
    z: i64,
    b: bool,
    bits: u32,
)
    ensures
        Json::Array(items)@ is Array,
        Json::Array(items)@->Array_0.len() == items@.len(),
        forall|i: int| 0 <= i < items@.len() ==> Json::Array(items)@->Array_0[i] == #[trigger] items@[i]@,
        Json::Object(members)@ is Object,
        Json::Object(members)@->Object_0.len() == members@.len(),
        forall|i: int|
            0 <= i < members@.len() ==> Json::Object(members)@->Object_0[i] == (
                (#[trigger] members@[i]).0@,
                members@[i].1@,
            ),
        Json::Text(s)@ == JsonNode::Text(s@),
        Json::Fraction(s)@ == JsonNode::Fraction(s@),
        Json::Unsigned(n)@ == JsonNode::Unsigned(n as nat),
        Json::Negative(z)@ == JsonNode::Negative(z as int),
        Json::Bool(b)@ == JsonNode::Bool(b),
        Json::Single(bits)@ == JsonNode::Single(bits),
        Json::Null@ == JsonNode::Null,
{
}

} // verus!
