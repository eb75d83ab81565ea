//! JSON documents as plain values.
//!
//! `serde_json` reads the text; what it read is carried over, layer by layer,
//! into [`Json`], on which the rest of the library works.

use vstd::prelude::*;

use crate::text::same_text;

verus! {

/// What a JSON value says. Of a number only this is kept: the unsigned 64-bit
/// integer that it is, if it is one.
pub enum JsonView {
    Null,
    Bool(bool),
    Number(Option<u64>),
    Text(Seq<char>),
    Array(Seq<JsonView>),
    Object(Map<Seq<char>, JsonView>),
}

impl JsonView {
    /// The member of that name, for an object that has it.
    pub open spec fn member(self, name: Seq<char>) -> Option<JsonView> {
        match self {
            JsonView::Object(members) if members.contains_key(name) => Some(members[name]),
            _ => None,
        }
    }

    /// The member of that name; `Null` where there is none.
    pub open spec fn key(self, name: Seq<char>) -> JsonView {
        match self.member(name) {
            Some(value) => value,
            None => JsonView::Null,
        }
    }

    /// The item at that position; `Null` where there is none.
    pub open spec fn item(self, at: int) -> JsonView {
        match self {
            JsonView::Array(items) if 0 <= at < items.len() => items[at],
            _ => JsonView::Null,
        }
    }

    /// The value as an unsigned 64-bit integer, if it is one.
    pub open spec fn number(self) -> Option<u64> {
        match self {
            JsonView::Number(n) => n,
            _ => None,
        }
    }

    /// The value as text, if it is a string.
    pub open spec fn string(self) -> Option<Seq<char>> {
        match self {
            JsonView::Text(s) => Some(s),
            _ => None,
        }
    }
}

/// A JSON value. Where an object names a member twice, the later one counts.
pub enum Json {
    Null,
    Bool(bool),
    Number(Option<u64>),
    Text(String),
    Array(Vec<Json>),
    Object(Vec<(String, Json)>),
}

impl Json {
    /// What the value says.
    pub open spec fn view(self) -> JsonView
        decreases self,
    {
        match self {
            Json::Null => JsonView::Null,
            Json::Bool(b) => JsonView::Bool(b),
            Json::Number(n) => JsonView::Number(n),
            Json::Text(s) => JsonView::Text(s@),
            Json::Array(items) => JsonView::Array(
                Seq::new(
                    items@.len(),
                    |i: int|
                        if 0 <= i < items@.len() {
                            items@[i].view()
                        } else {
                            JsonView::Null
                        },
                ),
            ),
            Json::Object(members) => JsonView::Object(members_view(members@)),
        }
    }

    /// The member of that name, for an object that has it.
    pub fn get(&self, name: &str) -> (r: Option<&Json>)
        ensures
            opt_view(r) == self@.member(name@),
    {
        match self {
            Json::Object(members) => last_member(members, name),
            _ => None,
        }
    }
}

/// The members of an object, by name.
pub open spec fn members_view(members: Seq<(String, Json)>) -> Map<Seq<char>, JsonView>
    decreases members,
{
    if members.len() == 0 {
        Map::empty()
    } else {
        members_view(members.drop_last()).insert(members.last().0@, members.last().1.view())
    }
}

/// What an optional value says.
pub open spec fn opt_view(node: Option<&Json>) -> Option<JsonView> {
    match node {
        Some(value) => Some(value@),
        None => None,
    }
}

/// What a value that may be missing says: a missing one says `Null`.
pub open spec fn view_or_null(node: Option<&Json>) -> JsonView {
    match node {
        Some(value) => value@,
        None => JsonView::Null,
    }
}

/// The last member of that name.
fn last_member<'a>(members: &'a Vec<(String, Json)>, name: &str) -> (r: Option<&'a Json>)
    ensures
        opt_view(r) == JsonView::Object(members_view(members@)).member(name@),
{
    let mut i: usize = members.len();
    assert(members@.take(i as int) =~= members@);
    while i > 0
        invariant
            i <= members@.len(),
            JsonView::Object(members_view(members@.take(i as int))).member(name@)
                == JsonView::Object(members_view(members@)).member(name@),
        decreases i,
    {
        let ghost front = members@.take(i as int);
        i -= 1;
        assert(front.drop_last() =~= members@.take(i as int));
        assert(front.last() == members@[i as int]);
        if same_text(members[i].0.as_str(), name) {
            return Some(&members[i].1);
        }
    }
    None
}

/// The member of that name of a value that may be missing.
pub fn key<'a>(node: Option<&'a Json>, name: &str) -> (r: Option<&'a Json>)
    ensures
        view_or_null(r) == view_or_null(node).key(name@),
{
    match node {
        Some(value) => value.get(name),
        None => None,
    }
}

/// The item at that position of a value that may be missing.
pub fn item<'a>(node: Option<&'a Json>, at: usize) -> (r: Option<&'a Json>)
    ensures
        view_or_null(r) == view_or_null(node).item(at as int),
{
    match node {
        Some(Json::Array(items)) => {
            if at < items.len() {
                Some(&items[at])
            } else {
                None
            }
        },
        _ => None,
    }
}

/// The value as an unsigned 64-bit integer, if it is one.
pub fn as_u64(node: Option<&Json>) -> (r: Option<u64>)
    ensures
        r == view_or_null(node).number(),
{
    match node {
        Some(Json::Number(n)) => *n,
        _ => None,
    }
}

/// The value as text, if it is a string.
pub fn as_str<'a>(node: Option<&'a Json>) -> (r: Option<&'a String>)
    ensures
        match r {
            Some(s) => view_or_null(node).string() == Some(s@),
            None => view_or_null(node).string() is None,
        },
{
    match node {
        Some(Json::Text(s)) => Some(s),
        _ => None,
    }
}

/// Trusted: `serde_json::Value`, a JSON value of any kind.
#[verifier::external_type_specification]
#[verifier::external_body]
pub struct ExValue(serde_json::Value);

/// Trusted: what a `serde_json::Value` holds.
pub uninterp spec fn value_view(value: serde_json::Value) -> JsonView;

/// Trusted: what `serde_json::from_str` makes of a text: the value that it
/// reads, or the message of its error.
pub uninterp spec fn json_text(text: Seq<char>) -> Result<JsonView, Seq<char>>;

/// One layer of a JSON value: what its items or members are, not what they hold.
enum Layer {
    Null,
    Bool(bool),
    Number(Option<u64>),
    Text(String),
    Array(Vec<serde_json::Value>),
    Object(Vec<(String, serde_json::Value)>),
}

/// Trusted: `serde_json::from_str`, reading a `serde_json::Value`. What comes
/// back, the value or the error's message, depends on the text alone.
#[verifier::external_body]
fn read_value(text: &str) -> (r: Result<serde_json::Value, String>)
    ensures
        match r {
            Ok(value) => json_text(text@) == Ok::<JsonView, Seq<char>>(value_view(value)),
            Err(message) => json_text(text@) == Err::<JsonView, Seq<char>>(message@),
        },
{
    serde_json::from_str(text).map_err(|e: serde_json::Error| e.to_string())
}

/// Trusted: the variants of `serde_json::Value` and what they carry. A number is
/// asked for its `as_u64`; an object's members come with distinct names.
#[verifier::external_body]
fn layer_of(value: serde_json::Value) -> (r: Layer)
    ensures
        match r {
            Layer::Null => value_view(value) == JsonView::Null,
            Layer::Bool(b) => value_view(value) == JsonView::Bool(b),
            Layer::Number(n) => value_view(value) == JsonView::Number(n),
            Layer::Text(s) => value_view(value) == JsonView::Text(s@),
            Layer::Array(items) => value_view(value) == JsonView::Array(
                Seq::new(items@.len(), |i: int| value_view(items@[i])),
            ),
            Layer::Object(members) => {
                &&& value_view(value) is Object
                &&& holds_exactly(value_view(value)->Object_0, members@)
            },
        },
{
    match value {
        serde_json::Value::Null => Layer::Null,
        serde_json::Value::Bool(b) => Layer::Bool(b),
        serde_json::Value::Number(n) => Layer::Number(n.as_u64()),
        serde_json::Value::String(s) => Layer::Text(s),
        serde_json::Value::Array(items) => Layer::Array(items),
        serde_json::Value::Object(members) => Layer::Object(members.into_iter().collect()),
    }
}

/// The map holds the listed members, each under a name of its own, and no others.
pub open spec fn holds_exactly(
    map: Map<Seq<char>, JsonView>,
    members: Seq<(String, serde_json::Value)>,
) -> bool {
    &&& forall|i: int, j: int|
        0 <= i < j < members.len() ==> (#[trigger] members[i]).0@ != (#[trigger] members[j]).0@
    &&& forall|i: int|
        0 <= i < members.len() ==> map.contains_key((#[trigger] members[i]).0@)
            && map[members[i].0@] == value_view(members[i].1)
    &&& forall|name: Seq<char>| #[trigger]
        map.contains_key(name) ==> exists|i: int|
            0 <= i < members.len() && (#[trigger] members[i]).0@ == name
}

/// Members with distinct names are all to be found under their names.
proof fn lemma_members_view(members: Seq<(String, Json)>)
    requires
        forall|i: int, j: int|
            0 <= i < j < members.len() ==> (#[trigger] members[i]).0@ != (#[trigger] members[j]).0@,
    ensures
        forall|i: int|
            0 <= i < members.len() ==> members_view(members).contains_key(
                (#[trigger] members[i]).0@,
            ) && members_view(members)[members[i].0@] == members[i].1@,
        forall|name: Seq<char>| #[trigger]
            members_view(members).contains_key(name) ==> exists|i: int|
                0 <= i < members.len() && (#[trigger] members[i]).0@ == name,
    decreases members.len(),
{
    if members.len() != 0 {
        let front = members.drop_last();
        assert forall|i: int, j: int| 0 <= i < j < front.len() implies (#[trigger] front[i]).0@
            != (#[trigger] front[j]).0@ by {
            assert(front[i] == members[i] && front[j] == members[j]);
        }
        lemma_members_view(front);
        assert forall|i: int| 0 <= i < members.len() implies members_view(members).contains_key(
            (#[trigger] members[i]).0@,
        ) && members_view(members)[members[i].0@] == members[i].1@ by {
            if i < front.len() {
                assert(front[i] == members[i]);
                assert(members[i].0@ != members[members.len() - 1].0@);
            }
        }
        assert forall|name: Seq<char>| #[trigger]
            members_view(members).contains_key(name) implies exists|i: int|
            0 <= i < members.len() && (#[trigger] members[i]).0@ == name by {
            if name == members.last().0@ {
                assert(members[members.len() - 1].0@ == name);
            } else {
                assert(members_view(front).contains_key(name));
                let i = choose|i: int| 0 <= i < front.len() && (#[trigger] front[i]).0@ == name;
                assert(members[i].0@ == name);
            }
        }
    }
}

/// Carries a value over, with everything in it.
fn carry(value: serde_json::Value) -> (r: Json)
    ensures
        r@ == value_view(value),
    decreases value_view(value),
{
    let ghost whole = value_view(value);
    match layer_of(value) {
        Layer::Null => Json::Null,
        Layer::Bool(b) => Json::Bool(b),
        Layer::Number(n) => Json::Number(n),
        Layer::Text(s) => Json::Text(s),
        Layer::Array(items) => Json::Array(carry_items(items, Ghost(whole))),
        Layer::Object(members) => Json::Object(carry_members(members, Ghost(whole))),
    }
}

/// Carries the items of an array over.
fn carry_items(items: Vec<serde_json::Value>, Ghost(whole): Ghost<JsonView>) -> (r: Vec<Json>)
    requires
        whole == JsonView::Array(Seq::new(items@.len(), |i: int| value_view(items@[i]))),
    ensures
        Json::Array(r)@ == whole,
    decreases whole, 0nat,
{
    let mut out: Vec<Json> = Vec::new();
    for item in it: items
        invariant
            it.seq() == items@,
            whole == JsonView::Array(Seq::new(items@.len(), |i: int| value_view(items@[i]))),
            out@.len() == it.index(),
            forall|i: int| 0 <= i < out@.len() ==> (#[trigger] out@[i])@ == value_view(items@[i]),
    {
        assert(decreases_to!(whole => whole->Array_0[it.index()]));
        out.push(carry(item));
    }
    assert(Json::Array(out)@->Array_0 =~= whole->Array_0);
    out
}

/// Carries the members of an object over.
fn carry_members(
    members: Vec<(String, serde_json::Value)>,
    Ghost(whole): Ghost<JsonView>,
) -> (r: Vec<(String, Json)>)
    requires
        whole is Object,
        holds_exactly(whole->Object_0, members@),
    ensures
        Json::Object(r)@ == whole,
    decreases whole, 0nat,
{
    let mut out: Vec<(String, Json)> = Vec::new();
    for member in it: members
        invariant
            it.seq() == members@,
            whole is Object,
            holds_exactly(whole->Object_0, members@),
            out@.len() == it.index(),
            forall|i: int|
                0 <= i < out@.len() ==> (#[trigger] out@[i]).0@ == members@[i].0@ && out@[i].1@
                    == value_view(members@[i].1),
    {
        let (name, value) = member;
        assert(members@[it.index()].1 == value);
        assert(decreases_to!(whole => whole->Object_0[name@]));
        let carried = carry(value);
        out.push((name, carried));
    }
    proof {
        let map = whole->Object_0;
        assert forall|i: int, j: int| 0 <= i < j < out@.len() implies (#[trigger] out@[i]).0@ != (
        #[trigger] out@[j]).0@ by {
            assert(members@[i].0@ != members@[j].0@);
        }
        lemma_members_view(out@);
        assert forall|name: Seq<char>| #[trigger]
            map.contains_key(name) implies members_view(out@).contains_key(name)
            && members_view(out@)[name] == map[name] by {
            let i = choose|i: int| 0 <= i < members@.len() && (#[trigger] members@[i]).0@ == name;
            assert(out@[i].0@ == name);
        }
        assert forall|name: Seq<char>| #[trigger]
            members_view(out@).contains_key(name) implies map.contains_key(name) by {
            let i = choose|i: int| 0 <= i < out@.len() && (#[trigger] out@[i]).0@ == name;
            assert(members@[i].0@ == name);
        }
        assert(members_view(out@) =~= map);
    }
    out
}

/// Reads a JSON text: the value that it says, or why it could not be read.
pub fn parse(text: &str) -> (r: Result<Json, String>)
    ensures
        match r {
            Ok(value) => json_text(text@) == Ok::<JsonView, Seq<char>>(value@),
            Err(message) => json_text(text@) == Err::<JsonView, Seq<char>>(message@),
        },
{
    match read_value(text) {
        Ok(value) => Ok(carry(value)),
        Err(message) => Err(message),
    }
}

/// What is read of a document: a member of an object under its name, an item of an array at
/// its place, and null in all other cases; a text or a number only of what is one.
pub proof fn law_access(
    doc: JsonView,
    members: Map<Seq<char>, JsonView>,
    items: Seq<JsonView>,
    name: Seq<char>,
    at: int,
    text: Seq<char>,
    n: Option<u64>,
)
    ensures
        members.contains_key(name) ==> JsonView::Object(members).member(name) == Some(
            members[name],
        ) && JsonView::Object(members).key(name) == members[name],
        !members.contains_key(name) ==> JsonView::Object(members).member(name) is None
            && JsonView::Object(members).key(name) == JsonView::Null,
        !(doc is Object) ==> doc.member(name) is None && doc.key(name) == JsonView::Null,
        0 <= at < items.len() ==> JsonView::Array(items).item(at) == items[at],
        !(0 <= at < items.len()) ==> JsonView::Array(items).item(at) == JsonView::Null,
        !(doc is Array) ==> doc.item(at) == JsonView::Null,
        JsonView::Text(text).string() == Some(text),
        !(doc is Text) ==> doc.string() is None,
        JsonView::Number(n).number() == n,
        !(doc is Number) ==> doc.number() is None,
{
}

/// A member that is added takes the place of an earlier one of the same name, and leaves all
/// others as they are.
pub proof fn law_later_member_counts(
    members: Seq<(String, Json)>,
    member: (String, Json),
    name: Seq<char>,
)
    ensures
        members_view(Seq::<(String, Json)>::empty()) == Map::<Seq<char>, JsonView>::empty(),
        members_view(members.push(member)).contains_key(member.0@),
        members_view(members.push(member))[member.0@] == member.1@,
        name != member.0@ ==> {
            &&& members_view(members.push(member)).contains_key(name) <==> members_view(
                members,
            ).contains_key(name)
            &&& members_view(members).contains_key(name) ==> members_view(
                members.push(member),
            )[name] == members_view(members)[name]
        },
{
    assert(members.push(member).drop_last() =~= members);
}

/// A value says what it was made with.
pub proof fn law_values_say_what_they_hold(
    b: bool,
    n: Option<u64>,
    text: String,
    items: Vec<Json>,
    members: Vec<(String, Json)>,
    k: int,
    value: &Json,
)
    ensures
        Json::Null@ == JsonView::Null,
        Json::Bool(b)@ == JsonView::Bool(b),
        Json::Number(n)@ == JsonView::Number(n),
        Json::Text(text)@ == JsonView::Text(text@),
        Json::Array(items)@ is Array,
        Json::Array(items)@->Array_0.len() == items@.len(),
        0 <= k < items@.len() ==> Json::Array(items)@->Array_0[k] == items@[k]@,
        Json::Object(members)@ == JsonView::Object(members_view(members@)),
        opt_view(Some(value)) == Some(value@),
        opt_view(None) is None,
        view_or_null(Some(value)) == value@,
        view_or_null(None) == JsonView::Null,
{
}

} // verus!
