//! JSON documents, one level at a time.

use vstd::prelude::*;

use crate::text::{pair_views, same_text};

verus! {

/// A JSON value. The members of an object are kept as JSON texts of their own.
#[derive(Debug)]
pub enum Json {
    Null,
    Bool(bool),
    /// A number that fits an `i64`.
    Int(i64),
    /// Any other number.
    Number,
    Text(String),
    Array,
    Object(Vec<(String, String)>),
}

/// The model of a JSON value.
pub enum JsonView {
    Null,
    Bool(bool),
    Int(i64),
    Number,
    Text(Seq<char>),
    Array,
    Object(Seq<(Seq<char>, Seq<char>)>),
}

impl View for Json {
    type V = JsonView;

    open spec fn view(&self) -> JsonView {
        match self {
            Json::Null => JsonView::Null,
            Json::Bool(b) => JsonView::Bool(*b),
            Json::Int(i) => JsonView::Int(*i),
            Json::Number => JsonView::Number,
            Json::Text(s) => JsonView::Text(s@),
            Json::Array => JsonView::Array,
            Json::Object(members) => JsonView::Object(pair_views(members@)),
        }
    }
}

/// The value that a JSON text stands for, or the message of the parser.
pub uninterp spec fn json_value(text: Seq<char>) -> Result<JsonView, Seq<char>>;

/// `serde_json::from_str` to a `serde_json::Value`; the members of an object are written
/// back as texts.
#[verifier::external_body]
pub(crate) fn parse_json(text: &str) -> (r: Result<Json, String>)
    ensures
        match r {
            Ok(v) => json_value(text@) == Ok::<JsonView, Seq<char>>(v@),
            Err(e) => json_value(text@) == Err::<JsonView, Seq<char>>(e@),
        },
{
    Ok(match serde_json::from_str::<serde_json::Value>(text).map_err(|e| e.to_string())? {
        serde_json::Value::Null => Json::Null,
        serde_json::Value::Bool(b) => Json::Bool(b),
        serde_json::Value::Number(n) => n.as_i64().map_or(Json::Number, Json::Int),
        serde_json::Value::String(s) => Json::Text(s),
        serde_json::Value::Array(_) => Json::Array,
        serde_json::Value::Object(o) => Json::Object(
            o.into_iter().map(|(k, v)| (k, v.to_string())).collect(),
        ),
    })
}

/// The first member with the given name.
pub open spec fn member_of(
    members: Seq<(Seq<char>, Seq<char>)>,
    name: Seq<char>,
) -> Option<Seq<char>>
    decreases members.len(),
{
    if members.len() == 0 {
        None
    } else if members[0].0 == name {
        Some(members[0].1)
    } else {
        member_of(members.skip(1), name)
    }
}

/// The member of an object with the given name; other values have no members.
pub open spec fn member(v: JsonView, name: Seq<char>) -> Option<Seq<char>> {
    match v {
        JsonView::Object(members) => member_of(members, name),
        _ => None,
    }
}

/// Finds a member of an object.
pub fn find_member(v: &Json, name: &str) -> (r: Option<String>)
    ensures
        match r {
            Some(s) => member(v@, name@) == Some(s@),
            None => member(v@, name@) is None,
        },
{
    match v {
        Json::Object(members) => {
            let ghost all = pair_views(members@);
            let mut i: usize = 0;
            assert(all.skip(0) =~= all);
            while i < members.len()
                invariant
                    i <= members@.len(),
                    all == pair_views(members@),
                    v@ == JsonView::Object(all),
                    member_of(all, name@) == member_of(all.skip(i as int), name@),
                decreases members@.len() - i,
            {
                assert(all.skip(i as int)[0] == (members@[i as int].0@, members@[i as int].1@));
                if same_text(members[i].0.as_str(), name) {
                    return Some(members[i].1.clone());
                }
                assert(all.skip(i as int).skip(1) =~= all.skip(i + 1));
                i += 1;
            }
            None
        },
        _ => None,
    }
}

/// A member is found under its name, with its whole text, wherever it stands among members
/// of other names; a name that no member has is not found.
pub proof fn law_member_is_found(
    x: Seq<(Seq<char>, Seq<char>)>,
    name: Seq<char>,
    text: Seq<char>,
    y: Seq<(Seq<char>, Seq<char>)>,
)
    requires
        forall|k: int| 0 <= k < x.len() ==> (#[trigger] x[k]).0 != name,
    ensures
        member(JsonView::Object(x + seq![(name, text)] + y), name) == Some(text),
        member(JsonView::Object(x), name) is None,
    decreases x.len(),
{
    let all = x + seq![(name, text)] + y;
    if x.len() == 0 {
        assert(all[0] == (name, text));
    } else {
        let rest = x.skip(1);
        assert forall|k: int| 0 <= k < rest.len() implies (#[trigger] rest[k]).0 != name by {
            assert(rest[k] == x[k + 1]);
        }
        law_member_is_found(rest, name, text, y);
        assert(all[0] == x[0]);
        assert(x[0].0 != name);
        assert(all.skip(1) =~= rest + seq![(name, text)] + y);
    }
}

/// A value is seen as it is: texts and members with all their characters, in their order.
pub proof fn law_json_is_seen_as_it_is(
    flag: bool,
    n: i64,
    text: String,
    members: Vec<(String, String)>,
    k: int,
)
    requires
        0 <= k < members@.len(),
    ensures
        Json::Bool(flag)@ == JsonView::Bool(flag),
        Json::Int(n)@ == JsonView::Int(n),
        Json::Text(text)@ == JsonView::Text(text@),
        Json::Null@ == JsonView::Null,
        Json::Number@ == JsonView::Number,
        Json::Array@ == JsonView::Array,
        Json::Object(members)@ matches JsonView::Object(list) && list.len() == members@.len()
            && list[k] == (members@[k].0@, members@[k].1@),
{
}

} // verus!
