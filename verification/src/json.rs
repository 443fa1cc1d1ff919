//! One level of a JSON document at a time.

use vstd::prelude::*;
use crate::quantity;
use crate::text;

verus! {

/// The top level of a JSON document.
#[derive(Debug, PartialEq)]
pub enum Json {
    /// The members of an object, each a name and the value's own JSON text.
    Object(Vec<(String, String)>),
    /// A number, in decimal.
    Number(String),
    Text,
    Array,
    Bool,
    Null,
    /// Not a JSON document.
    Invalid,
}

/// A [`Json`] with its text as character sequences.
pub enum JsonView {
    Object(Seq<(Seq<char>, Seq<char>)>),
    Number(Seq<char>),
    Text,
    Array,
    Bool,
    Null,
    Invalid,
}

impl View for Json {
    type V = JsonView;

    open spec fn view(&self) -> JsonView {
        match self {
            Json::Object(m) => JsonView::Object(m.deep_view()),
            Json::Number(t) => JsonView::Number(t@),
            Json::Text => JsonView::Text,
            Json::Array => JsonView::Array,
            Json::Bool => JsonView::Bool,
            Json::Null => JsonView::Null,
            Json::Invalid => JsonView::Invalid,
        }
    }
}

/// The top level of the JSON document `doc`, as `serde_json` parses it.
pub uninterp spec fn parsed(doc: Seq<char>) -> JsonView;

/// Calls `serde_json::from_str` for a `serde_json::Value` and tells its
/// variants apart. Members and numbers are converted to text by their
/// `to_string`, so that they can be parsed in turn. The result is a function
/// of the document alone. Which documents are valid, the order of the members
/// and the text of a number are left to `serde_json`.
#[verifier::external_body]
pub(crate) fn parse(doc: &str) -> (r: Json)
    ensures
        r@ == parsed(doc@),
{
    match serde_json::from_str::<serde_json::Value>(doc) {
        Ok(serde_json::Value::Object(m)) => {
            let mut out = Vec::new();
            for (k, v) in m {
                out.push((k, v.to_string()));
            }
            Json::Object(out)
        }
        Ok(serde_json::Value::Number(n)) => Json::Number(n.to_string()),
        Ok(serde_json::Value::String(_)) => Json::Text,
        Ok(serde_json::Value::Array(_)) => Json::Array,
        Ok(serde_json::Value::Bool(_)) => Json::Bool,
        Ok(serde_json::Value::Null) => Json::Null,
        Err(_) => Json::Invalid,
    }
}

/// The place of the first member called `name`, or the number of members.
pub open spec fn member_place(m: Seq<(Seq<char>, Seq<char>)>, name: Seq<char>) -> nat
    decreases m.len(),
{
    if m.len() == 0 || m[0].0 == name {
        0
    } else {
        1 + member_place(m.skip(1), name)
    }
}

/// The JSON text of the member `name`, if the document is an object with one.
pub open spec fn member(j: JsonView, name: Seq<char>) -> Option<Seq<char>> {
    match j {
        JsonView::Object(m) => {
            let i = member_place(m, name) as int;
            if i < m.len() {
                Some(m[i].1)
            } else {
                None
            }
        },
        _ => None,
    }
}

/// The value of a document that is a number.
pub open spec fn number(j: JsonView) -> Option<int> {
    match j {
        JsonView::Number(t) => quantity::parsed_quantity(t),
        _ => None,
    }
}

impl Json {
    /// The JSON text of the member `name`.
    pub fn get(&self, name: &str) -> (r: Option<String>)
        ensures
            r.deep_view() == member(self@, name@),
    {
        match self {
            Json::Object(m) => {
                let ghost s = m.deep_view();
                let mut i: usize = 0;
                assert(s.skip(0) =~= s);
                while i < m.len() && !text::str_eq(m[i].0.as_str(), name)
                    invariant
                        i <= m@.len(),
                        s == m.deep_view(),
                        member_place(s, name@) == i + member_place(s.skip(i as int), name@),
                    decreases m@.len() - i,
                {
                    assert(s[i as int].0 == m@[i as int].0@);
                    assert(s.skip(i as int).skip(1) =~= s.skip(i + 1));
                    i += 1;
                }
                if i < m.len() {
                    assert(s[i as int] == (m@[i as int].0@, m@[i as int].1@));
                    Some(m[i].1.clone())
                } else {
                    None
                }
            },
            _ => None,
        }
    }

    /// The value, if this is a number.
    pub fn as_quantity(&self) -> (r: Option<i64>)
        ensures
            r is Some <==> number(self@) is Some,
            r matches Some(v) ==> number(self@) == Some(v as int),
    {
        match self {
            Json::Number(t) => quantity::parse_quantity(t.as_str()),
            _ => None,
        }
    }
}

/// A member is found under its name: the first of that name, in an object.
pub proof fn law_member_is_found(m: Seq<(Seq<char>, Seq<char>)>, name: Seq<char>, i: int)
    requires
        0 <= i < m.len(),
        forall|j: int| 0 <= j < i ==> (#[trigger] m[j]).0 != name,
    ensures
        m[i].0 == name ==> member(JsonView::Object(m), name) == Some(m[i].1),
        i == m.len() - 1 && m[i].0 != name ==> member(JsonView::Object(m), name) is None,
        forall|j: JsonView| !(j is Object) ==> #[trigger] member(j, name) is None,
    decreases m.len(),
{
    lemma_member_place(m, name, i);
}

proof fn lemma_member_place(m: Seq<(Seq<char>, Seq<char>)>, name: Seq<char>, i: int)
    requires
        0 <= i < m.len(),
        forall|j: int| 0 <= j < i ==> (#[trigger] m[j]).0 != name,
    ensures
        m[i].0 == name ==> member_place(m, name) == i,
        m[i].0 != name ==> member_place(m, name) == i + 1 + member_place(m.skip(i + 1), name),
    decreases i,
{
    if i > 0 {
        let t = m.skip(1);
        assert(m[0].0 != name);
        assert forall|j: int| 0 <= j < i - 1 implies (#[trigger] t[j]).0 != name by {
            assert(m[j + 1].0 != name);
        }
        lemma_member_place(t, name, i - 1);
        assert(t.skip(i) =~= m.skip(i + 1));
    }
}

/// A JSON number is the quantity it writes, and nothing else is one.
pub proof fn law_json_number(v: i64, j: JsonView)
    requires
        v > i64::MIN,
    ensures
        number(JsonView::Number(quantity::shown(v as int))) == Some(v as int),
        !(j is Number) ==> number(j) is None,
{
    quantity::law_quantity_round_trip(v);
}

} // verus!
