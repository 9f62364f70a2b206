//! JSON documents, read by `serde_json`: the form in which a node answers.

use crate::text::str_equal;
use vstd::prelude::*;

verus! {

/// The value of one member of a JSON object, as far as a record reads it.
#[derive(Debug, Clone)]
pub enum JsonValue {
    /// A JSON string.
    Text(String),
    /// `true` or `false`.
    Flag(bool),
    /// Anything else: a number, `null`, an array, an object.
    Other,
}

/// One member of a JSON object.
#[derive(Debug, Clone)]
pub struct JsonMember {
    pub name: String,
    pub value: JsonValue,
}

/// The mathematical value of a [`JsonValue`].
pub enum JsonValueView {
    Text(Seq<char>),
    Flag(bool),
    Other,
}

/// The mathematical value of a [`JsonMember`].
pub struct JsonMemberView {
    pub name: Seq<char>,
    pub value: JsonValueView,
}

impl View for JsonValue {
    type V = JsonValueView;

    open spec fn view(&self) -> JsonValueView {
        match self {
            JsonValue::Text(text) => JsonValueView::Text(text@),
            JsonValue::Flag(flag) => JsonValueView::Flag(*flag),
            JsonValue::Other => JsonValueView::Other,
        }
    }
}

impl View for JsonMember {
    type V = JsonMemberView;

    open spec fn view(&self) -> JsonMemberView {
        JsonMemberView { name: self.name@, value: self.value@ }
    }
}

/// The values of the members of an object, in order.
pub open spec fn member_views(members: Seq<JsonMember>) -> Seq<JsonMemberView> {
    Seq::new(members.len(), |i: int| members[i]@)
}

/// The members of the JSON object that `text` holds; `None` where `text` is no
/// JSON document or its value is no object.
pub uninterp spec fn json_object_reading(text: Seq<char>) -> Option<Seq<JsonMemberView>>;

/// Parses `text` with `serde_json::from_str` into a `serde_json::Value` and
/// hands out the members of its top-level object.
///
/// Trusted: the members are a function of the text alone. `None` stands for a
/// parse error and for a document whose value is no object. A string member
/// and a boolean member keep their value; any other is handed out as
/// `JsonValue::Other`.
#[verifier::external_body]
pub(crate) fn json_object_members(text: &str) -> (r: Option<Vec<JsonMember>>)
    ensures
        match r {
            Some(members) => json_object_reading(text@) == Some(member_views(members@)),
            None => json_object_reading(text@) is None,
        },
{
    match serde_json::from_str::<serde_json::Value>(text) {
        Ok(serde_json::Value::Object(map)) => Some(map.into_iter().map(|(name, value)| {
            JsonMember { name, value: match value {
                serde_json::Value::String(text) => JsonValue::Text(text),
                serde_json::Value::Bool(flag) => JsonValue::Flag(flag),
                serde_json::Value::Null => JsonValue::Other,
                serde_json::Value::Number(_) => JsonValue::Other,
                serde_json::Value::Array(_) => JsonValue::Other,
                serde_json::Value::Object(_) => JsonValue::Other,
            } }
        }).collect()),
        Ok(_) => None,
        Err(_) => None,
    }
}

/// The value of the first member of `members` that is called `name`.
pub open spec fn member_value(members: Seq<JsonMemberView>, name: Seq<char>) -> Option<
    JsonValueView,
>
    decreases members.len(),
{
    if members.len() == 0 {
        None
    } else {
        match member_value(members.drop_last(), name) {
            Some(value) => Some(value),
            None => if members.last().name == name {
                Some(members.last().value)
            } else {
                None
            },
        }
    }
}

/// `member_value` finds the member with the least index that is called
/// `name`, and `None` exactly where no member is.
pub proof fn lemma_member_value(members: Seq<JsonMemberView>, name: Seq<char>)
    ensures
        match member_value(members, name) {
            Some(value) => exists|i: int|
                0 <= i < members.len() && members[i].name == name && members[i].value == value
                    && forall|j: int| 0 <= j < i ==> members[j].name != name,
            None => forall|j: int| 0 <= j < members.len() ==> members[j].name != name,
        },
    decreases members.len(),
{
    if members.len() > 0 {
        let front = members.drop_last();
        lemma_member_value(front, name);
        assert(forall|j: int| 0 <= j < front.len() ==> front[j] == members[j]);
        match member_value(front, name) {
            Some(value) => {
                let i = choose|i: int|
                    0 <= i < front.len() && front[i].name == name && front[i].value == value
                        && forall|j: int| 0 <= j < i ==> front[j].name != name;
                assert(0 <= i < members.len() && members[i].name == name && members[i].value
                    == value && forall|j: int| 0 <= j < i ==> members[j].name != name);
            },
            None => {
                if members.last().name == name {
                    let i = members.len() - 1;
                    assert(0 <= i < members.len() && members[i].name == name && members[i].value
                        == members.last().value && forall|j: int|
                        0 <= j < i ==> members[j].name != name);
                }
            },
        }
    }
}

/// Finds the first member of `members` that is called `name`.
pub fn find_member<'a>(members: &'a Vec<JsonMember>, name: &str) -> (r: Option<&'a JsonValue>)
    ensures
        match r {
            Some(value) => member_value(member_views(members@), name@) == Some(value@),
            None => member_value(member_views(members@), name@) is None,
        },
{
    let ghost views = member_views(members@);
    let mut i: usize = 0;
    while i < members.len()
        invariant
            i <= members.len(),
            views == member_views(members@),
            forall|j: int| 0 <= j < i ==> views[j].name != name@,
        decreases members.len() - i,
    {
        if str_equal(members[i].name.as_str(), name) {
            proof {
                lemma_member_value(views, name@);
                assert(views[i as int].name == name@);
                assert(views[i as int].value == members[i as int].value@);
                match member_value(views, name@) {
                    Some(value) => {
                        let p = choose|p: int|
                            0 <= p < views.len() && views[p].name == name@ && views[p].value
                                == value && forall|j: int| 0 <= j < p ==> views[j].name != name@;
                        if p < i {
                            assert(views[p].name != name@);
                        } else if p > i {
                            assert(views[i as int].name != name@);
                        }
                    },
                    None => {
                        assert(views[i as int].name != name@);
                    },
                }
            }
            return Some(&members[i].value);
        }
        i = i + 1;
    }
    proof {
        lemma_member_value(views, name@);
    }
    None
}

} // verus!
