//! JSON values.

use crate::text::same_text;
use vstd::prelude::*;

verus! {

/// A JSON value. An integer is held as a number, any other number as the text that
/// it is written with.
#[derive(Debug)]
pub enum Json {
    Null,
    Bool(bool),
    Integer(i128),
    Decimal(String),
    Text(String),
    Array(Vec<Json>),
    Object(Vec<Member>),
}

/// One member of a JSON object.
#[derive(Debug)]
pub struct Member {
    pub name: String,
    pub value: Json,
}

/// What a JSON value stands for.
pub enum JsonModel {
    Null,
    Bool(bool),
    Integer(int),
    Decimal(Seq<char>),
    Text(Seq<char>),
    Array(Seq<JsonModel>),
    Object(Seq<MemberModel>),
}

/// What a member of a JSON object stands for.
pub struct MemberModel {
    pub name: Seq<char>,
    pub value: JsonModel,
}

/// The member `name` with that value.
pub open spec fn member(name: Seq<char>, value: JsonModel) -> MemberModel {
    MemberModel { name, value }
}

impl View for Json {
    type V = JsonModel;

    open spec fn view(&self) -> JsonModel
        decreases self,
    {
        match self {
            Json::Null => JsonModel::Null,
            Json::Bool(b) => JsonModel::Bool(*b),
            Json::Integer(n) => JsonModel::Integer(*n as int),
            Json::Decimal(s) => JsonModel::Decimal(s@),
            Json::Text(s) => JsonModel::Text(s@),
            Json::Array(items) => JsonModel::Array(
                Seq::new(
                    items@.len(),
                    |i: int|
                        if 0 <= i < items@.len() {
                            items@[i].view()
                        } else {
                            JsonModel::Null
                        },
                ),
            ),
            Json::Object(members) => JsonModel::Object(
                Seq::new(
                    members@.len(),
                    |i: int|
                        if 0 <= i < members@.len() {
                            member(members@[i].name@, members@[i].value.view())
                        } else {
                            member(Seq::empty(), JsonModel::Null)
                        },
                ),
            ),
        }
    }
}

impl Clone for Json {
    fn clone(&self) -> (r: Json)
        ensures
            r@ == self@,
        decreases self,
    {
        match self {
            Json::Null => Json::Null,
            Json::Bool(b) => Json::Bool(*b),
            Json::Integer(n) => Json::Integer(*n),
            Json::Decimal(s) => Json::Decimal(s.clone()),
            Json::Text(s) => Json::Text(s.clone()),
            Json::Array(items) => {
                let mut copy: Vec<Json> = Vec::new();
                let mut i: usize = 0;
                while i < items.len()
                    invariant
                        i <= items.len(),
                        copy.len() == i,
                        forall|j: int| 0 <= j < i ==> (#[trigger] copy@[j])@ == items@[j]@,
                        decreases_to!(self => items),
                    decreases items.len() - i,
                {
                    copy.push(items[i].clone());
                    i = i + 1;
                }
                let r = Json::Array(copy);
                assert(r@->Array_0 =~= self@->Array_0);
                r
            },
            Json::Object(members) => {
                let mut copy: Vec<Member> = Vec::new();
                let mut i: usize = 0;
                while i < members.len()
                    invariant
                        i <= members.len(),
                        copy.len() == i,
                        forall|j: int|
                            0 <= j < i ==> (#[trigger] copy@[j]).name@ == members@[j].name@
                                && copy@[j].value@ == members@[j].value@,
                        decreases_to!(self => members),
                    decreases members.len() - i,
                {
                    copy.push(
                        Member { name: members[i].name.clone(), value: members[i].value.clone() },
                    );
                    i = i + 1;
                }
                let r = Json::Object(copy);
                assert forall|j: int| 0 <= j < copy@.len() implies (r@->Object_0)[j]
                    == (self@->Object_0)[j] by {
                    assert(copy@[j].name@ == members@[j].name@);
                }
                assert(r@->Object_0 =~= self@->Object_0);
                r
            },
        }
    }
}

/// What the members of an object stand for.
pub open spec fn members_model(members: Seq<Member>) -> Seq<MemberModel> {
    Seq::new(members.len(), |i: int| member(members[i].name@, members[i].value@))
}

/// The value of the first member of that name.
pub open spec fn find_member(members: Seq<MemberModel>, name: Seq<char>) -> Option<
    JsonModel,
>
    decreases members.len(),
{
    if members.len() == 0 {
        None
    } else if members[0].name == name {
        Some(members[0].value)
    } else {
        find_member(members.drop_first(), name)
    }
}

impl JsonModel {
    /// The member of that name, when this is an object that has one.
    pub open spec fn get(self, name: Seq<char>) -> Option<JsonModel> {
        match self {
            JsonModel::Object(members) => find_member(members, name),
            _ => None,
        }
    }

    /// The text, when this is one.
    pub open spec fn as_text(self) -> Option<Seq<char>> {
        match self {
            JsonModel::Text(s) => Some(s),
            _ => None,
        }
    }
}

/// A text, or null for none.
pub open spec fn optional_text_model(value: Option<Seq<char>>) -> JsonModel {
    match value {
        Some(s) => JsonModel::Text(s),
        None => JsonModel::Null,
    }
}

/// A value, or null for none.
pub open spec fn optional_model(value: Option<JsonModel>) -> JsonModel {
    match value {
        Some(v) => v,
        None => JsonModel::Null,
    }
}

/// No member before position `i` has the name, so the search goes on from there.
proof fn lemma_find_member_skip(members: Seq<MemberModel>, name: Seq<char>, i: int)
    requires
        0 <= i <= members.len(),
        forall|j: int| 0 <= j < i ==> (#[trigger] members[j]).name != name,
    ensures
        find_member(members, name) == find_member(members.skip(i), name),
    decreases i,
{
    if i == 0 {
        assert(members.skip(0) =~= members);
    } else {
        lemma_find_member_skip(members, name, i - 1);
        assert(members[i - 1].name != name);
        assert(members.skip(i - 1).drop_first() =~= members.skip(i));
    }
}

/// The first member of a name is the one that is found.
pub proof fn lemma_find_member_at(members: Seq<MemberModel>, name: Seq<char>, i: int)
    requires
        0 <= i < members.len(),
        members[i].name == name,
        forall|j: int| 0 <= j < i ==> (#[trigger] members[j]).name != name,
    ensures
        find_member(members, name) == Some(members[i].value),
{
    lemma_find_member_skip(members, name, i);
}

/// No member is found of a name that none has.
pub proof fn lemma_find_member_none(members: Seq<MemberModel>, name: Seq<char>)
    requires
        forall|j: int| 0 <= j < members.len() ==> (#[trigger] members[j]).name != name,
    ensures
        find_member(members, name) is None,
{
    lemma_find_member_skip(members, name, members.len() as int);
}

/// Only an object has members: the first member of a name is found by it, and none where
/// no member has the name.
pub proof fn law_members_are_found(members: Seq<MemberModel>, name: Seq<char>, i: int)
    ensures
        0 <= i < members.len() && members[i].name == name && (forall|j: int|
            0 <= j < i ==> (#[trigger] members[j]).name != name) ==> JsonModel::Object(members).get(
            name,
        ) == Some(members[i].value),
        (forall|j: int| 0 <= j < members.len() ==> (#[trigger] members[j]).name != name)
            ==> JsonModel::Object(members).get(name) is None,
        forall|value: JsonModel|
            !(value is Object) ==> (#[trigger] value.get(name)) is None,
        forall|value: JsonModel|
            (#[trigger] value.as_text()) == (match value {
                JsonModel::Text(s) => Some(s),
                _ => None,
            }),
        member(name, JsonModel::Null).name == name,
        forall|value: JsonModel| (#[trigger] member(name, value)).value == value,
{
    if 0 <= i < members.len() && members[i].name == name && (forall|j: int|
        0 <= j < i ==> (#[trigger] members[j]).name != name) {
        lemma_find_member_at(members, name, i);
    }
    if forall|j: int| 0 <= j < members.len() ==> (#[trigger] members[j]).name != name {
        lemma_find_member_none(members, name);
    }
}

impl Json {
    /// The member of that name, when this is an object that has one.
    pub fn get(&self, name: &str) -> (r: Option<&Json>)
        ensures
            match r {
                Some(value) => self@.get(name@) == Some(value@),
                None => self@.get(name@) is None,
            },
    {
        match self {
            Json::Object(members) => {
                let ghost model = self@->Object_0;
                let mut i: usize = 0;
                while i < members.len()
                    invariant
                        i <= members.len(),
                        model.len() == members.len(),
                        self@ == JsonModel::Object(model),
                        forall|j: int|
                            0 <= j < members.len() ==> #[trigger] model[j] == member(
                                members@[j].name@,
                                members@[j].value@,
                            ),
                        forall|j: int| 0 <= j < i ==> (#[trigger] model[j]).name != name@,
                    decreases members.len() - i,
                {
                    assert(model[i as int].name == members@[i as int].name@);
                    if same_text(members[i].name.as_str(), name) {
                        proof {
                            lemma_find_member_skip(model, name@, i as int);
                        }
                        return Some(&members[i].value);
                    }
                    i = i + 1;
                }
                proof {
                    lemma_find_member_skip(model, name@, i as int);
                }
                None
            },
            _ => None,
        }
    }

    /// The text, when this is one.
    pub fn as_str(&self) -> (r: Option<&str>)
        ensures
            match r {
                Some(s) => self@.as_text() == Some(s@),
                None => self@.as_text() is None,
            },
    {
        match self {
            Json::Text(s) => Some(s.as_str()),
            _ => None,
        }
    }

    /// The text value `s`.
    pub fn text(s: &str) -> (r: Json)
        ensures
            r@ == JsonModel::Text(s@),
    {
        Json::Text(s.to_owned())
    }

    /// The text value of `s`, or null.
    pub fn optional_text(s: &Option<String>) -> (r: Json)
        ensures
            r@ == optional_text_model(crate::text::chars_of(*s)),
    {
        match s {
            Some(t) => Json::text(t.as_str()),
            None => Json::Null,
        }
    }

    /// A copy of a value, or null.
    pub fn optional(value: Option<&Json>) -> (r: Json)
        ensures
            r@ == (match value {
                Some(v) => v@,
                None => JsonModel::Null,
            }),
    {
        match value {
            Some(v) => v.clone(),
            None => Json::Null,
        }
    }

    /// The object with these members.
    pub fn object(members: Vec<Member>) -> (r: Json)
        ensures
            r@ == JsonModel::Object(members_model(members@)),
    {
        let r = Json::Object(members);
        assert(r@->Object_0 =~= members_model(members@));
        r
    }

    /// The array with these items.
    pub fn array(items: Vec<Json>) -> (r: Json)
        ensures
            r@ == JsonModel::Array(items@.map_values(|v: Json| v@)),
    {
        let r = Json::Array(items);
        assert(r@->Array_0 =~= items@.map_values(|v: Json| v@));
        r
    }
}

/// Adds a member at the end of an object's members.
pub fn put(members: &mut Vec<Member>, name: &str, value: Json)
    ensures
        members_model(final(members)@) == members_model(old(members)@).push(member(name@, value@)),
{
    members.push(Member { name: name.to_owned(), value });
    assert(members_model(members@) =~= members_model(old(members)@).push(member(name@, value@)));
}

} // verus!
