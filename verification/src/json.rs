//! JSON values as the protocol reads and writes them.

use crate::text::str_eq;
use vstd::prelude::*;

verus! {

/// A JSON value.
///
/// Integers are held as such; a number that is no integer is held as it was
/// written, since the protocol only carries it through.
#[derive(Debug)]
pub enum Json {
    Null,
    Bool(bool),
    Integer(i128),
    Decimal(String),
    String(String),
    Array(Vec<Json>),
    Object(Vec<(String, Json)>),
}

/// What a JSON value is: the same tree, with sequences of characters for
/// strings.
pub ghost enum JsonView {
    Null,
    Bool(bool),
    Integer(i128),
    Decimal(Seq<char>),
    String(Seq<char>),
    Array(Seq<JsonView>),
    Object(Seq<(Seq<char>, JsonView)>),
}

/// The value of the first member of `members` with the name `key`.
pub open spec fn lookup(members: Seq<(Seq<char>, JsonView)>, key: Seq<char>) -> Option<JsonView>
    decreases members.len(),
{
    if members.len() == 0 {
        None
    } else if members[0].0 == key {
        Some(members[0].1)
    } else {
        lookup(members.drop_first(), key)
    }
}

/// A member is found at the first index that holds its name.
pub proof fn lemma_lookup_at(members: Seq<(Seq<char>, JsonView)>, key: Seq<char>, i: int)
    requires
        0 <= i < members.len(),
        members[i].0 == key,
        forall|j: int| 0 <= j < i ==> (#[trigger] members[j]).0 != key,
    ensures
        lookup(members, key) == Some(members[i].1),
    decreases i,
{
    if i > 0 {
        assert(members[0].0 != key);
        let rest = members.drop_first();
        assert(rest[i - 1] == members[i]);
        assert forall|j: int| 0 <= j < i - 1 implies (#[trigger] rest[j]).0 != key by {
            assert(rest[j] == members[j + 1]);
        }
        lemma_lookup_at(rest, key, i - 1);
    }
}

/// A name that no member holds is not found.
pub proof fn lemma_lookup_none(members: Seq<(Seq<char>, JsonView)>, key: Seq<char>)
    requires
        forall|j: int| 0 <= j < members.len() ==> (#[trigger] members[j]).0 != key,
    ensures
        lookup(members, key) is None,
    decreases members.len(),
{
    if members.len() > 0 {
        assert(members[0].0 != key);
        let rest = members.drop_first();
        assert forall|j: int| 0 <= j < rest.len() implies (#[trigger] rest[j]).0 != key by {
            assert(rest[j] == members[j + 1]);
        }
        lemma_lookup_none(rest, key);
    }
}

impl JsonView {
    /// The member `key` of an object; `None` for a value that is no object
    /// or has no such member.
    pub open spec fn get(self, key: Seq<char>) -> Option<JsonView> {
        match self {
            JsonView::Object(members) => lookup(members, key),
            _ => None,
        }
    }
}

/// What the JSON value `j` is.
pub open spec fn model(j: Json) -> JsonView
    decreases j, 0nat,
{
    match j {
        Json::Null => JsonView::Null,
        Json::Bool(b) => JsonView::Bool(b),
        Json::Integer(n) => JsonView::Integer(n),
        Json::Decimal(s) => JsonView::Decimal(s@),
        Json::String(s) => JsonView::String(s@),
        Json::Array(items) => JsonView::Array(models(items@)),
        Json::Object(members) => JsonView::Object(member_models(members@)),
    }
}

/// What the items of an array are, one by one.
pub open spec fn models(items: Seq<Json>) -> Seq<JsonView>
    decreases items, 1nat,
{
    if items.len() == 0 {
        Seq::empty()
    } else {
        models(items.drop_last()).push(model(items.last()))
    }
}

/// What the members of an object are, one by one.
pub open spec fn member_models(members: Seq<(String, Json)>) -> Seq<(Seq<char>, JsonView)>
    decreases members, 1nat,
{
    if members.len() == 0 {
        Seq::empty()
    } else {
        member_models(members.drop_last()).push((members.last().0@, model(members.last().1)))
    }
}

/// The model of an array has an item for each item.
pub proof fn lemma_models(items: Seq<Json>)
    ensures
        models(items).len() == items.len(),
        forall|i: int| 0 <= i < items.len() ==> (#[trigger] models(items)[i]) == model(items[i]),
    decreases items.len(),
{
    if items.len() > 0 {
        lemma_models(items.drop_last());
    }
}

/// The model of an object has a member for each member.
pub proof fn lemma_member_models(members: Seq<(String, Json)>)
    ensures
        member_models(members).len() == members.len(),
        forall|i: int|
            0 <= i < members.len() ==> (#[trigger] member_models(members)[i]) == (
                members[i].0@,
                model(members[i].1),
            ),
    decreases members.len(),
{
    if members.len() > 0 {
        lemma_member_models(members.drop_last());
    }
}

impl View for Json {
    type V = JsonView;

    open spec fn view(&self) -> JsonView {
        model(*self)
    }
}

impl PartialEq for Json {
    fn eq(&self, other: &Json) -> (r: bool) {
        self.same(other)
    }
}

impl vstd::std_specs::cmp::PartialEqSpecImpl for Json {
    open spec fn obeys_eq_spec() -> bool {
        true
    }

    open spec fn eq_spec(&self, other: &Json) -> bool {
        self@ == other@
    }
}

impl Clone for Json {
    fn clone(&self) -> (r: Json)
        ensures
            r@ == self@,
    {
        self.duplicate()
    }
}

impl Json {
    /// The member `key` of an object; `None` for a value that is no object
    /// or has no such member.
    pub fn get(&self, key: &str) -> (r: Option<&Json>)
        ensures
            match r {
                Some(value) => self@.get(key@) == Some(value@),
                None => self@.get(key@) is None,
            },
    {
        match self {
            Json::Object(members) => {
                let ghost all = match self@ {
                    JsonView::Object(m) => m,
                    _ => Seq::empty(),
                };
                proof {
                    lemma_member_models(members@);
                    assert(all.subrange(0, all.len() as int) =~= all);
                }
                let mut i: usize = 0;
                while i < members.len()
                    invariant
                        i <= members@.len(),
                        self@ == JsonView::Object(all),
                        all.len() == members@.len(),
                        forall|j: int|
                            0 <= j < all.len() ==> #[trigger] all[j] == (
                                members@[j].0@,
                                model(members@[j].1),
                            ),
                        lookup(all, key@) == lookup(all.subrange(i as int, all.len() as int), key@),
                    decreases members@.len() - i,
                {
                    let ghost rest = all.subrange(i as int, all.len() as int);
                    assert(rest[0] == all[i as int]);
                    if str_eq(members[i].0.as_str(), key) {
                        return Some(&members[i].1);
                    }
                    assert(rest.drop_first() =~= all.subrange(i + 1, all.len() as int));
                    i = i + 1;
                }
                None
            },
            _ => None,
        }
    }

    /// The characters of a JSON string; `None` for any other value.
    pub fn as_string(&self) -> (r: Option<&String>)
        ensures
            match r {
                Some(s) => self@ == JsonView::String(s@),
                None => !(self@ is String),
            },
    {
        match self {
            Json::String(s) => Some(s),
            _ => None,
        }
    }

    /// The number of a JSON integer; `None` for any other value.
    pub fn as_integer(&self) -> (r: Option<i128>)
        ensures
            match r {
                Some(n) => self@ == JsonView::Integer(n),
                None => !(self@ is Integer),
            },
    {
        match self {
            Json::Integer(n) => Some(*n),
            _ => None,
        }
    }

    /// Whether two values are the same: of the same kind, with the same
    /// content, the items of an array and the members of an object in the
    /// same order.
    pub fn same(&self, other: &Json) -> (r: bool)
        ensures
            r == (self@ == other@),
        decreases self,
    {
        match (self, other) {
            (Json::Null, Json::Null) => true,
            (Json::Bool(a), Json::Bool(b)) => *a == *b,
            (Json::Integer(a), Json::Integer(b)) => *a == *b,
            (Json::Decimal(a), Json::Decimal(b)) => *a == *b,
            (Json::String(a), Json::String(b)) => *a == *b,
            (Json::Array(a), Json::Array(b)) => {
                proof {
                    lemma_models(a@);
                    lemma_models(b@);
                }
                if a.len() != b.len() {
                    return false;
                }
                let mut i: usize = 0;
                while i < a.len()
                    invariant
                        i <= a@.len(),
                        a@.len() == b@.len(),
                        models(a@).len() == a@.len(),
                        models(b@).len() == b@.len(),
                        forall|j: int| 0 <= j < a@.len() ==> (#[trigger] models(a@)[j]) == model(a@[j]),
                        forall|j: int| 0 <= j < b@.len() ==> (#[trigger] models(b@)[j]) == model(b@[j]),
                        forall|j: int| 0 <= j < i ==> model(a@[j]) == model(b@[j]),
                        self@ == JsonView::Array(models(a@)),
                        other@ == JsonView::Array(models(b@)),
                        decreases_to!(self => a),
                    decreases a@.len() - i,
                {
                    assert(decreases_to!(a => a[i as int]));
                    assert(decreases_to!(self => a[i as int]));
                    if !a[i].same(&b[i]) {
                        assert(models(a@)[i as int] != models(b@)[i as int]);
                        return false;
                    }
                    i = i + 1;
                }
                assert(models(a@) =~= models(b@));
                true
            },
            (Json::Object(a), Json::Object(b)) => {
                proof {
                    lemma_member_models(a@);
                    lemma_member_models(b@);
                }
                if a.len() != b.len() {
                    return false;
                }
                let mut i: usize = 0;
                while i < a.len()
                    invariant
                        i <= a@.len(),
                        a@.len() == b@.len(),
                        member_models(a@).len() == a@.len(),
                        member_models(b@).len() == b@.len(),
                        forall|j: int|
                            0 <= j < a@.len() ==> (#[trigger] member_models(a@)[j]) == (
                                a@[j].0@,
                                model(a@[j].1),
                            ),
                        forall|j: int|
                            0 <= j < b@.len() ==> (#[trigger] member_models(b@)[j]) == (
                                b@[j].0@,
                                model(b@[j].1),
                            ),
                        forall|j: int|
                            0 <= j < i ==> a@[j].0@ == b@[j].0@ && model(a@[j].1) == model(b@[j].1),
                        self@ == JsonView::Object(member_models(a@)),
                        other@ == JsonView::Object(member_models(b@)),
                        decreases_to!(self => a),
                    decreases a@.len() - i,
                {
                    assert(decreases_to!(a => a[i as int]));
                    assert(decreases_to!(self => a[i as int].1));
                    if !str_eq(a[i].0.as_str(), b[i].0.as_str()) || !a[i].1.same(&b[i].1) {
                        assert(member_models(a@)[i as int] != member_models(b@)[i as int]);
                        return false;
                    }
                    i = i + 1;
                }
                assert(member_models(a@) =~= member_models(b@));
                true
            },
            _ => false,
        }
    }

    /// A copy of the value.
    pub fn duplicate(&self) -> (r: Json)
        ensures
            r@ == self@,
        decreases self,
    {
        match self {
            Json::Null => Json::Null,
            Json::Bool(b) => Json::Bool(*b),
            Json::Integer(n) => Json::Integer(*n),
            Json::Decimal(s) => Json::Decimal(s.clone()),
            Json::String(s) => Json::String(s.clone()),
            Json::Array(items) => {
                let mut copy: Vec<Json> = Vec::new();
                let mut i: usize = 0;
                while i < items.len()
                    invariant
                        i <= items@.len(),
                        copy@.len() == i,
                        forall|j: int| 0 <= j < i ==> (#[trigger] copy@[j])@ == items@[j]@,
                        decreases_to!(self => items),
                    decreases items@.len() - i,
                {
                    assert(decreases_to!(items => items[i as int]));
                    assert(decreases_to!(self => items[i as int]));
                    copy.push(items[i].duplicate());
                    i = i + 1;
                }
                proof {
                    lemma_models(items@);
                    lemma_models(copy@);
                    assert(models(copy@) =~= models(items@));
                }
                Json::Array(copy)
            },
            Json::Object(members) => {
                let mut copy: Vec<(String, Json)> = Vec::new();
                let mut i: usize = 0;
                while i < members.len()
                    invariant
                        i <= members@.len(),
                        copy@.len() == i,
                        forall|j: int|
                            0 <= j < i ==> (#[trigger] copy@[j]).0@ == members@[j].0@
                                && copy@[j].1@ == members@[j].1@,
                        decreases_to!(self => members),
                    decreases members@.len() - i,
                {
                    assert(decreases_to!(members => members[i as int]));
                    assert(decreases_to!(self => members[i as int].1));
                    copy.push((members[i].0.clone(), members[i].1.duplicate()));
                    i = i + 1;
                }
                proof {
                    lemma_member_models(members@);
                    lemma_member_models(copy@);
                    assert(member_models(copy@) =~= member_models(members@));
                }
                Json::Object(copy)
            },
        }
    }

    /// Whether the value is `null`.
    pub fn is_null(&self) -> (r: bool)
        ensures
            r == (self@ is Null),
    {
        match self {
            Json::Null => true,
            _ => false,
        }
    }
}


} // verus!
