//! JSON values: what requests, replies, transcripts and tool schemas are made of.
//!
//! Text is read and written by `serde_json`; everything else about a value is
//! decided here, on plain data.
use serde_json::Value;
use vstd::prelude::*;

use crate::text::same_text;

verus! {

/// A JSON number.
#[derive(Debug)]
pub enum Number {
    /// An integer that is not negative.
    PosInt(u64),
    /// An integer below zero.
    NegInt(i64),
    /// A number with a fraction or an exponent, as the text it is written with.
    Float(String),
}

/// A JSON value.
#[derive(Debug)]
pub enum Json {
    Null,
    Bool(bool),
    Number(Number),
    String(String),
    Array(Vec<Json>),
    Object(JsonMap),
}

/// The members of a JSON object.
#[derive(Debug)]
pub struct JsonMap {
    entries: Vec<(String, Json)>,
}

/// What a [`Number`] is.
#[verifier::ext_equal]
pub enum NumberView {
    PosInt(u64),
    NegInt(i64),
    Float(Seq<char>),
}

/// What a [`Json`] value is: an object is a map, so the order in which its
/// members were put in does not matter.
#[verifier::ext_equal]
pub enum JsonView {
    Null,
    Bool(bool),
    Number(NumberView),
    String(Seq<char>),
    Array(Seq<JsonView>),
    Object(Map<Seq<char>, JsonView>),
}

impl View for Number {
    type V = NumberView;

    open spec fn view(&self) -> NumberView {
        match self {
            Number::PosInt(n) => NumberView::PosInt(*n),
            Number::NegInt(n) => NumberView::NegInt(*n),
            Number::Float(s) => NumberView::Float(s@),
        }
    }
}

impl View for Json {
    type V = JsonView;

    open spec fn view(&self) -> JsonView
        decreases self, 0nat, 0nat,
    {
        match self {
            Json::Null => JsonView::Null,
            Json::Bool(b) => JsonView::Bool(*b),
            Json::Number(n) => JsonView::Number(n@),
            Json::String(s) => JsonView::String(s@),
            Json::Array(items) => JsonView::Array(
                Seq::new(
                    items@.len(),
                    |i: int|
                        if 0 <= i < items@.len() {
                            items@[i]@
                        } else {
                            JsonView::Null
                        },
                ),
            ),
            Json::Object(map) => JsonView::Object(map@),
        }
    }
}

impl View for JsonMap {
    type V = Map<Seq<char>, JsonView>;

    closed spec fn view(&self) -> Map<Seq<char>, JsonView>
        decreases self, 1nat, 0nat,
    {
        self.prefix_map(self.entries@.len())
    }
}

/// The map that a list of members stands for.
spec fn entries_map(s: Seq<(Seq<char>, JsonView)>) -> Map<Seq<char>, JsonView>
    decreases s.len(),
{
    if s.len() == 0 {
        Map::empty()
    } else {
        entries_map(s.drop_last()).insert(s.last().0, s.last().1)
    }
}

/// The views of a list of values.
pub open spec fn views(items: Seq<Json>) -> Seq<JsonView> {
    Seq::new(items.len(), |i: int| items[i]@)
}

/// An array is the list of its elements' views.
pub broadcast proof fn lemma_array_view(items: Vec<Json>)
    ensures
        #[trigger] Json::Array(items)@ == JsonView::Array(views(items@)),
{
    reveal_with_fuel(<Json as View>::view, 2);
    assert(Json::Array(items)@->Array_0 =~= views(items@));
}

/// Copies of values.
pub fn copies(items: &[Json]) -> (res: Vec<Json>)
    ensures
        views(res@) == views(items@),
{
    let mut res: Vec<Json> = Vec::new();
    for i in 0..items.len()
        invariant
            res@.len() == i,
            forall|j: int| 0 <= j < i ==> (#[trigger] res@[j])@ == items@[j]@,
    {
        res.push(items[i].clone());
    }
    assert(views(res@) =~= views(items@));
    res
}

impl JsonView {
    /// The text of a string.
    pub open spec fn as_str(self) -> Option<Seq<char>> {
        match self {
            JsonView::String(s) => Some(s),
            _ => None,
        }
    }

    /// The text of a string, or `default` for any other value.
    pub open spec fn str_or(self, default: Seq<char>) -> Seq<char> {
        match self {
            JsonView::String(s) => s,
            _ => default,
        }
    }

    /// The integer that a number is, if it is one and is not negative.
    pub open spec fn as_u64(self) -> Option<u64> {
        match self {
            JsonView::Number(NumberView::PosInt(n)) => Some(n),
            _ => None,
        }
    }

    /// The elements of an array.
    pub open spec fn as_array(self) -> Option<Seq<JsonView>> {
        match self {
            JsonView::Array(items) => Some(items),
            _ => None,
        }
    }

    /// The elements of an array, none for any other value.
    pub open spec fn elements(self) -> Seq<JsonView> {
        match self {
            JsonView::Array(items) => items,
            _ => Seq::empty(),
        }
    }

    /// The member of an object with this name.
    pub open spec fn get(self, key: Seq<char>) -> Option<JsonView> {
        match self {
            JsonView::Object(map) => if map.contains_key(key) {
                Some(map[key])
            } else {
                None
            },
            _ => None,
        }
    }

    /// The member of an object with this name, `Null` where there is none.
    pub open spec fn at(self, key: Seq<char>) -> JsonView {
        match self.get(key) {
            Some(v) => v,
            None => JsonView::Null,
        }
    }

    /// What the path segment `0` leads to: the first element of an array, or
    /// the member of that name of an object.
    pub open spec fn first(self) -> Option<JsonView> {
        match self {
            JsonView::Array(items) => if items.len() > 0 {
                Some(items[0])
            } else {
                None
            },
            _ => self.get("0"@),
        }
    }
}

/// The map holds what the last member of a name says.
proof fn lemma_entries_map_last(s: Seq<(Seq<char>, JsonView)>, key: Seq<char>, i: int)
    requires
        0 <= i < s.len(),
        s[i].0 == key,
        forall|j: int| i < j < s.len() ==> s[j].0 != key,
    ensures
        entries_map(s).contains_key(key),
        entries_map(s)[key] == s[i].1,
    decreases s.len(),
{
    if i < s.len() - 1 {
        lemma_entries_map_last(s.drop_last(), key, i);
    }
}

/// The map holds only names that some member has.
proof fn lemma_entries_map_absent(s: Seq<(Seq<char>, JsonView)>, key: Seq<char>)
    requires
        forall|j: int| 0 <= j < s.len() ==> s[j].0 != key,
    ensures
        !entries_map(s).contains_key(key),
    decreases s.len(),
{
    if s.len() > 0 {
        lemma_entries_map_absent(s.drop_last(), key);
    }
}

/// To change the last member of a name is to insert into the map.
proof fn lemma_entries_map_update(
    s: Seq<(Seq<char>, JsonView)>,
    key: Seq<char>,
    value: JsonView,
    i: int,
)
    requires
        0 <= i < s.len(),
        s[i].0 == key,
        forall|j: int| i < j < s.len() ==> s[j].0 != key,
    ensures
        entries_map(s.update(i, (key, value))) == entries_map(s).insert(key, value),
    decreases s.len(),
{
    let t = s.update(i, (key, value));
    if i < s.len() - 1 {
        lemma_entries_map_update(s.drop_last(), key, value, i);
        assert(t.drop_last() == s.drop_last().update(i, (key, value)));
        assert(entries_map(t) == entries_map(s).insert(key, value));
    } else {
        assert(t.drop_last() == s.drop_last());
        assert(entries_map(t) == entries_map(s).insert(key, value));
    }
}

/// Taking a member away changes the map at its own name alone.
proof fn lemma_entries_map_remove(s: Seq<(Seq<char>, JsonView)>, i: int)
    requires
        0 <= i < s.len(),
    ensures
        entries_map(s.remove(i)).remove(s[i].0) == entries_map(s).remove(s[i].0),
    decreases s.len(),
{
    let key = s[i].0;
    let t = s.remove(i);
    if i < s.len() - 1 {
        lemma_entries_map_remove(s.drop_last(), i);
        assert(t.drop_last() == s.drop_last().remove(i));
        let a = entries_map(t.drop_last());
        let b = entries_map(s.drop_last());
        assert(entries_map(t) == a.insert(s.last().0, s.last().1));
        assert(entries_map(s) == b.insert(s.last().0, s.last().1));
        let (k, v) = s.last();
        if k == key {
            assert(a.insert(k, v).remove(key) =~= a.remove(key));
            assert(b.insert(k, v).remove(key) =~= b.remove(key));
        } else {
            assert(a.insert(k, v).remove(key) =~= a.remove(key).insert(k, v));
            assert(b.insert(k, v).remove(key) =~= b.remove(key).insert(k, v));
        }
        assert(entries_map(t).remove(key) =~= entries_map(s).remove(key));
    } else {
        assert(t == s.drop_last());
        assert(entries_map(t).remove(key) == entries_map(s).remove(key));
    }
}

impl JsonMap {
    /// The members in the order in which they are held.
    spec fn pairs(&self) -> Seq<(Seq<char>, JsonView)> {
        Seq::new(self.entries@.len(), |i: int| (self.entries@[i].0@, self.entries@[i].1@))
    }

    /// The map that the first `n` members stand for: of two with one name, the
    /// later counts.
    spec fn prefix_map(&self, n: nat) -> Map<Seq<char>, JsonView>
        decreases self, 0nat, n,
    {
        if n == 0 || n > self.entries@.len() {
            Map::empty()
        } else {
            self.prefix_map((n - 1) as nat).insert(
                self.entries@[n - 1].0@,
                self.entries@[n - 1].1@,
            )
        }
    }

    proof fn lemma_prefix_map(&self, n: nat)
        requires
            n <= self.entries@.len(),
        ensures
            self.prefix_map(n) == entries_map(self.pairs().take(n as int)),
        decreases n,
    {
        if n > 0 {
            self.lemma_prefix_map((n - 1) as nat);
            assert(self.pairs().take(n as int).drop_last() == self.pairs().take(n - 1));
        }
    }

    proof fn lemma_view(&self)
        ensures
            self@ == entries_map(self.pairs()),
    {
        self.lemma_prefix_map(self.entries@.len());
        assert(self.pairs().take(self.entries@.len() as int) == self.pairs());
    }

    /// An object without members.
    pub fn new() -> (res: Self)
        ensures
            res@ == Map::<Seq<char>, JsonView>::empty(),
    {
        let res = JsonMap { entries: Vec::new() };
        proof {
            res.lemma_view();
        }
        res
    }

    /// Where the member that counts for this name is held.
    fn find(&self, key: &str) -> (res: Option<usize>)
        ensures
            match res {
                Some(i) => {
                    &&& i < self.entries@.len()
                    &&& self.entries@[i as int].0@ == key@
                    &&& forall|j: int|
                        i < j < self.entries@.len() ==> (#[trigger] self.entries@[j]).0@ != key@
                    &&& self@.contains_key(key@)
                    &&& self@[key@] == self.entries@[i as int].1@
                },
                None => {
                    &&& forall|j: int|
                        0 <= j < self.entries@.len() ==> (#[trigger] self.entries@[j]).0@ != key@
                    &&& !self@.contains_key(key@)
                },
            },
    {
        proof {
            self.lemma_view();
        }
        let mut i: usize = self.entries.len();
        while i > 0
            invariant
                i <= self.entries@.len(),
                self@ == entries_map(self.pairs()),
                forall|j: int|
                    i <= j < self.entries@.len() ==> (#[trigger] self.entries@[j]).0@ != key@,
            decreases i,
        {
            i -= 1;
            if same_text(self.entries[i].0.as_str(), key) {
                proof {
                    lemma_entries_map_last(self.pairs(), key@, i as int);
                }
                return Some(i);
            }
        }
        proof {
            lemma_entries_map_absent(self.pairs(), key@);
        }
        None
    }

    /// The member with this name.
    pub fn get(&self, key: &str) -> (res: Option<&Json>)
        ensures
            match res {
                Some(v) => self@.contains_key(key@) && v@ == self@[key@],
                None => !self@.contains_key(key@),
            },
    {
        match self.find(key) {
            Some(i) => Some(&self.entries[i].1),
            None => None,
        }
    }

    /// Set the member with this name.
    pub fn insert(&mut self, key: String, value: Json)
        ensures
            final(self)@ == old(self)@.insert(key@, value@),
    {
        proof {
            self.lemma_view();
        }
        let ghost before = self.pairs();
        let ghost k = key@;
        let ghost v = value@;
        match self.find(key.as_str()) {
            Some(i) => {
                self.entries.set(i, (key, value));
                proof {
                    self.lemma_view();
                    assert(self.pairs() =~= before.update(i as int, (k, v)));
                    lemma_entries_map_update(before, k, v, i as int);
                }
            },
            None => {
                self.entries.push((key, value));
                proof {
                    self.lemma_view();
                    assert(self.pairs() =~= before.push((k, v)));
                    assert(self.pairs().drop_last() =~= before);
                }
            },
        }
    }

    /// Set the member with this name.
    pub fn set(&mut self, key: &str, value: Json)
        ensures
            final(self)@ == old(self)@.insert(key@, value@),
    {
        self.insert(key.to_owned(), value);
    }

    /// Set every member that `other` has to what it is there.
    pub fn extend_from(&mut self, other: &JsonMap)
        ensures
            final(self)@ == old(self)@.union_prefer_right(other@),
    {
        let ghost before = self@;
        assert(self@ =~= before.union_prefer_right(entries_map(other.pairs().take(0))));
        for i in 0..other.entries.len()
            invariant
                self@ == before.union_prefer_right(entries_map(other.pairs().take(i as int))),
        {
            let ghost seen = other.pairs().take(i as int);
            let ghost next = other.pairs().take(i + 1);
            assert(next.drop_last() == seen);
            self.insert(other.entries[i].0.clone(), other.entries[i].1.clone());
            assert(self@ =~= before.union_prefer_right(entries_map(next)));
        }
        proof {
            other.lemma_view();
            assert(other.pairs().take(other.entries@.len() as int) == other.pairs());
        }
    }

    /// Drop the member with this name, where there is one.
    pub fn remove(&mut self, key: &str)
        ensures
            final(self)@ == old(self)@.remove(key@),
    {
        let ghost before = self@;
        let mut found = self.find(key);
        while found.is_some()
            invariant
                self@.remove(key@) == before.remove(key@),
                match found {
                    Some(i) => i < self.entries@.len() && self.entries@[i as int].0@ == key@,
                    None => !self@.contains_key(key@),
                },
            decreases self.entries@.len(),
        {
            if let Some(i) = found {
                let ghost pairs = self.pairs();
                proof {
                    self.lemma_view();
                }
                let _ = self.entries.remove(i);
                proof {
                    self.lemma_view();
                    assert(self.pairs() =~= pairs.remove(i as int));
                    lemma_entries_map_remove(pairs, i as int);
                }
            }
            found = self.find(key);
        }
        assert(self@ =~= self@.remove(key@));
    }
}

impl Number {
    fn same(&self, other: &Number) -> (res: bool)
        ensures
            res == (self@ == other@),
    {
        match (self, other) {
            (Number::PosInt(a), Number::PosInt(b)) => *a == *b,
            (Number::NegInt(a), Number::NegInt(b)) => *a == *b,
            (Number::Float(a), Number::Float(b)) => same_text(a.as_str(), b.as_str()),
            _ => false,
        }
    }
}

impl Json {
    /// Whether two values are the same, members of objects in any order.
    fn same(&self, other: &Json) -> (res: bool)
        ensures
            res == (self@ == other@),
        decreases self, 0nat,
    {
        match (self, other) {
            (Json::Null, Json::Null) => true,
            (Json::Bool(a), Json::Bool(b)) => *a == *b,
            (Json::Number(a), Json::Number(b)) => a.same(b),
            (Json::String(a), Json::String(b)) => same_text(a.as_str(), b.as_str()),
            (Json::Array(a), Json::Array(b)) => {
                proof {
                    lemma_array_view(*a);
                    lemma_array_view(*b);
                }
                if a.len() != b.len() {
                    assert(views(a@).len() != views(b@).len());
                    return false;
                }
                for i in 0..a.len()
                    invariant
                        *self == Json::Array(*a),
                        *other == Json::Array(*b),
                        self@ == JsonView::Array(views(a@)),
                        other@ == JsonView::Array(views(b@)),
                        a@.len() == b@.len(),
                        forall|j: int| 0 <= j < i ==> a@[j]@ == b@[j]@,
                {
                    assert(decreases_to!(self => self->Array_0));
                    if !a[i].same(&b[i]) {
                        assert(views(a@)[i as int] != views(b@)[i as int]);
                        return false;
                    }
                }
                assert(views(a@) =~= views(b@));
                true
            },
            (Json::Object(a), Json::Object(b)) => a.same(b),
            _ => false,
        }
    }
}

impl JsonMap {
    proof fn lemma_held(&self, key: Seq<char>)
        requires
            self@.contains_key(key),
        ensures
            exists|i: int| 0 <= i < self.entries@.len() && (#[trigger] self.entries@[i]).0@ == key,
    {
        self.lemma_view();
        if forall|i: int| 0 <= i < self.entries@.len() ==> (#[trigger] self.entries@[i]).0@ != key {
            lemma_entries_map_absent(self.pairs(), key);
        }
    }

    /// Whether two objects have the same members.
    fn same(&self, other: &JsonMap) -> (res: bool)
        ensures
            res == (self@ == other@),
        decreases self, 1nat,
    {
        for i in 0..self.entries.len()
            invariant
                forall|j: int|
                    0 <= j < i ==> {
                        let k = (#[trigger] self.entries@[j]).0@;
                        other@.contains_key(k) && self@[k] == other@[k]
                    },
        {
            let key = self.entries[i].0.as_str();
            match (self.find(key), other.find(key)) {
                (Some(mine), Some(theirs)) => {
                    if !self.entries[mine].1.same(&other.entries[theirs].1) {
                        return false;
                    }
                },
                (mine, theirs) => {
                    assert(self.entries@[i as int].0@ == key@);
                    assert(mine is Some);
                    return false;
                },
            }
        }
        for i in 0..other.entries.len()
            invariant
                forall|j: int|
                    0 <= j < i ==> self@.contains_key((#[trigger] other.entries@[j]).0@),
        {
            let key = other.entries[i].0.as_str();
            if self.find(key).is_none() {
                let theirs = other.find(key);
                assert(other.entries@[i as int].0@ == key@);
                assert(theirs is Some);
                return false;
            }
        }
        proof {
            assert forall|k: Seq<char>| #[trigger]
                self@.dom().contains(k) implies other@.dom().contains(k) && self@[k]
                == other@[k] by {
                self.lemma_held(k);
            }
            assert forall|k: Seq<char>| #[trigger]
                other@.dom().contains(k) implies self@.dom().contains(k) by {
                other.lemma_held(k);
            }
            assert(self@.dom() =~= other@.dom());
            assert(self@ =~= other@);
        }
        true
    }
}

impl PartialEq for Json {
    fn eq(&self, other: &Self) -> (res: bool) {
        self.same(other)
    }
}

impl vstd::std_specs::cmp::PartialEqSpecImpl for Json {
    open spec fn obeys_eq_spec() -> bool {
        true
    }

    open spec fn eq_spec(&self, other: &Self) -> bool {
        self@ == other@
    }
}

/// What a text was read as.
pub open spec fn parsed_view(parsed: Result<Json, String>) -> Result<JsonView, Seq<char>> {
    match parsed {
        Ok(json) => Ok(json@),
        Err(reason) => Err(reason@),
    }
}

impl Json {
    /// The value that a text is.
    ///
    /// # Errors
    /// What is wrong with a text that is no JSON.
    pub fn parse(text: &str) -> (res: Result<Json, String>)
        ensures
            parsed_view(res) == json_of_text(text@),
    {
        parse_json(text)
    }

    /// The compact text of the value.
    pub fn to_string(&self) -> (res: String)
        ensures
            res@ == text_of_json(self@),
    {
        json_text(self)
    }

    /// A string value.
    pub fn text(s: &str) -> (res: Self)
        ensures
            res@ == JsonView::String(s@),
    {
        Json::String(s.to_owned())
    }

    /// An array of copies of `items`.
    pub fn array(items: &[Json]) -> (res: Self)
        ensures
            res@ == JsonView::Array(views(items@)),
    {
        let copies = copies(items);
        proof {
            lemma_array_view(copies);
        }
        Json::Array(copies)
    }

    /// Whether this is `null`.
    pub fn is_null(&self) -> (res: bool)
        ensures
            res == (self@ is Null),
    {
        match self {
            Json::Null => true,
            _ => false,
        }
    }

    /// The text of a string.
    pub fn as_str(&self) -> (res: Option<&str>)
        ensures
            match res {
                Some(s) => self@.as_str() == Some(s@),
                None => self@.as_str() is None,
            },
    {
        match self {
            Json::String(s) => Some(s.as_str()),
            _ => None,
        }
    }

    /// Whether this is the string `s`.
    pub fn is_str(&self, s: &str) -> (res: bool)
        ensures
            res == (self@ == JsonView::String(s@)),
    {
        match self {
            Json::String(t) => same_text(t.as_str(), s),
            _ => false,
        }
    }

    /// The text of a string, or `default` for any other value.
    pub fn str_or<'a>(&'a self, default: &'a str) -> (res: &'a str)
        ensures
            res@ == self@.str_or(default@),
    {
        match self {
            Json::String(s) => s.as_str(),
            _ => default,
        }
    }

    /// The integer that a number is, if it is one and is not negative.
    pub fn as_u64(&self) -> (res: Option<u64>)
        ensures
            res == self@.as_u64(),
    {
        match self {
            Json::Number(Number::PosInt(n)) => Some(*n),
            _ => None,
        }
    }

    /// The elements of an array.
    pub fn as_array(&self) -> (res: Option<&Vec<Json>>)
        ensures
            match res {
                Some(items) => self@.as_array() == Some(views(items@)),
                None => self@.as_array() is None,
            },
    {
        match self {
            Json::Array(items) => {
                proof {
                    lemma_array_view(*items);
                }
                Some(items)
            },
            _ => None,
        }
    }

    /// The member of an object with this name.
    pub fn get(&self, key: &str) -> (res: Option<&Json>)
        ensures
            match res {
                Some(v) => self@.get(key@) == Some(v@),
                None => self@.get(key@) is None,
            },
    {
        match self {
            Json::Object(map) => map.get(key),
            _ => None,
        }
    }

    /// The member of an object with this name, `Null` where there is none.
    pub fn at(&self, key: &str) -> (res: &Json)
        ensures
            res@ == self@.at(key@),
    {
        match self.get(key) {
            Some(v) => v,
            None => &Json::Null,
        }
    }

    /// What the path segment `0` leads to: the first element of an array, or
    /// the member of that name of an object.
    pub fn first(&self) -> (res: Option<&Json>)
        ensures
            match res {
                Some(v) => self@.first() == Some(v@),
                None => self@.first() is None,
            },
    {
        match self {
            Json::Array(items) => {
                proof {
                    lemma_array_view(*items);
                }
                if items.len() > 0 {
                    Some(&items[0])
                } else {
                    None
                }
            },
            _ => self.get("0"),
        }
    }
}

impl Clone for Number {
    fn clone(&self) -> (res: Self)
        ensures
            res@ == self@,
    {
        match self {
            Number::PosInt(n) => Number::PosInt(*n),
            Number::NegInt(n) => Number::NegInt(*n),
            Number::Float(s) => Number::Float(s.clone()),
        }
    }
}

impl Clone for Json {
    fn clone(&self) -> (res: Self)
        ensures
            res@ == self@,
        decreases self,
    {
        match self {
            Json::Null => Json::Null,
            Json::Bool(b) => Json::Bool(*b),
            Json::Number(n) => Json::Number(n.clone()),
            Json::String(s) => Json::String(s.clone()),
            Json::Array(items) => {
                let mut out: Vec<Json> = Vec::new();
                for i in 0..items.len()
                    invariant
                        *self == Json::Array(*items),
                        out@.len() == i,
                        forall|j: int| 0 <= j < i ==> out@[j]@ == items@[j]@,
                {
                    assert(decreases_to!(self => self->Array_0));
                    let item = items[i].clone();
                    out.push(item);
                }
                let res = Json::Array(out);
                assert(res@->Array_0 =~= self@->Array_0);
                res
            },
            Json::Object(map) => Json::Object(map.clone()),
        }
    }
}

impl Clone for JsonMap {
    fn clone(&self) -> (res: Self)
        ensures
            res@ == self@,
        decreases self,
    {
        let mut entries: Vec<(String, Json)> = Vec::new();
        for i in 0..self.entries.len()
            invariant
                entries@.len() == i,
                forall|j: int|
                    0 <= j < i ==> (#[trigger] entries@[j]).0@ == self.entries@[j].0@
                        && entries@[j].1@ == self.entries@[j].1@,
        {
            let key = self.entries[i].0.clone();
            let value = self.entries[i].1.clone();
            entries.push((key, value));
        }
        let res = JsonMap { entries };
        proof {
            self.lemma_view();
            res.lemma_view();
            assert(res.pairs() =~= self.pairs());
        }
        res
    }
}

/// `serde_json::Value`, which is only ever on its way to or from a [`Json`].
#[verifier::external_type_specification]
#[verifier::external_body]
pub struct ExValue(serde_json::Value);

/// What `serde_json::from_str` makes of a text: a value, or why it is none.
pub uninterp spec fn json_of_text(text: Seq<char>) -> Result<JsonView, Seq<char>>;

/// The compact text that `serde_json` writes for a value, with the members of
/// its objects in the order of their names.
pub uninterp spec fn text_of_json(value: JsonView) -> Seq<char>;

/// A `serde_json::Value` as a [`Json`], variant by variant.
#[verifier::external_body]
fn from_value(value: Value) -> (res: Json) {
    match value {
        Value::Null => Json::Null,
        Value::Bool(b) => Json::Bool(b),
        Value::Number(n) => Json::Number(match (n.as_u64(), n.as_i64()) {
            (Some(u), _) => Number::PosInt(u),
            (None, Some(i)) => Number::NegInt(i),
            (None, None) => Number::Float(n.to_string()),
        }),
        Value::String(s) => Json::String(s),
        Value::Array(a) => Json::Array(a.into_iter().map(from_value).collect()),
        Value::Object(m) => Json::Object(JsonMap {
            entries: m.into_iter().map(|(k, v)| (k, from_value(v))).collect(),
        }),
    }
}

/// A [`Json`] as a `serde_json::Value`, variant by variant. A text that
/// `serde_json` does not read as a number becomes `null`.
#[verifier::external_body]
fn to_value(json: &Json) -> (res: Value) {
    match json {
        Json::Null => Value::Null,
        Json::Bool(b) => Value::Bool(*b),
        Json::Number(Number::PosInt(n)) => Value::from(*n),
        Json::Number(Number::NegInt(n)) => Value::from(*n),
        Json::Number(Number::Float(s)) => s.parse().map_or(Value::Null, Value::Number),
        Json::String(s) => Value::String(s.clone()),
        Json::Array(a) => Value::Array(a.iter().map(to_value).collect()),
        Json::Object(m) => Value::Object(
            m.entries.iter().map(|(k, v)| (k.clone(), to_value(v))).collect(),
        ),
    }
}

/// `serde_json::from_str` into a value: whether the text is JSON, the value
/// that it is and what is wrong with one that is none depend on the text alone.
#[verifier::external_body]
pub(crate) fn parse_json(text: &str) -> (res: Result<Json, String>)
    ensures
        match res {
            Ok(json) => json_of_text(text@) == Ok::<JsonView, Seq<char>>(json@),
            Err(reason) => json_of_text(text@) == Err::<JsonView, Seq<char>>(reason@),
        },
{
    serde_json::from_str::<Value>(text).map(from_value).map_err(|e| e.to_string())
}

/// `to_string` of a `serde_json::Value`: the compact text depends on the value
/// alone, since `serde_json` keeps the members of an object in the order of their
/// names, and is never empty.
#[verifier::external_body]
pub(crate) fn json_text(json: &Json) -> (res: String)
    ensures
        res@ == text_of_json(json@),
        res@.len() > 0,
{
    to_value(json).to_string()
}

/// What a value is asked for is what it holds: a member under its own name, the
/// elements of an array, the text of a string, an integer that is not negative; and
/// nothing where it holds no such thing.
pub proof fn a_value_gives_what_it_holds(
    value: JsonView,
    map: Map<Seq<char>, JsonView>,
    items: Seq<JsonView>,
    text: Seq<char>,
    n: u64,
    key: Seq<char>,
)
    ensures
        JsonView::Object(map).get(key) == if map.dom().contains(key) {
            Some(map[key])
        } else {
            None
        },
        JsonView::Object(map).at(key) == if map.dom().contains(key) {
            map[key]
        } else {
            JsonView::Null
        },
        JsonView::Array(items).elements() == items,
        JsonView::Array(items).as_array() == Some(items),
        items.len() > 0 ==> JsonView::Array(items).first() == Some(items[0]),
        JsonView::String(text).as_str() == Some(text),
        JsonView::String(text).str_or(key) == text,
        JsonView::Number(NumberView::PosInt(n)).as_u64() == Some(n),
        value !is Object ==> value.get(key) is None && value.at(key) is Null,
        value !is Array ==> value.elements().len() == 0 && value.as_array() is None,
        value !is String ==> value.as_str() is None && value.str_or(key) == key,
        value !is Number ==> value.as_u64() is None,
{
}

} // verus!
