//! JSON values, and the reads and writes that prompts make of them.

use vstd::prelude::*;
use crate::text::{opt_text, opt_string, same};

verus! {

/// A number as the prompt sees it.
#[derive(Debug)]
pub enum Number {
    /// An integer from 0 to `u64::MAX`.
    PosInt(u64),
    /// A negative integer.
    NegInt(i64),
    /// A number with a fraction or an exponent, by its decimal text as `serde_json`
    /// prints it.
    Float(String),
}

/// A JSON value.
#[derive(Debug)]
pub enum Json {
    Null,
    Bool(bool),
    Number(Number),
    Text(String),
    Array(Vec<Json>),
    Object(JsonObject),
}

/// The members of a JSON object in their order, each key once.
#[derive(Debug)]
pub struct JsonObject {
    entries: Vec<(String, Json)>,
}

/// What a [`Number`] stands for.
pub enum NumberView {
    Integer(int),
    Float(Seq<char>),
}

/// What a [`Json`] stands for.
pub enum JsonView {
    Null,
    Bool(bool),
    Number(NumberView),
    Text(Seq<char>),
    Array(Seq<JsonView>),
    Object(Seq<(Seq<char>, JsonView)>),
}

/// The members of an object: keys and values in their order.
pub type Members = Seq<(Seq<char>, JsonView)>;

impl View for Number {
    type V = NumberView;

    open spec fn view(&self) -> NumberView {
        match self {
            Number::PosInt(n) => NumberView::Integer(*n as int),
            Number::NegInt(n) => NumberView::Integer(*n as int),
            Number::Float(t) => NumberView::Float(t@),
        }
    }
}

spec fn view_of(j: Json) -> JsonView
    decreases j,
{
    match j {
        Json::Null => JsonView::Null,
        Json::Bool(b) => JsonView::Bool(b),
        Json::Number(n) => JsonView::Number(n@),
        Json::Text(s) => JsonView::Text(s@),
        Json::Array(v) => JsonView::Array(
            Seq::new(
                v@.len(),
                |i: int|
                    if 0 <= i < v@.len() {
                        view_of(v@[i])
                    } else {
                        JsonView::Null
                    },
            ),
        ),
        Json::Object(o) => JsonView::Object(
            Seq::new(
                o.entries@.len(),
                |i: int|
                    if 0 <= i < o.entries@.len() {
                        (o.entries@[i].0@, view_of(o.entries@[i].1))
                    } else {
                        (Seq::empty(), JsonView::Null)
                    },
            ),
        ),
    }
}

impl View for Json {
    type V = JsonView;

    closed spec fn view(&self) -> JsonView {
        view_of(*self)
    }
}

/// What each value of a list stands for.
pub open spec fn views(values: Seq<Json>) -> Seq<JsonView> {
    values.map_values(|j: Json| j@)
}

/// What an optional value stands for.
pub open spec fn opt_json(o: Option<&Json>) -> Option<JsonView> {
    match o {
        Some(j) => Some(j@),
        None => None,
    }
}

spec fn entry_views(entries: Seq<(String, Json)>) -> Members {
    entries.map_values(|e: (String, Json)| (e.0@, e.1@))
}

impl View for JsonObject {
    type V = Members;

    closed spec fn view(&self) -> Members {
        entry_views(self.entries@)
    }
}

/// The view of a value, by its outermost layer.
pub broadcast proof fn json_view(j: Json)
    ensures
        #[trigger] j@ == match j {
            Json::Null => JsonView::Null,
            Json::Bool(b) => JsonView::Bool(b),
            Json::Number(n) => JsonView::Number(n@),
            Json::Text(s) => JsonView::Text(s@),
            Json::Array(v) => JsonView::Array(views(v@)),
            Json::Object(o) => JsonView::Object(o@),
        },
{
    match j {
        Json::Array(v) => {
            assert(view_of(j)->Array_0 =~= views(v@));
        },
        Json::Object(o) => {
            assert(view_of(j)->Object_0 =~= o@);
        },
        _ => {},
    }
}

/// An item of an array is structurally smaller than the array.
pub proof fn array_item_smaller(v: JsonView, i: int)
    requires
        v is Array,
        0 <= i < v->Array_0.len(),
    ensures
        decreases_to!(v => v->Array_0[i]),
{
    assert(decreases_to!(v => v->Array_0));
    assert(decreases_to!(v->Array_0 => v->Array_0[i]));
}

/// A member's value is structurally smaller than the object.
pub proof fn object_value_smaller(v: JsonView, i: int)
    requires
        v is Object,
        0 <= i < v->Object_0.len(),
    ensures
        decreases_to!(v => v->Object_0[i].1),
{
    assert(decreases_to!(v => v->Object_0));
    assert(decreases_to!(v->Object_0 => v->Object_0[i]));
    assert(decreases_to!(v->Object_0[i] => v->Object_0[i].1));
}

/// Does every key of `members` occur once?
pub open spec fn keys_unique(members: Members) -> bool {
    forall|i: int, j: int|
        0 <= i < j < members.len() ==> (#[trigger] members[i]).0 != (#[trigger] members[j]).0
}

/// What a [`Json`] can stand for: every integer lies between `i64::MIN` and `u64::MAX`,
/// and in every object each key occurs once.
pub open spec fn valid(v: JsonView) -> bool
    decreases v,
{
    match v {
        JsonView::Number(NumberView::Integer(i)) => i64::MIN <= i <= u64::MAX,
        JsonView::Array(items) => forall|i: int|
            0 <= i < items.len() ==> valid(#[trigger] items[i]),
        JsonView::Object(members) => keys_unique(members) && forall|i: int|
            0 <= i < members.len() ==> valid((#[trigger] members[i]).1),
        _ => true,
    }
}

/// The place of the first member named `key`, or the number of members when there
/// is none.
pub open spec fn position(members: Members, key: Seq<char>) -> int
    decreases members.len(),
{
    if members.len() == 0 || members[0].0 == key {
        0
    } else {
        1 + position(members.drop_first(), key)
    }
}

/// Where `position` points: at the first member with the key, if any member has it.
pub proof fn position_is_first(members: Members, key: Seq<char>)
    ensures
        0 <= position(members, key) <= members.len(),
        position(members, key) < members.len() ==> members[position(members, key)].0 == key,
        forall|i: int| 0 <= i < position(members, key) ==> (#[trigger] members[i]).0 != key,
    decreases members.len(),
{
    if members.len() > 0 && members[0].0 != key {
        let rest = members.drop_first();
        position_is_first(rest, key);
        assert forall|i: int| 0 <= i < position(members, key) implies (
        #[trigger] members[i]).0 != key by {
            if i > 0 {
                assert(rest[i - 1] == members[i]);
            }
        }
    }
}

/// A place that holds the key with no earlier one that does is the position.
pub proof fn position_unique(members: Members, key: Seq<char>, p: int)
    requires
        0 <= p <= members.len(),
        p < members.len() ==> members[p].0 == key,
        forall|i: int| 0 <= i < p ==> (#[trigger] members[i]).0 != key,
    ensures
        position(members, key) == p,
{
    position_is_first(members, key);
    let q = position(members, key);
    if q < p {
        assert(members[q].0 == key);
    }
    if p < q {
        assert(members[p].0 == key);
    }
}

/// The value of the member named `key`.
pub open spec fn lookup(members: Members, key: Seq<char>) -> Option<JsonView> {
    let p = position(members, key);
    if p < members.len() {
        Some(members[p].1)
    } else {
        None
    }
}

/// The members after a write of `value` under `key`: in the place of the member with
/// that key, or at the end when there is none.
pub open spec fn inserted(members: Members, key: Seq<char>, value: JsonView) -> Members {
    let p = position(members, key);
    if p < members.len() {
        members.update(p, (key, value))
    } else {
        members.push((key, value))
    }
}

/// The members without the one named `key`; the last member takes its place.
pub open spec fn removed(members: Members, key: Seq<char>) -> Members {
    let p = position(members, key);
    if p < members.len() {
        members.update(p, members.last()).drop_last()
    } else {
        members
    }
}

/// A read after a write: the written key gives the written value, every other key
/// what it gave before.
pub proof fn read_after_insert(members: Members, key: Seq<char>, value: JsonView, other: Seq<char>)
    ensures
        lookup(inserted(members, key, value), key) == Some(value),
        other != key ==> lookup(inserted(members, key, value), other) == lookup(members, other),
        keys_unique(members) ==> keys_unique(inserted(members, key, value)),
{
    let p = position(members, key);
    let after = inserted(members, key, value);
    position_is_first(members, key);
    position_unique(after, key, p);
    if other != key {
        let q = position(members, other);
        position_is_first(members, other);
        if q < members.len() {
            assert(after[q] == members[q]);
            position_unique(after, other, q);
        } else {
            assert forall|i: int| 0 <= i < after.len() implies (#[trigger] after[i]).0 != other by {
                if i < members.len() && i != p {
                    assert(members[i].0 != other);
                }
            }
            position_unique(after, other, after.len() as int);
        }
    }
    if keys_unique(members) {
        assert forall|i: int, j: int| 0 <= i < j < after.len() implies (#[trigger] after[i]).0 != (
        #[trigger] after[j]).0 by {
            if j < members.len() {
                assert(members[i].0 != members[j].0);
            } else {
                assert(members[i].0 != key);
            }
        }
    }
}

/// A read after a removal, of an object without repeated keys: the removed key gives
/// nothing, every other key what it gave before.
pub proof fn read_after_remove(members: Members, key: Seq<char>, other: Seq<char>)
    requires
        keys_unique(members),
    ensures
        lookup(removed(members, key), key) is None,
        other != key ==> lookup(removed(members, key), other) == lookup(members, other),
        keys_unique(removed(members, key)),
{
    let p = position(members, key);
    let after = removed(members, key);
    position_is_first(members, key);
    if p < members.len() {
        let last = members.len() - 1;
        assert forall|i: int| 0 <= i < after.len() implies (#[trigger] after[i]).0 != key && after[i]
            == members[if i == p { last } else { i }] by {
            assert(members[p].0 == key);
            if i == p {
                assert(members[last].0 != members[p].0);
            } else if i < p {
                assert(members[i].0 != members[p].0);
            } else {
                assert(members[p].0 != members[i].0);
            }
        }
        position_unique(after, key, after.len() as int);
        if other != key {
            let q = position(members, other);
            position_is_first(members, other);
            if q < members.len() {
                let at = if q == last { p } else { q };
                assert(after[at] == members[q]);
                assert forall|i: int| 0 <= i < at implies (#[trigger] after[i]).0 != other by {
                    let from = if i == p { last } else { i };
                    assert(after[i] == members[from]);
                    assert(from != q);
                    if from < q {
                        assert(members[from].0 != members[q].0);
                    } else {
                        assert(members[q].0 != members[from].0);
                    }
                }
                position_unique(after, other, at);
            } else {
                assert forall|i: int| 0 <= i < after.len() implies (
                #[trigger] after[i]).0 != other by {
                    let from = if i == p { last } else { i };
                    assert(after[i] == members[from]);
                    assert(members[from].0 != other);
                }
                position_unique(after, other, after.len() as int);
            }
        }
        assert forall|i: int, j: int| 0 <= i < j < after.len() implies (#[trigger] after[i]).0 != (
        #[trigger] after[j]).0 by {
            let a = if i == p { last } else { i };
            let b = if j == p { last } else { j };
            assert(after[i] == members[a] && after[j] == members[b]);
            if a < b {
                assert(members[a].0 != members[b].0);
            } else {
                assert(members[b].0 != members[a].0);
            }
        }
    } else {
        position_unique(after, key, after.len() as int);
    }
}

impl JsonObject {
    #[verifier::type_invariant]
    spec fn wf(self) -> bool {
        keys_unique(self@)
    }

    /// An object without members.
    pub fn new() -> (r: JsonObject)
        ensures
            r@ == Members::empty(),
    {
        JsonObject { entries: Vec::new() }
    }

    /// The number of members.
    pub fn len(&self) -> (r: usize)
        ensures
            r == self@.len(),
            keys_unique(self@),
    {
        proof {
            use_type_invariant(self);
        }
        self.entries.len()
    }

    /// The key of the member at `i`.
    pub fn key(&self, i: usize) -> (r: &str)
        requires
            i < self@.len(),
        ensures
            r@ == self@[i as int].0,
    {
        self.entries[i].0.as_str()
    }

    /// The value of the member at `i`.
    pub fn value(&self, i: usize) -> (r: &Json)
        requires
            i < self@.len(),
        ensures
            r@ == self@[i as int].1,
    {
        &self.entries[i].1
    }

    /// The place of the member named `key`, or the number of members.
    fn find(&self, key: &str) -> (r: usize)
        ensures
            r == position(self@, key@),
            r <= self.entries@.len(),
            keys_unique(self@),
    {
        proof {
            use_type_invariant(self);
        }
        let mut i: usize = 0;
        while i < self.entries.len()
            invariant
                i <= self.entries@.len(),
                keys_unique(self@),
                forall|j: int| 0 <= j < i ==> (#[trigger] self@[j]).0 != key@,
            decreases self.entries@.len() - i,
        {
            assert(self@[i as int].0 == self.entries@[i as int].0@);
            if same(self.entries[i].0.as_str(), key) {
                proof {
                    position_unique(self@, key@, i as int);
                }
                return i;
            }
            i = i + 1;
        }
        proof {
            position_unique(self@, key@, i as int);
        }
        i
    }

    /// The value of the member named `key`.
    pub fn get(&self, key: &str) -> (r: Option<&Json>)
        ensures
            opt_json(r) == lookup(self@, key@),
    {
        let p: usize = self.find(key);
        if p < self.entries.len() {
            Some(&self.entries[p].1)
        } else {
            None
        }
    }

    /// This object with `value` under `key`: in place of the member with that key, or
    /// as the last member.
    pub fn insert(self, key: &str, value: Json) -> (r: JsonObject)
        ensures
            r@ == inserted(self@, key@, value@),
    {
        let p: usize = self.find(key);
        let ghost before = self@;
        let ghost stored = value@;
        let mut entries = self.entries;
        if p < entries.len() {
            entries[p] = (key.to_owned(), value);
        } else {
            entries.push((key.to_owned(), value));
        }
        proof {
            assert(entry_views(entries@) =~= inserted(before, key@, stored));
            read_after_insert(before, key@, stored, key@);
        }
        JsonObject { entries }
    }

    /// This object without the member named `key`; the last member takes its place.
    pub fn remove(self, key: &str) -> (r: JsonObject)
        ensures
            r@ == removed(self@, key@),
            lookup(r@, key@) is None,
    {
        let p: usize = self.find(key);
        let ghost before = self@;
        let mut entries = self.entries;
        if p < entries.len() {
            let _ = entries.swap_remove(p);
        }
        proof {
            assert(entry_views(entries@) =~= removed(before, key@));
            read_after_remove(before, key@, key@);
        }
        JsonObject { entries }
    }
}

/// The value of the member named `key`, when `v` is an object that has one.
pub open spec fn member(v: JsonView, key: Seq<char>) -> Option<JsonView> {
    match v {
        JsonView::Object(members) => lookup(members, key),
        _ => None,
    }
}

/// The characters of a string value.
pub open spec fn text_of(v: Option<JsonView>) -> Option<Seq<char>> {
    match v {
        Some(JsonView::Text(s)) => Some(s),
        _ => None,
    }
}

/// The characters of a string member, when there is one.
pub open spec fn text_field(v: JsonView, key: Seq<char>) -> Option<Seq<char>> {
    text_of(member(v, key))
}

/// The characters of an optional text, none when it is absent.
pub open spec fn or_empty(t: Option<Seq<char>>) -> Seq<char> {
    match t {
        Some(s) => s,
        None => Seq::empty(),
    }
}

/// The items of an array; a value that is no array has none.
pub open spec fn items_of(v: JsonView) -> Seq<JsonView> {
    match v {
        JsonView::Array(items) => items,
        _ => Seq::empty(),
    }
}

/// Is this the decimal text of zero? Every digit from 1 to 9 in it stands in the
/// exponent.
pub open spec fn zero_text(t: Seq<char>) -> bool {
    forall|i: int|
        0 <= i < t.len() && '1' <= #[trigger] t[i] <= '9' ==> exists|j: int|
            0 <= j < i && (#[trigger] t[j] == 'e' || t[j] == 'E')
}

/// Truthiness as Python has it: a bool as it is, a text, array or object when it is
/// not empty, a number when it is not zero, null never.
pub open spec fn truthy(v: JsonView) -> bool {
    match v {
        JsonView::Null => false,
        JsonView::Bool(b) => b,
        JsonView::Number(NumberView::Integer(n)) => n != 0,
        JsonView::Number(NumberView::Float(t)) => !zero_text(t),
        JsonView::Text(s) => s.len() > 0,
        JsonView::Array(items) => items.len() > 0,
        JsonView::Object(members) => members.len() > 0,
    }
}

impl Json {
    /// The value of the member named `key`, when this is an object that has one.
    pub fn get(&self, key: &str) -> (r: Option<&Json>)
        ensures
            opt_json(r) == member(self@, key@),
    {
        broadcast use json_view;

        match self {
            Json::Object(o) => o.get(key),
            _ => None,
        }
    }

    /// The string, when this is one.
    pub fn as_str(&self) -> (r: Option<&str>)
        ensures
            opt_text(r) == text_of(Some(self@)),
    {
        broadcast use json_view;

        match self {
            Json::Text(s) => Some(s.as_str()),
            _ => None,
        }
    }

    /// Is this null?
    pub fn is_null(&self) -> (r: bool)
        ensures
            r == (self@ is Null),
    {
        broadcast use json_view;

        matches!(self, Json::Null)
    }
}

/// A string member, when there is one.
pub fn str_field_opt(m: &Json, key: &str) -> (r: Option<String>)
    ensures
        opt_string(r) == text_field(m@, key@),
{
    match m.get(key) {
        Some(v) => match v.as_str() {
            Some(s) => Some(s.to_owned()),
            None => None,
        },
        None => None,
    }
}

/// A string member, empty when there is none.
pub fn str_field(m: &Json, key: &str) -> (r: String)
    ensures
        r@ == or_empty(text_field(m@, key@)),
{
    match str_field_opt(m, key) {
        Some(s) => s,
        None => String::new(),
    }
}

/// Is the string member named `key` there, with exactly this text?
pub fn field_is(m: &Json, key: &str, text: &str) -> (r: bool)
    ensures
        r == (text_field(m@, key@) == Some(text@)),
{
    match m.get(key) {
        Some(v) => match v.as_str() {
            Some(s) => same(s, text),
            None => false,
        },
        None => false,
    }
}

/// Is this the decimal text of zero?
fn is_zero_text(t: &str) -> (r: bool)
    ensures
        r == zero_text(t@),
{
    let mut in_mantissa = true;
    for c in it: t.chars()
        invariant
            it.seq() == t@,
            in_mantissa == !(exists|j: int|
                0 <= j < it.index() && (#[trigger] t@[j] == 'e' || t@[j] == 'E')),
            forall|i: int|
                0 <= i < it.index() && '1' <= #[trigger] t@[i] <= '9' ==> exists|j: int|
                    0 <= j < i && (#[trigger] t@[j] == 'e' || t@[j] == 'E'),
    {
        assert(t@[it.index() as int] == c);
        if c == 'e' || c == 'E' {
            in_mantissa = false;
        } else if in_mantissa && '1' <= c && c <= '9' {
            return false;
        }
    }
    true
}

/// Truthiness of a value as Python has it.
pub fn json_truthy(v: &Json) -> (r: bool)
    ensures
        r == truthy(v@),
{
    broadcast use json_view;

    match v {
        Json::Bool(b) => *b,
        Json::Text(s) => !s.as_str().is_empty(),
        Json::Number(Number::PosInt(n)) => *n != 0,
        Json::Number(Number::NegInt(n)) => *n != 0,
        Json::Number(Number::Float(t)) => !is_zero_text(t.as_str()),
        Json::Array(items) => items.len() != 0,
        Json::Object(o) => o.len() != 0,
        Json::Null => false,
    }
}

impl Clone for Number {
    fn clone(&self) -> (r: Number)
        ensures
            r@ == self@,
    {
        match self {
            Number::PosInt(n) => Number::PosInt(*n),
            Number::NegInt(n) => Number::NegInt(*n),
            Number::Float(t) => Number::Float(t.clone()),
        }
    }
}

impl Clone for Json {
    fn clone(&self) -> (r: Json)
        ensures
            r@ == self@,
        decreases self@,
    {
        broadcast use json_view;

        match self {
            Json::Null => Json::Null,
            Json::Bool(b) => Json::Bool(*b),
            Json::Number(n) => Json::Number(n.clone()),
            Json::Text(s) => Json::Text(s.clone()),
            Json::Array(v) => {
                let mut out: Vec<Json> = Vec::new();
                let mut i: usize = 0;
                while i < v.len()
                    invariant
                        i <= v@.len(),
                        self@ == JsonView::Array(views(v@)),
                        views(out@) == views(v@).take(i as int),
                    decreases v@.len() - i,
                {
                    proof {
                        array_item_smaller(self@, i as int);
                        assert(views(v@)[i as int] == v@[i as int]@);
                    }
                    let item = v[i].clone();
                    let ghost before = out@;
                    out.push(item);
                    proof {
                        assert(views(out@) =~= views(before).push(item@));
                        assert(views(v@).take(i + 1) =~= views(v@).take(i as int).push(item@));
                    }
                    i = i + 1;
                }
                proof {
                    assert(views(v@).take(i as int) =~= views(v@));
                }
                Json::Array(out)
            },
            Json::Object(o) => {
                let mut out = JsonObject::new();
                let n: usize = o.len();
                let mut i: usize = 0;
                while i < n
                    invariant
                        i <= n == o@.len(),
                        self@ == JsonView::Object(o@),
                        keys_unique(o@),
                        out@ == o@.take(i as int),
                    decreases o@.len() - i,
                {
                    proof {
                        object_value_smaller(self@, i as int);
                    }
                    let item = o.value(i).clone();
                    proof {
                        assert forall|j: int| 0 <= j < i implies (#[trigger] out@[j]).0 != o@[i as int].0 by {
                            assert(o@[j].0 != o@[i as int].0);
                        }
                        position_unique(out@, o@[i as int].0, i as int);
                        assert(o@.take(i + 1) =~= o@.take(i as int).push(o@[i as int]));
                    }
                    out = out.insert(o.key(i), item);
                    i = i + 1;
                }
                proof {
                    assert(o@.take(i as int) =~= o@);
                }
                Json::Object(out)
            },
        }
    }
}

} // verus!
