//! JSON documents that are edited in place.
//!
//! The site configuration and the transform store are hand-maintained files:
//! they are edited as `serde_json` values, so that what this library does not
//! model survives. A value's contents are named by `tree`; every call into
//! `serde_json` stands behind one function of this module.

use serde_json::Value;
use vstd::prelude::*;

verus! {

#[verifier::external_type_specification]
#[verifier::external_body]
pub struct ExValue(serde_json::Value);

/// What a JSON value holds. Members stand in the order of the document.
pub ghost enum Json {
    Null,
    Bool(bool),
    /// A whole number that is not negative.
    Unsigned(u64),
    /// A negative whole number.
    Negative(i64),
    /// Any other number, by its `binary64` bit pattern.
    Float(u64),
    Text(Seq<char>),
    List(Seq<Json>),
    Object(Seq<(Seq<char>, Json)>),
}

/// What a value holds.
pub uninterp spec fn tree(v: Value) -> Json;

/// What `serde_json::from_str` makes of a text: a value, or the text of its
/// error.
pub uninterp spec fn parsed(text: Seq<char>) -> Result<Json, Seq<char>>;

/// What `serde_json::from_slice` makes of a run of bytes, where it accepts them.
pub uninterp spec fn parsed_bytes(bytes: Seq<u8>) -> Option<Json>;

/// How `serde_json::to_string_pretty` writes a value, or the text of its error.
pub uninterp spec fn pretty_text(j: Json) -> Result<Seq<char>, Seq<char>>;

/// How `serde_json` writes a value on one line.
pub uninterp spec fn compact_text(j: Json) -> Seq<char>;

/// The `binary64` bit pattern nearest to a number, where the value is one.
pub uninterp spec fn float_bits(j: Json) -> Option<u64>;

/// What the values of a list hold.
pub open spec fn trees(s: Seq<Value>) -> Seq<Json> {
    s.map_values(|v: Value| tree(v))
}

/// The position of the first member of that name, from `from` on.
pub open spec fn member_at(m: Seq<(Seq<char>, Json)>, key: Seq<char>, from: nat) -> Option<nat>
    decreases m.len() - from,
{
    if from >= m.len() {
        None
    } else if m[from as int].0 == key {
        Some(from)
    } else {
        member_at(m, key, from + 1)
    }
}

impl Json {
    /// The member of that name, where the value is an object that has it.
    pub open spec fn member(self, key: Seq<char>) -> Option<Json> {
        match self {
            Json::Object(m) => match member_at(m, key, 0) {
                Some(i) => Some(m[i as int].1),
                None => None,
            },
            _ => None,
        }
    }

    /// The same object with that member set: in its place where it was there,
    /// at the end where it was not. Null counts as an object without members.
    pub open spec fn with(self, key: Seq<char>, value: Json) -> Json {
        match self {
            Json::Object(m) => match member_at(m, key, 0) {
                Some(i) => Json::Object(m.update(i as int, (key, value))),
                None => Json::Object(m.push((key, value))),
            },
            _ => Json::Object(seq![(key, value)]),
        }
    }

    /// The same object without that member. The last member takes its place.
    pub open spec fn without(self, key: Seq<char>) -> Json {
        match self {
            Json::Object(m) => match member_at(m, key, 0) {
                Some(i) => if i + 1 == m.len() {
                    Json::Object(m.drop_last())
                } else {
                    Json::Object(m.update(i as int, m.last()).drop_last())
                },
                None => self,
            },
            _ => self,
        }
    }

    /// How many lists and objects stand inside one another.
    pub open spec fn depth(self) -> nat
        decreases self,
    {
        match self {
            Json::List(l) => 1 + list_depth(l),
            Json::Object(m) => 1 + members_depth(m),
            _ => 0,
        }
    }

    /// No number in the value is a fraction or out of the whole numbers' range.
    pub open spec fn whole(self) -> bool
        decreases self,
    {
        match self {
            Json::Float(_) => false,
            Json::List(l) => list_whole(l),
            Json::Object(m) => members_whole(m),
            _ => true,
        }
    }

    /// No object in the value has two members of one name, and a negative
    /// number is negative: what every `serde_json` value satisfies.
    pub open spec fn regular(self) -> bool
        decreases self,
    {
        match self {
            Json::Negative(n) => n < 0,
            Json::List(l) => list_regular(l),
            Json::Object(m) => members_regular(m) && forall|i: int, k: int|
                0 <= i < k < m.len() ==> #[trigger] m[i].0 != #[trigger] m[k].0,
            _ => true,
        }
    }

    /// The characters of a text.
    pub open spec fn as_text(self) -> Option<Seq<char>> {
        match self {
            Json::Text(s) => Some(s),
            _ => None,
        }
    }

    /// The whole number that is not negative.
    pub open spec fn as_unsigned(self) -> Option<u64> {
        match self {
            Json::Unsigned(n) => Some(n),
            _ => None,
        }
    }

    /// The whole number, where 64 bits with a sign hold it.
    pub open spec fn as_signed(self) -> Option<i64> {
        match self {
            Json::Unsigned(n) => if n <= i64::MAX {
                Some(n as i64)
            } else {
                None
            },
            Json::Negative(n) => Some(n),
            _ => None,
        }
    }

    /// The truth value.
    pub open spec fn as_truth(self) -> Option<bool> {
        match self {
            Json::Bool(b) => Some(b),
            _ => None,
        }
    }

    /// The elements of a list.
    pub open spec fn as_list(self) -> Option<Seq<Json>> {
        match self {
            Json::List(l) => Some(l),
            _ => None,
        }
    }
}

pub open spec fn list_depth(l: Seq<Json>) -> nat
    decreases l,
{
    if l.len() == 0 {
        0
    } else {
        let (a, b) = (list_depth(l.drop_last()), l.last().depth());
        if a >= b {
            a
        } else {
            b
        }
    }
}

pub open spec fn members_depth(m: Seq<(Seq<char>, Json)>) -> nat
    decreases m,
{
    if m.len() == 0 {
        0
    } else {
        let (a, b) = (members_depth(m.drop_last()), m.last().1.depth());
        if a >= b {
            a
        } else {
            b
        }
    }
}

pub open spec fn list_whole(l: Seq<Json>) -> bool
    decreases l,
{
    l.len() == 0 || (list_whole(l.drop_last()) && l.last().whole())
}

pub open spec fn members_whole(m: Seq<(Seq<char>, Json)>) -> bool
    decreases m,
{
    m.len() == 0 || (members_whole(m.drop_last()) && m.last().1.whole())
}

pub open spec fn list_regular(l: Seq<Json>) -> bool
    decreases l,
{
    l.len() == 0 || (list_regular(l.drop_last()) && l.last().regular())
}

pub open spec fn members_regular(m: Seq<(Seq<char>, Json)>) -> bool
    decreases m,
{
    m.len() == 0 || (members_regular(m.drop_last()) && m.last().1.regular())
}

/// What reads back as it was written: no fractions, and not nested beyond what
/// the reader follows.
pub open spec fn reads_back(j: Json) -> bool {
    j.whole() && j.regular() && j.depth() < 128
}

/// `serde_json::from_str` into a value: accepts a text or says why not, and
/// either way the text alone decides.
#[verifier::external_body]
pub(crate) fn parse(text: &str) -> (r: Result<Value, String>)
    ensures
        match r {
            Ok(v) => parsed(text@) == Ok::<Json, Seq<char>>(tree(v)),
            Err(e) => parsed(text@) == Err::<Json, Seq<char>>(e@),
        },
{
    serde_json::from_str(text).map_err(|e| e.to_string())
}

/// `serde_json::from_slice` into a value: the bytes alone decide.
#[verifier::external_body]
pub(crate) fn parse_bytes(bytes: &[u8]) -> (r: Option<Value>)
    ensures
        match r {
            Some(v) => parsed_bytes(bytes@) == Some(tree(v)),
            None => parsed_bytes(bytes@) is None,
        },
{
    serde_json::from_slice(bytes).ok()
}

/// `serde_json::to_string_pretty`: what the value holds decides. A text of a
/// value without fractions, nested less than 128 deep, is read back by
/// `serde_json::from_str` as the value it was written from, also with a line
/// break behind it. Of other values nothing is said: a fraction can come back
/// one bit off.
#[verifier::external_body]
pub(crate) fn pretty(v: &Value) -> (r: Result<String, String>)
    ensures
        match r {
            Ok(s) => pretty_text(tree(*v)) == Ok::<Seq<char>, Seq<char>>(s@) && (reads_back(
                tree(*v),
            ) ==> parsed(s@) == Ok::<Json, Seq<char>>(tree(*v)) && parsed(s@ + "\n"@) == Ok::<
                Json,
                Seq<char>,
            >(tree(*v))),
            Err(e) => pretty_text(tree(*v)) == Err::<Seq<char>, Seq<char>>(e@),
        },
{
    serde_json::to_string_pretty(v).map_err(|e| e.to_string())
}

/// `serde_json::Value`'s one-line text: what the value holds decides, and a
/// value without fractions is read back from it as it was.
#[verifier::external_body]
pub(crate) fn compact(v: &Value) -> (r: String)
    ensures
        r@ == compact_text(tree(*v)),
        reads_back(tree(*v)) ==> (parsed(r@) is Ok && parsed(r@)->Ok_0 == tree(*v)),
{
    v.to_string()
}

/// `serde_json::Value::get` with a member's name.
#[verifier::external_body]
pub(crate) fn get<'a>(v: &'a Value, key: &str) -> (r: Option<&'a Value>)
    ensures
        match r {
            Some(m) => tree(*v).member(key@) == Some(tree(*m)),
            None => tree(*v).member(key@) is None,
        },
{
    v.get(key)
}

/// `serde_json::Value::get_mut` with a member's name: what is written through
/// the result becomes that member, and nothing else changes.
#[verifier::external_body]
pub(crate) fn get_mut<'a>(v: &'a mut Value, key: &str) -> (r: Option<&'a mut Value>)
    ensures
        match r {
            Some(m) => tree(*old(v)).member(key@) == Some(tree(*m)) && tree(*final(v)) == tree(
                *old(v),
            ).with(key@, tree(*final(m))),
            None => tree(*old(v)).member(key@) is None && tree(*final(v)) == tree(*old(v)),
        },
{
    v.get_mut(key)
}

/// `serde_json::Value::as_array`.
#[verifier::external_body]
pub(crate) fn items(v: &Value) -> (r: Option<&Vec<Value>>)
    ensures
        match r {
            Some(a) => tree(*v).as_list() == Some(trees(a@)),
            None => tree(*v).as_list() is None,
        },
{
    v.as_array()
}

/// `serde_json::Value::as_array_mut`: the list written through the result is
/// the value's list.
#[verifier::external_body]
pub(crate) fn items_mut(v: &mut Value) -> (r: Option<&mut Vec<Value>>)
    ensures
        match r {
            Some(a) => tree(*old(v)).as_list() == Some(trees(a@)) && tree(*final(v))
                == Json::List(trees(final(a)@)),
            None => tree(*old(v)).as_list() is None && tree(*final(v)) == tree(*old(v)),
        },
{
    v.as_array_mut()
}

/// `serde_json::Map::iter` over `serde_json::Value::as_object`: the members
/// with their names, in the document's order.
#[verifier::external_body]
pub(crate) fn members(v: &Value) -> (r: Option<Vec<(&String, &Value)>>)
    ensures
        match r {
            Some(m) => tree(*v) == Json::Object(
                m@.map_values(|x: (&String, &Value)| (x.0@, tree(*x.1))),
            ),
            None => !(tree(*v) is Object),
        },
{
    v.as_object().map(|o| o.iter().collect())
}

/// `serde_json::Value`'s index assignment. It panics on a value that is neither
/// an object nor null.
#[verifier::external_body]
pub(crate) fn set(v: &mut Value, key: &str, value: Value)
    requires
        tree(*old(v)) is Object || tree(*old(v)) is Null,
    ensures
        tree(*final(v)) == tree(*old(v)).with(key@, tree(value)),
{
    v[key] = value;
}

/// `serde_json::Map::remove` on the value's object: with the order of members
/// preserved, the last member takes the place of the one removed.
#[verifier::external_body]
pub(crate) fn remove(v: &mut Value, key: &str) -> (r: bool)
    requires
        tree(*old(v)) is Object,
    ensures
        r == (tree(*old(v)).member(key@) is Some),
        tree(*final(v)) == tree(*old(v)).without(key@),
{
    v.as_object_mut().and_then(|o| o.remove(key)).is_some()
}

/// `serde_json::Value::as_str`.
#[verifier::external_body]
pub(crate) fn as_str(v: &Value) -> (r: Option<&str>)
    ensures
        match r {
            Some(s) => tree(*v).as_text() == Some(s@),
            None => tree(*v).as_text() is None,
        },
{
    v.as_str()
}

/// `serde_json::Value::as_u64`.
#[verifier::external_body]
pub(crate) fn as_u64(v: &Value) -> (r: Option<u64>)
    ensures
        r == tree(*v).as_unsigned(),
{
    v.as_u64()
}

/// `serde_json::Value::as_i64`.
#[verifier::external_body]
pub(crate) fn as_i64(v: &Value) -> (r: Option<i64>)
    ensures
        r == tree(*v).as_signed(),
{
    v.as_i64()
}

/// `serde_json::Value::as_bool`.
#[verifier::external_body]
pub(crate) fn as_bool(v: &Value) -> (r: Option<bool>)
    ensures
        r == tree(*v).as_truth(),
{
    v.as_bool()
}

/// `serde_json::Value::as_f64`, by bit pattern: a fraction is handed out as it
/// is, a whole number rounded to the nearest, and nothing else is a number.
#[verifier::external_body]
pub(crate) fn as_number(v: &Value) -> (r: Option<u64>)
    ensures
        r == float_bits(tree(*v)),
        tree(*v) matches Json::Float(b) ==> r == Some(b),
        r is Some <==> (tree(*v) is Float || tree(*v) is Unsigned || tree(*v) is Negative),
{
    v.as_f64().map(|n| n.to_bits())
}

/// `serde_json::Value::from` a text.
#[verifier::external_body]
pub(crate) fn of_text(s: &str) -> (r: Value)
    ensures
        tree(r) == Json::Text(s@),
{
    Value::from(s)
}

/// `serde_json::Value::from` a number that is not negative.
#[verifier::external_body]
pub(crate) fn of_u64(n: u64) -> (r: Value)
    ensures
        tree(r) == Json::Unsigned(n),
{
    Value::from(n)
}

/// `serde_json::Value::from` a whole number.
#[verifier::external_body]
pub(crate) fn of_i64(n: i64) -> (r: Value)
    ensures
        tree(r) == (if n >= 0 {
            Json::Unsigned(n as u64)
        } else {
            Json::Negative(n)
        }),
{
    Value::from(n)
}

/// `serde_json::Value::from` a truth value.
#[verifier::external_body]
pub(crate) fn of_bool(b: bool) -> (r: Value)
    ensures
        tree(r) == Json::Bool(b),
{
    Value::from(b)
}

/// `serde_json::Value::from` a list of values.
#[verifier::external_body]
pub(crate) fn of_list(items: Vec<Value>) -> (r: Value)
    ensures
        tree(r) == Json::List(trees(items@)),
{
    Value::from(items)
}

/// `serde_json::Value::is_null`.
#[verifier::external_body]
pub(crate) fn is_null(v: &Value) -> (r: bool)
    ensures
        r == (tree(*v) is Null),
{
    v.is_null()
}

/// `serde_json::Value`'s default, which is null.
#[verifier::external_body]
pub(crate) fn null() -> (r: Value)
    ensures
        tree(r) == Json::Null,
{
    Value::default()
}

/// A member that was set is the one read.
pub proof fn set_member_is_read(j: Json, key: Seq<char>, value: Json, other: Seq<char>)
    requires
        j is Object || j is Null,
    ensures
        j.with(key, value).member(key) == Some(value),
        other != key ==> j.with(key, value).member(other) == j.member(other),
{
    let n = j.with(key, value)->Object_0;
    lemma_member_at(n, key, 0);
    lemma_member_at(n, other, 0);
    match j {
        Json::Object(m) => {
            lemma_member_at(m, key, 0);
            lemma_member_at(m, other, 0);
            let at = match member_at(m, key, 0) {
                Some(i) => i as int,
                None => m.len() as int,
            };
            assert(n[at] == (key, value));
            assert(forall|k: int| 0 <= k < m.len() && k != at ==> #[trigger] n[k] == m[k]);
            if let Some(o) = member_at(m, other, 0) {
                assert(other != key ==> n[o as int].0 == other);
            }
        },
        _ => {
            assert(n[0] == (key, value));
        },
    }
}

/// A member that was removed is gone, and every other member is still there.
pub proof fn removed_member_is_gone(j: Json, key: Seq<char>, other: Seq<char>)
    requires
        j is Object,
        j.regular(),
    ensures
        j.without(key).member(key) is None,
        other != key ==> j.without(key).member(other) == j.member(other),
{
    let m = j->Object_0;
    lemma_member_at(m, key, 0);
    lemma_member_at(m, other, 0);
    let n = j.without(key)->Object_0;
    lemma_member_at(n, key, 0);
    lemma_member_at(n, other, 0);
    if let Some(i) = member_at(m, key, 0) {
        assert(forall|k: int|
            0 <= k < n.len() ==> #[trigger] n[k] == (if k == i {
                m.last()
            } else {
                m[k]
            }));
        if other != key {
            if let Some(o) = member_at(m, other, 0) {
                let at = if o + 1 == m.len() {
                    i as int
                } else {
                    o as int
                };
                assert(n[at].0 == other);
                let found = member_at(n, other, 0)->0;
                assert(n[found as int].0 == other);
                if found != at {
                    let back = if found == i {
                        m.len() - 1
                    } else {
                        found as int
                    };
                    assert(m[back].0 == m[o as int].0);
                    assert(back == o);
                }
            } else if let Some(f) = member_at(n, other, 0) {
                let back = if f == i {
                    m.len() - 1
                } else {
                    f as int
                };
                assert(m[back].0 == other);
            }
        } else if let Some(f) = member_at(n, key, 0) {
            let back = if f == i {
                m.len() - 1
            } else {
                f as int
            };
            assert(m[back].0 == m[i as int].0);
        }
    }
}

pub proof fn lemma_member_at(m: Seq<(Seq<char>, Json)>, key: Seq<char>, from: nat)
    ensures
        match member_at(m, key, from) {
            Some(i) => from <= i < m.len() && m[i as int].0 == key && forall|k: int|
                from <= k < i ==> (#[trigger] m[k]).0 != key,
            None => forall|k: int| from <= k < m.len() ==> (#[trigger] m[k]).0 != key,
        },
    decreases m.len() - from,
{
    if from < m.len() && m[from as int].0 != key {
        lemma_member_at(m, key, from + 1);
    }
}

/// A member of a value that reads back does so itself, one level less deep.
pub proof fn lemma_member_fits(j: Json, key: Seq<char>)
    requires
        j.whole(),
        j.regular(),
        j.member(key) is Some,
    ensures
        j.member(key)->0.whole(),
        j.member(key)->0.regular(),
        j.member(key)->0.depth() < j.depth(),
{
    let m = j->Object_0;
    lemma_member_at(m, key, 0);
    lemma_one_member_fits(m, member_at(m, key, 0)->0 as int);
}

proof fn lemma_one_member_fits(m: Seq<(Seq<char>, Json)>, i: int)
    requires
        members_whole(m),
        members_regular(m),
        0 <= i < m.len(),
    ensures
        m[i].1.whole(),
        m[i].1.regular(),
        m[i].1.depth() <= members_depth(m),
    decreases m.len(),
{
    if i < m.len() - 1 {
        lemma_one_member_fits(m.drop_last(), i);
    }
}

/// An element of a list that reads back does so itself.
pub proof fn lemma_item_fits(l: Seq<Json>, i: int)
    requires
        list_whole(l),
        list_regular(l),
        0 <= i < l.len(),
    ensures
        l[i].whole(),
        l[i].regular(),
        l[i].depth() <= list_depth(l),
    decreases l.len(),
{
    if i < l.len() - 1 {
        lemma_item_fits(l.drop_last(), i);
    }
}

/// Replacing an element by one that is no deeper than the list was.
pub proof fn lemma_update_fits(l: Seq<Json>, i: int, v: Json)
    requires
        list_whole(l),
        list_regular(l),
        0 <= i < l.len(),
        v.whole(),
        v.regular(),
        v.depth() <= list_depth(l),
    ensures
        list_whole(l.update(i, v)),
        list_regular(l.update(i, v)),
        list_depth(l.update(i, v)) <= list_depth(l),
{
    lemma_update_bound(l, i, v, list_depth(l));
}

proof fn lemma_update_bound(l: Seq<Json>, i: int, v: Json, bound: nat)
    requires
        list_whole(l),
        list_regular(l),
        0 <= i < l.len(),
        v.whole(),
        v.regular(),
        v.depth() <= bound,
        list_depth(l) <= bound,
    ensures
        list_whole(l.update(i, v)),
        list_regular(l.update(i, v)),
        list_depth(l.update(i, v)) <= bound,
    decreases l.len(),
{
    let n = l.update(i, v);
    if i < l.len() - 1 {
        lemma_update_bound(l.drop_last(), i, v, bound);
        assert(n.drop_last() =~= l.drop_last().update(i, v));
    } else {
        assert(n.drop_last() =~= l.drop_last());
    }
}

/// Setting a member to a value no deeper than the object's members were.
pub proof fn lemma_with_fits(j: Json, key: Seq<char>, v: Json)
    requires
        j is Object,
        j.whole(),
        j.regular(),
        v.whole(),
        v.regular(),
        v.depth() < j.depth(),
    ensures
        j.with(key, v).whole(),
        j.with(key, v).regular(),
        j.with(key, v).depth() <= j.depth(),
        j.with(key, v) is Object,
{
    let m = j->Object_0;
    lemma_member_at(m, key, 0);
    let bound = members_depth(m);
    match member_at(m, key, 0) {
        Some(i) => {
            lemma_member_update_bound(m, i as int, key, v, bound);
            let n = m.update(i as int, (key, v));
            assert forall|a: int, b: int| 0 <= a < b < n.len() implies #[trigger] n[a].0
                != #[trigger] n[b].0 by {
                assert(n[a].0 == m[a].0 && n[b].0 == m[b].0);
            }
        },
        None => {
            let n = m.push((key, v));
            assert(n.drop_last() =~= m);
            assert forall|a: int, b: int| 0 <= a < b < n.len() implies #[trigger] n[a].0
                != #[trigger] n[b].0 by {
                assert(n[a] == m[a]);
                if b < m.len() {
                    assert(n[b] == m[b]);
                }
            }
        },
    }
}

proof fn lemma_member_update_bound(
    m: Seq<(Seq<char>, Json)>,
    i: int,
    key: Seq<char>,
    v: Json,
    bound: nat,
)
    requires
        members_whole(m),
        members_regular(m),
        0 <= i < m.len(),
        v.whole(),
        v.regular(),
        v.depth() <= bound,
        members_depth(m) <= bound,
    ensures
        members_whole(m.update(i, (key, v))),
        members_regular(m.update(i, (key, v))),
        members_depth(m.update(i, (key, v))) <= bound,
    decreases m.len(),
{
    let n = m.update(i, (key, v));
    if i < m.len() - 1 {
        lemma_member_update_bound(m.drop_last(), i, key, v, bound);
        assert(n.drop_last() =~= m.drop_last().update(i, (key, v)));
    } else {
        assert(n.drop_last() =~= m.drop_last());
    }
}

} // verus!
