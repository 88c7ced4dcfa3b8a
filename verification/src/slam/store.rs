//! The file of the pucks' map transforms.
//!
//! Several writers share it: the map daemon, the pair stream and the refinement
//! on the pucks. So it is edited in place, and what this library does not model
//! survives. Each function takes the text that was read and gives the text to be
//! written; the caller replaces the file whole.

use crate::book::Book;
use crate::ieee::Double;
use crate::json;
use crate::json::{float_bits, parsed, pretty_text, reads_back, tree, Json};
use crate::text;
use serde_json::Value;
use vstd::prelude::*;

verus! {

/// A transform to be stored. Yaw and translation are values of the document, as
/// they are to stand in it.
pub struct Solved {
    pub yaw_deg: Value,
    pub t: Value,
    /// How many matches or pairs stand behind it.
    pub inliers: i64,
}

/// How a whole number stands in a document.
pub open spec fn whole_number(n: i64) -> Json {
    if n >= 0 {
        Json::Unsigned(n as u64)
    } else {
        Json::Negative(n)
    }
}

/// A value that can take members.
pub open spec fn takes_members(j: Json) -> bool {
    j is Object || j is Null
}

/// The entry with a transform written into it.
pub open spec fn filled(
    e: Json,
    yaw_deg: Json,
    t: Json,
    inliers: i64,
    source: Seq<char>,
    unix_time: u64,
) -> Json {
    e.with("source"@, Json::Text(source)).with("yaw_deg"@, yaw_deg).with("t"@, t).with(
        "inliers"@,
        whole_number(inliers),
    ).with("unix_time"@, Json::Unsigned(unix_time))
}

/// The document with an entry for the puck at `ip`, where it has one or may get
/// one.
pub open spec fn with_entry(j: Json, ip: Seq<char>, create: bool) -> Option<Json> {
    if j.member(ip) is Some {
        Some(j)
    } else if create && j is Object {
        Some(j.with(ip, Json::Null.with("role"@, Json::Text("ankle"@))))
    } else {
        None
    }
}

/// The document with a transform written into the entry of the puck at `ip`, if
/// it can be.
pub open spec fn written(
    j: Json,
    ip: Seq<char>,
    yaw_deg: Json,
    t: Json,
    inliers: i64,
    create: bool,
    source: Seq<char>,
    unix_time: u64,
) -> Option<Json> {
    match with_entry(j, ip, create) {
        Some(d) => match d.member(ip) {
            Some(e) => if takes_members(e) {
                Some(d.with(ip, filled(e, yaw_deg, t, inliers, source, unix_time)))
            } else {
                None
            },
            None => None,
        },
        None => None,
    }
}

/// How a document is shown: nothing where it cannot be.
pub open spec fn shown(j: Json) -> Seq<char> {
    match pretty_text(j) {
        Ok(s) => s,
        Err(_) => Seq::empty(),
    }
}

/// The text of a document, or an empty object where there is none.
pub open spec fn raw_text(raw: Option<&str>) -> Seq<char> {
    match raw {
        Some(s) => s@,
        None => "{}"@,
    }
}

/// What writing a transform makes of a text.
pub open spec fn text_written(
    raw: Seq<char>,
    ip: Seq<char>,
    yaw_deg: Json,
    t: Json,
    inliers: i64,
    create: bool,
    source: Seq<char>,
    unix_time: u64,
) -> Option<Json> {
    match parsed(raw) {
        Ok(j) => written(j, ip, yaw_deg, t, inliers, create, source, unix_time),
        Err(_) => None,
    }
}

fn show(v: &Value) -> (r: String)
    ensures
        r@ == shown(tree(*v)),
        reads_back(tree(*v)) && pretty_text(tree(*v)) is Ok ==> (parsed(r@) is Ok && parsed(
            r@,
        )->Ok_0 == tree(*v)),
{
    match json::pretty(v) {
        Ok(s) => s,
        Err(_) => {
            let s = String::new();
            proof {
                assert(s@ =~= Seq::<char>::empty());
            }
            s
        },
    }
}

/// Write a transform into a document: whether it was written. An entry is
/// created only where `create` says so.
pub fn write_entry(
    v: &mut Value,
    ip: &str,
    solved: Solved,
    create: bool,
    source: &str,
    unix_time: u64,
) -> (r: bool)
    ensures
        match written(
            tree(*old(v)),
            ip@,
            tree(solved.yaw_deg),
            tree(solved.t),
            solved.inliers,
            create,
            source@,
            unix_time,
        ) {
            Some(j) => r && tree(*final(v)) == j,
            None => !r && tree(*final(v)) == tree(*old(v)),
        },
{
    let ghost before = tree(*v);
    let absent = json::get(v, ip).is_none();
    if absent {
        if !create || json::members(v).is_none() {
            return false;
        }
        let mut fresh = json::null();
        json::set(&mut fresh, "role", json::of_text("ankle"));
        json::set(v, ip, fresh);
        proof {
            json::set_member_is_read(before, ip@, tree(fresh), ip@);
        }
    }
    let fits = match json::get(v, ip) {
        Some(e) => json::members(e).is_some() || json::is_null(e),
        None => false,
    };
    if !fits {
        return false;
    }
    match json::get_mut(v, ip) {
        Some(entry) => {
            json::set(entry, "source", json::of_text(source));
            json::set(entry, "yaw_deg", solved.yaw_deg);
            json::set(entry, "t", solved.t);
            json::set(entry, "inliers", json::of_i64(solved.inliers));
            json::set(entry, "unix_time", json::of_u64(unix_time));
            true
        },
        None => false,
    }
}

/// Write a transform into the text of a document: the new text, or nothing
/// where the text is not a document, where it has no entry for the puck and
/// none may be created, or where the entry cannot take members.
pub fn apply_transform_write(
    raw: Option<&str>,
    ip: &str,
    solved: Solved,
    create: bool,
    source: &str,
    unix_time: u64,
) -> (r: Option<String>)
    ensures
        match text_written(
            raw_text(raw),
            ip@,
            tree(solved.yaw_deg),
            tree(solved.t),
            solved.inliers,
            create,
            source@,
            unix_time,
        ) {
            Some(j) => (r matches Some(s) && s@ == shown(j) && (reads_back(j) && pretty_text(
                j,
            ) is Ok ==> (parsed(s@) is Ok && parsed(s@)->Ok_0 == j))),
            None => r is None,
        },
{
    let text = match raw {
        Some(s) => s,
        None => "{}",
    };
    let mut v = match json::parse(text) {
        Ok(v) => v,
        Err(_) => {
            return None;
        },
    };
    if write_entry(&mut v, ip, solved, create, source, unix_time) {
        Some(show(&v))
    } else {
        None
    }
}

/// Fold a solve made on a puck back into the store. It only refines: where the
/// puck has no entry nothing is written.
pub fn apply_feedback(raw: Option<&str>, ip: &str, solved: Solved, unix_time: u64) -> (r: Option<
    String,
>)
    ensures
        match text_written(
            raw_text(raw),
            ip@,
            tree(solved.yaw_deg),
            tree(solved.t),
            solved.inliers,
            false,
            "on-device"@,
            unix_time,
        ) {
            Some(j) => r matches Some(s) && s@ == shown(j),
            None => r is None,
        },
{
    apply_transform_write(raw, ip, solved, false, "on-device", unix_time)
}

/// The text of a document with the entry of the puck at `ip` marked as mapping
/// from the LOCAL frame. A text without such an entry stays as it is.
pub open spec fn tagged(raw: Seq<char>, ip: Seq<char>) -> Seq<char> {
    match parsed(raw) {
        Ok(j) => match j.member(ip) {
            Some(e) => if takes_members(e) {
                shown(j.with(ip, e.with("frame"@, Json::Text("local"@))))
            } else {
                raw
            },
            None => raw,
        },
        Err(_) => raw,
    }
}

fn tag_local(raw: String, ip: &str) -> (r: String)
    ensures
        r@ == tagged(raw@, ip@),
{
    let mut v = match json::parse(raw.as_str()) {
        Ok(v) => v,
        Err(_) => {
            return raw;
        },
    };
    let fits = match json::get(&v, ip) {
        Some(e) => json::members(e).is_some() || json::is_null(e),
        None => false,
    };
    if !fits {
        return raw;
    }
    let ghost before = tree(v);
    if let Some(entry) = json::get_mut(&mut v, ip) {
        json::set(entry, "frame", json::of_text("local"));
    }
    show(&v)
}

/// Store what the pair stream solved. It may create the entry, and it marks it as
/// mapping from the LOCAL frame: the pair stream solves against the stream
/// itself, so the bridge must not be composed on top.
pub fn apply_paircal(raw: Option<&str>, ip: &str, solved: Solved, unix_time: u64) -> (r: Option<
    String,
>)
    ensures
        match text_written(
            raw_text(raw),
            ip@,
            tree(solved.yaw_deg),
            tree(solved.t),
            solved.inliers,
            true,
            "paircal"@,
            unix_time,
        ) {
            Some(j) => r matches Some(s) && s@ == tagged(shown(j), ip@),
            None => r is None,
        },
{
    match apply_transform_write(raw, ip, solved, true, "paircal", unix_time) {
        Some(s) => Some(tag_local(s, ip)),
        None => None,
    }
}

/// Drop a puck's stored transform: it describes a frame that no longer exists,
/// so every pose built from it is wrong. Nothing where there is none to drop.
pub fn invalidate_transform(raw: Option<&str>, ip: &str) -> (r: Option<String>)
    ensures
        match raw {
            Some(s) => match parsed(s@) {
                Ok(j) => if j.member(ip@) is Some {
                    r matches Some(t) && t@ == shown(j.without(ip@)) && (reads_back(j.without(ip@))
                        && pretty_text(j.without(ip@)) is Ok ==> (parsed(t@) is Ok && parsed(
                        t@,
                    )->Ok_0 == j.without(ip@)))
                } else {
                    r is None
                },
                Err(_) => r is None,
            },
            None => r is None,
        },
{
    let text = match raw {
        Some(s) => s,
        None => {
            return None;
        },
    };
    let mut v = match json::parse(text) {
        Ok(v) => v,
        Err(_) => {
            return None;
        },
    };
    if json::members(&v).is_none() {
        return None;
    }
    if !json::remove(&mut v, ip) {
        return None;
    }
    Some(show(&v))
}

/// A transform as it stands in the store, by its yaw in degrees and its
/// translation.
#[derive(Debug, Clone, Copy, PartialEq, Eq)]
pub struct Anchor {
    pub yaw_deg: Double,
    pub t: [Double; 3],
}

/// A number of a document, zero where it is none.
pub open spec fn number_or_zero(j: Json) -> Double {
    match float_bits(j) {
        Some(b) => Double { bits: b },
        None => Double { bits: 0 },
    }
}

/// The transform in an entry: a yaw that is a number, and a translation that is a
/// list of three.
pub open spec fn anchor_in(e: Json) -> Option<Anchor> {
    match (e.member("yaw_deg"@), e.member("t"@)) {
        (Some(y), Some(t)) => match (float_bits(y), t.as_list()) {
            (Some(bits), Some(l)) => if l.len() == 3 {
                Some(
                    Anchor {
                        yaw_deg: Double { bits },
                        t: [number_or_zero(l[0]), number_or_zero(l[1]), number_or_zero(l[2])],
                    },
                )
            } else {
                None
            },
            _ => None,
        },
        _ => None,
    }
}

/// Whether an entry was refined on the puck.
pub open spec fn on_device(e: Json) -> bool {
    match e.member("source"@) {
        Some(s) => s.as_text() == Some("on-device"@),
        None => false,
    }
}

fn number(v: &Value) -> (r: Double)
    ensures
        r == number_or_zero(tree(*v)),
{
    match json::as_number(v) {
        Some(bits) => Double { bits },
        None => Double { bits: 0 },
    }
}

/// The transform in an entry.
pub fn anchor(e: &Value) -> (r: Option<Anchor>)
    ensures
        r == anchor_in(tree(*e)),
{
    let bits: u64 = match json::get(e, "yaw_deg") {
        Some(y) => match json::as_number(y) {
            Some(b) => b,
            None => {
                return None;
            },
        },
        None => {
            return None;
        },
    };
    let l = match json::get(e, "t") {
        Some(t) => match json::items(t) {
            Some(l) => l,
            None => {
                return None;
            },
        },
        None => {
            return None;
        },
    };
    if l.len() != 3 {
        return None;
    }
    proof {
        let j = tree(*e).member("t"@)->0.as_list()->0;
        assert(j[0] == tree(l@[0]));
        assert(j[1] == tree(l@[1]));
        assert(j[2] == tree(l@[2]));
    }
    let a = Anchor {
        yaw_deg: Double { bits },
        t: [number(&l[0]), number(&l[1]), number(&l[2])],
    };
    proof {
        assert(a.t =~= anchor_in(tree(*e))->0.t);
    }
    Some(a)
}

fn refined(e: &Value) -> (r: bool)
    ensures
        r == on_device(tree(*e)),
{
    match json::get(e, "source") {
        Some(s) => match json::as_str(s) {
            Some(x) => text::same(x, "on-device"),
            None => false,
        },
        None => false,
    }
}

/// The stored transform of the puck at `ip`, and whether it was refined on the
/// puck: a solve by the host is an anchor, the puck's own polish is none.
pub fn stored_entry(raw: Option<&str>, ip: &str) -> (r: Option<(Anchor, bool)>)
    ensures
        r == (match raw {
            Some(s) => match parsed(s@) {
                Ok(j) => match j.member(ip@) {
                    Some(e) => match anchor_in(e) {
                        Some(a) => Some((a, on_device(e))),
                        None => None,
                    },
                    None => None,
                },
                Err(_) => None,
            },
            None => None,
        }),
{
    let text = match raw {
        Some(s) => s,
        None => {
            return None;
        },
    };
    let v = match json::parse(text) {
        Ok(v) => v,
        Err(_) => {
            return None;
        },
    };
    match json::get(&v, ip) {
        Some(e) => match anchor(e) {
            Some(a) => Some((a, refined(e))),
            None => None,
        },
        None => None,
    }
}

/// The anchors among the first `n` entries of a store: every transform that was
/// not refined on its puck.
pub open spec fn anchors_in(m: Seq<(Seq<char>, Json)>, n: nat) -> Map<Seq<char>, Anchor>
    decreases n,
{
    if n == 0 {
        Map::empty()
    } else {
        let before = anchors_in(m, (n - 1) as nat);
        let (ip, e) = m[n - 1];
        match anchor_in(e) {
            Some(a) => if on_device(e) {
                before
            } else {
                before.insert(ip, a)
            },
            None => before,
        }
    }
}

/// The anchors of a store.
pub open spec fn stored_anchors(raw: Option<&str>) -> Map<Seq<char>, Anchor> {
    match raw {
        Some(s) => match parsed(s@) {
            Ok(Json::Object(m)) => anchors_in(m, m.len()),
            _ => Map::empty(),
        },
        None => Map::empty(),
    }
}

/// The anchors of a store: the host's solutions, which refinement on the pucks
/// may polish but never walk away from.
pub fn load_anchors(raw: Option<&str>) -> (r: Book<Anchor>)
    ensures
        r.wf(),
        r@ == stored_anchors(raw),
{
    let mut out: Book<Anchor> = Book::new();
    let text = match raw {
        Some(s) => s,
        None => {
            return out;
        },
    };
    let v = match json::parse(text) {
        Ok(v) => v,
        Err(_) => {
            return out;
        },
    };
    if let Some(m) = json::members(&v) {
        let ghost all = tree(v)->Object_0;
        let mut i: usize = 0;
        while i < m.len()
            invariant
                i <= m.len(),
                out.wf(),
                all == m@.map_values(|x: (&String, &Value)| (x.0@, tree(*x.1))),
                out@ == anchors_in(all, i as nat),
            decreases m.len() - i,
        {
            let (ip, e) = m[i];
            proof {
                assert(all[i as int] == (ip@, tree(*e)));
            }
            if !refined(e) {
                if let Some(a) = anchor(e) {
                    out.insert(ip.as_str(), a);
                }
            }
            i = i + 1;
        }
    }
    out
}

/// Dropping a puck's transform leaves every other puck's as it was.
pub proof fn only_the_named_puck_is_dropped(j: Json, ip: Seq<char>, other: Seq<char>)
    requires
        j is Object,
        j.regular(),
    ensures
        j.without(ip).member(ip) is None,
        other != ip ==> j.without(ip).member(other) == j.member(other),
{
    json::removed_member_is_gone(j, ip, other);
}

/// Writing a transform changes no other puck's entry, and in the puck's own it
/// changes nothing but what it writes.
pub proof fn what_is_not_modelled_survives(
    j: Json,
    ip: Seq<char>,
    yaw_deg: Json,
    t: Json,
    inliers: i64,
    create: bool,
    source: Seq<char>,
    unix_time: u64,
    other: Seq<char>,
    key: Seq<char>,
)
    requires
        written(j, ip, yaw_deg, t, inliers, create, source, unix_time) is Some,
    ensures
        other != ip ==> written(
            j,
            ip,
            yaw_deg,
            t,
            inliers,
            create,
            source,
            unix_time,
        )->0.member(other) == j.member(other),
        j.member(ip) is Some && key != "source"@ && key != "yaw_deg"@ && key != "t"@ && key
            != "inliers"@ && key != "unix_time"@ ==> written(
            j,
            ip,
            yaw_deg,
            t,
            inliers,
            create,
            source,
            unix_time,
        )->0.member(ip)->0.member(key) == j.member(ip)->0.member(key),
{
    let d = with_entry(j, ip, create)->0;
    let e = d.member(ip)->0;
    let a = e.with("source"@, Json::Text(source));
    let b = a.with("yaw_deg"@, yaw_deg);
    let c = b.with("t"@, t);
    let f = c.with("inliers"@, whole_number(inliers));
    let g = f.with("unix_time"@, Json::Unsigned(unix_time));
    json::set_member_is_read(e, "source"@, Json::Text(source), key);
    json::set_member_is_read(a, "yaw_deg"@, yaw_deg, key);
    json::set_member_is_read(b, "t"@, t, key);
    json::set_member_is_read(c, "inliers"@, whole_number(inliers), key);
    json::set_member_is_read(f, "unix_time"@, Json::Unsigned(unix_time), key);
    json::set_member_is_read(d, ip, g, other);
    json::set_member_is_read(d, ip, g, ip);
    if j.member(ip) is None {
        json::set_member_is_read(j, ip, Json::Null.with("role"@, Json::Text("ankle"@)), other);
    }
}

/// What was written is what stands in the entry.
pub proof fn the_written_transform_stands(
    j: Json,
    ip: Seq<char>,
    yaw_deg: Json,
    t: Json,
    inliers: i64,
    create: bool,
    source: Seq<char>,
    unix_time: u64,
)
    requires
        written(j, ip, yaw_deg, t, inliers, create, source, unix_time) is Some,
    ensures
        ({
            let e = written(j, ip, yaw_deg, t, inliers, create, source, unix_time)->0.member(ip)->0;
            &&& e.member("source"@) == Some(Json::Text(source))
            &&& e.member("yaw_deg"@) == Some(yaw_deg)
            &&& e.member("t"@) == Some(t)
            &&& e.member("inliers"@) == Some(whole_number(inliers))
            &&& e.member("unix_time"@) == Some(Json::Unsigned(unix_time))
        }),
{
    reveal_strlit("source");
    reveal_strlit("yaw_deg");
    reveal_strlit("t");
    reveal_strlit("inliers");
    reveal_strlit("unix_time");
    let d = with_entry(j, ip, create)->0;
    let e = d.member(ip)->0;
    let a = e.with("source"@, Json::Text(source));
    let b = a.with("yaw_deg"@, yaw_deg);
    let c = b.with("t"@, t);
    let f = c.with("inliers"@, whole_number(inliers));
    let g = f.with("unix_time"@, Json::Unsigned(unix_time));
    assert("source"@.len() == 6 && "yaw_deg"@.len() == 7 && "t"@.len() == 1 && "inliers"@.len()
        == 7 && "unix_time"@.len() == 9);
    assert("yaw_deg"@[0] != "inliers"@[0]);
    json::set_member_is_read(e, "source"@, Json::Text(source), "source"@);
    json::set_member_is_read(a, "yaw_deg"@, yaw_deg, "source"@);
    json::set_member_is_read(b, "t"@, t, "source"@);
    json::set_member_is_read(b, "t"@, t, "yaw_deg"@);
    json::set_member_is_read(c, "inliers"@, whole_number(inliers), "source"@);
    json::set_member_is_read(c, "inliers"@, whole_number(inliers), "yaw_deg"@);
    json::set_member_is_read(c, "inliers"@, whole_number(inliers), "t"@);
    json::set_member_is_read(f, "unix_time"@, Json::Unsigned(unix_time), "source"@);
    json::set_member_is_read(f, "unix_time"@, Json::Unsigned(unix_time), "yaw_deg"@);
    json::set_member_is_read(f, "unix_time"@, Json::Unsigned(unix_time), "t"@);
    json::set_member_is_read(f, "unix_time"@, Json::Unsigned(unix_time), "inliers"@);
    json::set_member_is_read(d, ip, g, ip);
}

/// A transform is written exactly where there is an entry for the puck that can take
/// it, or where there is none and one may be made; a new entry says that the puck is
/// an ankle.
pub proof fn a_transform_is_written_where_it_can_be(
    j: Json,
    ip: Seq<char>,
    yaw_deg: Json,
    t: Json,
    inliers: i64,
    create: bool,
    source: Seq<char>,
    unix_time: u64,
)
    ensures
        ({
            let w = written(j, ip, yaw_deg, t, inliers, create, source, unix_time);
            &&& j.member(ip) matches Some(e) ==> (w is Some <==> e is Object || e is Null)
            &&& j.member(ip) is None ==> (w is Some <==> create && j is Object)
            &&& j.member(ip) is None && w is Some ==> (w->0.member(ip) is Some && w->0.member(
                ip,
            )->0.member("role"@) == Some(Json::Text("ankle"@)))
        }),
{
    reveal_strlit("source");
    reveal_strlit("yaw_deg");
    reveal_strlit("t");
    reveal_strlit("inliers");
    reveal_strlit("unix_time");
    reveal_strlit("role");
    let fresh = Json::Null.with("role"@, Json::Text("ankle"@));
    json::set_member_is_read(Json::Null, "role"@, Json::Text("ankle"@), "role"@);
    if j is Object {
        json::set_member_is_read(j, ip, fresh, ip);
    }
    if let Some(d) = with_entry(j, ip, create) {
        if let Some(e) = d.member(ip) {
            if takes_members(e) {
                let a = e.with("source"@, Json::Text(source));
                let b = a.with("yaw_deg"@, yaw_deg);
                let c = b.with("t"@, t);
                let f = c.with("inliers"@, whole_number(inliers));
                let g = f.with("unix_time"@, Json::Unsigned(unix_time));
                assert("role"@[0] != "source"@[0]);
                assert("role"@[0] != "yaw_deg"@[0]);
                assert("role"@[0] != "t"@[0]);
                assert("role"@[0] != "inliers"@[0]);
                assert("role"@[0] != "unix_time"@[0]);
                json::set_member_is_read(e, "source"@, Json::Text(source), "role"@);
                json::set_member_is_read(a, "yaw_deg"@, yaw_deg, "role"@);
                json::set_member_is_read(b, "t"@, t, "role"@);
                json::set_member_is_read(c, "inliers"@, whole_number(inliers), "role"@);
                json::set_member_is_read(f, "unix_time"@, Json::Unsigned(unix_time), "role"@);
                json::set_member_is_read(d, ip, g, ip);
            }
        }
    }
}

/// What the host solved is the anchor: an entry that holds a transform and was not
/// refined on the puck, where each puck has one entry. No other puck has one.
pub proof fn the_hosts_solutions_are_the_anchors(
    m: Seq<(Seq<char>, Json)>,
    n: nat,
    i: int,
)
    requires
        0 <= i < n <= m.len(),
        forall|a: int, b: int| 0 <= a < b < m.len() ==> (#[trigger] m[a]).0 != (#[trigger] m[b]).0,
    ensures
        anchors_in(m, n).contains_key(m[i].0) <==> anchor_in(m[i].1) is Some && !on_device(m[i].1),
        anchors_in(m, n).contains_key(m[i].0) ==> anchor_in(m[i].1) == Some(
            anchors_in(m, n)[m[i].0],
        ),
    decreases n,
{
    if i < n - 1 {
        the_hosts_solutions_are_the_anchors(m, (n - 1) as nat, i);
        assert(m[i].0 != m[n - 1].0);
    } else {
        lemma_not_yet(m, (n - 1) as nat, i);
    }
}

proof fn lemma_not_yet(m: Seq<(Seq<char>, Json)>, n: nat, i: int)
    requires
        n <= i < m.len(),
        forall|a: int, b: int| 0 <= a < b < m.len() ==> (#[trigger] m[a]).0 != (#[trigger] m[b]).0,
    ensures
        !anchors_in(m, n).contains_key(m[i].0),
    decreases n,
{
    if n > 0 {
        lemma_not_yet(m, (n - 1) as nat, i);
        assert(m[n - 1].0 != m[i].0);
    }
}

/// An entry holds a transform where its yaw is a number and its translation a list of
/// three: the transform is those, with zero for what is no number.
pub proof fn a_transform_is_read_as_it_stands(e: Json)
    ensures
        ({
            let yaw = e.member("yaw_deg"@);
            let t = e.member("t"@);
            let whole = yaw is Some && float_bits(yaw->0) is Some && t is Some && (
            t->0.as_list() matches Some(l) && l.len() == 3);
            &&& anchor_in(e) is Some <==> whole
            &&& anchor_in(e) matches Some(a) ==> {
                let l = t->0.as_list()->0;
                &&& Some(a.yaw_deg.bits) == float_bits(yaw->0)
                &&& a.t[0] == number_or_zero(l[0])
                &&& a.t[1] == number_or_zero(l[1])
                &&& a.t[2] == number_or_zero(l[2])
            }
        }),
{
}

} // verus!
