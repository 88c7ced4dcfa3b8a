//! A small map from texts to values, kept in the order of its keys.
//!
//! Pucks are known by their addresses, so most of what the service remembers is
//! filed under a text. A [`Book`] holds each key once, and hands its entries out
//! in ascending order.

use crate::text;
use vstd::prelude::*;

verus! {

#[derive(Debug)]
pub struct Book<T> {
    pub entries: Vec<(String, T)>,
}

/// The entries as a map.
pub open spec fn filed<T>(s: Seq<(String, T)>) -> Map<Seq<char>, T>
    decreases s.len(),
{
    if s.len() == 0 {
        Map::empty()
    } else {
        filed(s.drop_last()).insert(s.last().0@, s.last().1)
    }
}

/// Every key comes after the ones before it.
pub open spec fn ascending<T>(s: Seq<(String, T)>) -> bool {
    forall|i: int, k: int|
        0 <= i < k < s.len() ==> text::comes_after((#[trigger] s[k]).0@, (#[trigger] s[i]).0@)
}

impl<T> View for Book<T> {
    type V = Map<Seq<char>, T>;

    open spec fn view(&self) -> Map<Seq<char>, T> {
        filed(self.entries@)
    }
}

/// A key is filed exactly where an entry has it, with that entry's value.
pub proof fn lemma_filed<T>(s: Seq<(String, T)>)
    requires
        ascending(s),
    ensures
        forall|i: int|
            0 <= i < s.len() ==> filed(s).contains_key((#[trigger] s[i]).0@) && filed(s)[s[i].0@]
                == s[i].1,
        forall|key: Seq<char>| #[trigger]
            filed(s).contains_key(key) ==> exists|i: int|
                0 <= i < s.len() && (#[trigger] s[i]).0@ == key,
    decreases s.len(),
{
    if s.len() > 0 {
        let front = s.drop_last();
        assert(ascending(front)) by {
            assert forall|i: int, k: int| 0 <= i < k < front.len() implies text::comes_after(
                (#[trigger] front[k]).0@,
                (#[trigger] front[i]).0@,
            ) by {
                assert(front[k] == s[k] && front[i] == s[i]);
            }
        }
        lemma_filed(front);
        assert forall|i: int| 0 <= i < s.len() implies filed(s).contains_key((#[trigger] s[i]).0@)
            && filed(s)[s[i].0@] == s[i].1 by {
            if i < s.len() - 1 {
                assert(front[i] == s[i]);
                assert(text::comes_after(s[s.len() - 1].0@, s[i].0@));
                text::lemma_order(s[s.len() - 1].0@, s[i].0@);
            }
        }
        assert forall|key: Seq<char>| #[trigger] filed(s).contains_key(key) implies exists|i: int|
            0 <= i < s.len() && (#[trigger] s[i]).0@ == key by {
            if key == s.last().0@ {
                assert(s[s.len() - 1].0@ == key);
            } else {
                assert(filed(front).contains_key(key));
                let i = choose|i: int| 0 <= i < front.len() && (#[trigger] front[i]).0@ == key;
                assert(s[i].0@ == key);
            }
        }
    }
}

/// Two listings that file the same values under the same keys are one map.
proof fn lemma_same_map<T>(s: Seq<(String, T)>, m: Map<Seq<char>, T>)
    requires
        ascending(s),
        forall|i: int|
            0 <= i < s.len() ==> m.contains_key((#[trigger] s[i]).0@) && m[s[i].0@] == s[i].1,
        forall|key: Seq<char>| #[trigger]
            m.contains_key(key) ==> exists|i: int|
                0 <= i < s.len() && (#[trigger] s[i]).0@ == key,
    ensures
        filed(s) == m,
{
    lemma_filed(s);
    assert forall|key: Seq<char>| #[trigger] filed(s).contains_key(key) <==> m.contains_key(
        key,
    ) by {}
    assert forall|key: Seq<char>| #[trigger] filed(s).contains_key(key) implies filed(s)[key]
        == m[key] by {
        let i = choose|i: int| 0 <= i < s.len() && (#[trigger] s[i]).0@ == key;
        assert(filed(s)[s[i].0@] == s[i].1);
    }
    assert(filed(s) =~= m);
}

impl<T> Book<T> {
    /// The entries stand in ascending order, each key once.
    pub open spec fn wf(self) -> bool {
        ascending(self.entries@)
    }

    /// An empty book.
    pub fn new() -> (r: Book<T>)
        ensures
            r.wf(),
            r@ == Map::<Seq<char>, T>::empty(),
    {
        Book { entries: Vec::new() }
    }

    /// The position of the first entry whose key does not come before `key`.
    fn place(&self, key: &str) -> (r: usize)
        requires
            self.wf(),
        ensures
            r <= self.entries@.len(),
            forall|i: int|
                0 <= i < r ==> text::comes_after(key@, (#[trigger] self.entries@[i]).0@),
            forall|i: int|
                r <= i < self.entries@.len() ==> !text::comes_after(
                    key@,
                    (#[trigger] self.entries@[i]).0@,
                ),
            r < self.entries@.len() && self.entries@[r as int].0@ != key@ ==> forall|i: int|
                r <= i < self.entries@.len() ==> text::comes_after(
                    (#[trigger] self.entries@[i]).0@,
                    key@,
                ),
            forall|i: int|
                r < i < self.entries@.len() ==> text::comes_after(
                    (#[trigger] self.entries@[i]).0@,
                    key@,
                ),
    {
        let mut i: usize = 0;
        while i < self.entries.len() && text::after(key, self.entries[i].0.as_str())
            invariant
                i <= self.entries@.len(),
                forall|k: int|
                    0 <= k < i ==> text::comes_after(key@, (#[trigger] self.entries@[k]).0@),
            decreases self.entries.len() - i,
        {
            i = i + 1;
        }
        proof {
            let s = self.entries@;
            if i < s.len() {
                text::lemma_order(s[i as int].0@, key@);
                assert forall|k: int| i < k < s.len() implies text::comes_after(
                    (#[trigger] s[k]).0@,
                    key@,
                ) by {
                    assert(text::comes_after(s[k].0@, s[i as int].0@));
                    if s[i as int].0@ != key@ {
                        text::lemma_order_chain(s[k].0@, s[i as int].0@, key@);
                    }
                }
                assert forall|k: int| i <= k < s.len() implies !text::comes_after(
                    key@,
                    (#[trigger] s[k]).0@,
                ) by {
                    text::lemma_order(key@, s[k].0@);
                }
            }
        }
        i
    }

    /// What is filed under `key`.
    pub fn get(&self, key: &str) -> (r: Option<&T>)
        requires
            self.wf(),
        ensures
            match r {
                Some(v) => self@.contains_key(key@) && self@[key@] == *v,
                None => !self@.contains_key(key@),
            },
    {
        proof {
            lemma_filed(self.entries@);
        }
        let at: usize = self.place(key);
        if at < self.entries.len() && text::same(self.entries[at].0.as_str(), key) {
            Some(&self.entries[at].1)
        } else {
            proof {
                if self@.contains_key(key@) {
                    let i = choose|i: int|
                        0 <= i < self.entries@.len() && (#[trigger] self.entries@[i]).0@ == key@;
                    text::lemma_order(key@, key@);
                    assert(false);
                }
            }
            None
        }
    }

    /// Whether anything is filed under `key`.
    pub fn contains(&self, key: &str) -> (r: bool)
        requires
            self.wf(),
        ensures
            r == self@.contains_key(key@),
    {
        self.get(key).is_some()
    }

    /// File `value` under `key`, in the place of what was there.
    pub fn insert(&mut self, key: &str, value: T)
        requires
            old(self).wf(),
        ensures
            final(self).wf(),
            final(self)@ == old(self)@.insert(key@, value),
    {
        let ghost s = self.entries@;
        proof {
            lemma_filed(s);
        }
        let at: usize = self.place(key);
        if at < self.entries.len() && text::same(self.entries[at].0.as_str(), key) {
            self.entries[at].1 = value;
            proof {
                let n = self.entries@;
                assert(n.len() == s.len());
                assert(forall|i: int|
                    0 <= i < s.len() ==> (#[trigger] n[i]).0@ == s[i].0@ && (i != at ==> n[i]
                        == s[i]));
                assert(ascending(n)) by {
                    assert forall|i: int, k: int| 0 <= i < k < n.len() implies text::comes_after(
                        (#[trigger] n[k]).0@,
                        (#[trigger] n[i]).0@,
                    ) by {
                        assert(text::comes_after(s[k].0@, s[i].0@));
                    }
                }
                let m = filed(s).insert(key@, value);
                assert forall|i: int| 0 <= i < n.len() implies m.contains_key((#[trigger] n[i]).0@)
                    && m[n[i].0@] == n[i].1 by {
                    assert(s[i].0@ == n[i].0@);
                    if i != at {
                        if i < at {
                            text::lemma_order(s[at as int].0@, s[i].0@);
                        } else {
                            text::lemma_order(s[i].0@, s[at as int].0@);
                        }
                    }
                }
                assert forall|x: Seq<char>| #[trigger] m.contains_key(x) implies exists|i: int|
                    0 <= i < n.len() && (#[trigger] n[i]).0@ == x by {
                    if x == key@ {
                        assert(n[at as int].0@ == x);
                    } else {
                        assert(filed(s).contains_key(x));
                        let i = choose|i: int| 0 <= i < s.len() && (#[trigger] s[i]).0@ == x;
                        assert(n[i].0@ == x);
                    }
                }
                lemma_same_map(n, m);
            }
        } else {
            self.entries.insert(at, (key.to_string(), value));
            proof {
                let n = self.entries@;
                assert(n =~= s.insert(at as int, n[at as int]));
                assert(n[at as int].0@ == key@);
                assert(forall|i: int| 0 <= i < at ==> #[trigger] n[i] == s[i]);
                assert(forall|i: int| at < i < n.len() ==> #[trigger] n[i] == s[i - 1]);
                assert(ascending(n)) by {
                    assert forall|i: int, k: int| 0 <= i < k < n.len() implies text::comes_after(
                        (#[trigger] n[k]).0@,
                        (#[trigger] n[i]).0@,
                    ) by {
                        if k == at {
                            assert(text::comes_after(key@, s[i].0@));
                        } else if i == at {
                            assert(text::comes_after(s[k - 1].0@, key@));
                        } else {
                            let a = if i < at {
                                i
                            } else {
                                i - 1
                            };
                            let b = if k < at {
                                k
                            } else {
                                k - 1
                            };
                            assert(text::comes_after(s[b].0@, s[a].0@));
                        }
                    }
                }
                let m = filed(s).insert(key@, value);
                assert forall|i: int| 0 <= i < n.len() implies m.contains_key((#[trigger] n[i]).0@)
                    && m[n[i].0@] == n[i].1 by {
                    if i < at {
                        assert(n[i] == s[i]);
                        text::lemma_order(key@, s[i].0@);
                    } else if i > at {
                        assert(n[i] == s[i - 1]);
                        text::lemma_order(s[i - 1].0@, key@);
                    }
                }
                assert forall|x: Seq<char>| #[trigger] m.contains_key(x) implies exists|i: int|
                    0 <= i < n.len() && (#[trigger] n[i]).0@ == x by {
                    if x == key@ {
                        assert(n[at as int].0@ == x);
                    } else {
                        assert(filed(s).contains_key(x));
                        let i = choose|i: int| 0 <= i < s.len() && (#[trigger] s[i]).0@ == x;
                        assert(n[if i < at {
                            i
                        } else {
                            i + 1
                        }].0@ == x);
                    }
                }
                lemma_same_map(n, m);
            }
        }
    }

    /// Take out what is filed under `key`.
    pub fn remove(&mut self, key: &str) -> (r: Option<T>)
        requires
            old(self).wf(),
        ensures
            final(self).wf(),
            final(self)@ == old(self)@.remove(key@),
            match r {
                Some(v) => old(self)@.contains_key(key@) && old(self)@[key@] == v,
                None => !old(self)@.contains_key(key@),
            },
    {
        let ghost s = self.entries@;
        proof {
            lemma_filed(s);
        }
        let at: usize = self.place(key);
        if at < self.entries.len() && text::same(self.entries[at].0.as_str(), key) {
            let (_k, v) = self.entries.remove(at);
            proof {
                let n = self.entries@;
                assert(n =~= s.remove(at as int));
                assert(forall|i: int| 0 <= i < at ==> #[trigger] n[i] == s[i]);
                assert(forall|i: int| at <= i < n.len() ==> #[trigger] n[i] == s[i + 1]);
                assert(ascending(n)) by {
                    assert forall|i: int, k: int| 0 <= i < k < n.len() implies text::comes_after(
                        (#[trigger] n[k]).0@,
                        (#[trigger] n[i]).0@,
                    ) by {
                        let a = if i < at {
                            i
                        } else {
                            i + 1
                        };
                        let b = if k < at {
                            k
                        } else {
                            k + 1
                        };
                        assert(text::comes_after(s[b].0@, s[a].0@));
                    }
                }
                let m = filed(s).remove(key@);
                assert forall|i: int| 0 <= i < n.len() implies m.contains_key((#[trigger] n[i]).0@)
                    && m[n[i].0@] == n[i].1 by {
                    if i < at {
                        assert(n[i] == s[i]);
                        text::lemma_order(key@, s[i].0@);
                    } else {
                        assert(n[i] == s[i + 1]);
                        text::lemma_order(s[i + 1].0@, key@);
                    }
                }
                assert forall|x: Seq<char>| #[trigger] m.contains_key(x) implies exists|i: int|
                    0 <= i < n.len() && (#[trigger] n[i]).0@ == x by {
                    assert(filed(s).contains_key(x));
                    let i = choose|i: int| 0 <= i < s.len() && (#[trigger] s[i]).0@ == x;
                    assert(n[if i < at {
                        i
                    } else {
                        i - 1
                    }].0@ == x);
                }
                lemma_same_map(n, m);
            }
            Some(v)
        } else {
            proof {
                if self@.contains_key(key@) {
                    let i = choose|i: int| 0 <= i < s.len() && (#[trigger] s[i]).0@ == key@;
                    text::lemma_order(key@, key@);
                    assert(false);
                }
                assert(filed(s).remove(key@) =~= filed(s));
            }
            None
        }
    }
}

} // verus!
