//! An ordered table keyed by a name and a number.

use vstd::prelude::*;
use vstd::utf8::*;

use crate::text::str_eq;

verus! {

/// Key of a table: a name and a number.
pub type Key = (Seq<char>, u32);

/// Whether the bytes `a` come before the bytes `b`: by the first byte that
/// differs, a prefix before what it starts.
pub open spec fn bytes_before(a: Seq<u8>, b: Seq<u8>) -> bool
    decreases a.len(),
{
    if b.len() == 0 {
        false
    } else if a.len() == 0 {
        true
    } else if a[0] != b[0] {
        a[0] < b[0]
    } else {
        bytes_before(a.skip(1), b.skip(1))
    }
}

/// Whether name `a` comes before name `b`.
pub open spec fn name_before(a: Seq<char>, b: Seq<char>) -> bool {
    bytes_before(encode_utf8(a), encode_utf8(b))
}

/// Whether key `a` comes before key `b`: by name, then by number.
pub open spec fn key_before(a: Key, b: Key) -> bool {
    name_before(a.0, b.0) || (a.0 == b.0 && a.1 < b.1)
}

/// Nothing comes before itself, and of two things one comes first.
pub proof fn lemma_bytes_total(a: Seq<u8>, b: Seq<u8>)
    ensures
        !bytes_before(a, a),
        bytes_before(a, b) ==> !bytes_before(b, a),
        a != b ==> bytes_before(a, b) || bytes_before(b, a),
    decreases a.len(),
{
    if a.len() > 0 {
        lemma_bytes_total(a.skip(1), a.skip(1));
        if b.len() > 0 && a[0] == b[0] {
            lemma_bytes_total(a.skip(1), b.skip(1));
            if a.skip(1) == b.skip(1) {
                assert(a =~= seq![a[0]] + a.skip(1));
                assert(b =~= seq![b[0]] + b.skip(1));
            }
        }
    } else if b.len() == 0 {
        assert(a =~= b);
    }
}

/// The order of bytes is transitive.
pub proof fn lemma_bytes_trans(a: Seq<u8>, b: Seq<u8>, c: Seq<u8>)
    requires
        bytes_before(a, b),
        bytes_before(b, c),
    ensures
        bytes_before(a, c),
    decreases a.len(),
{
    if a.len() > 0 && a[0] == b[0] && b[0] == c[0] {
        lemma_bytes_trans(a.skip(1), b.skip(1), c.skip(1));
    }
}

/// Different names have different bytes.
pub proof fn lemma_name_bytes(a: Seq<char>, b: Seq<char>)
    ensures
        encode_utf8(a) == encode_utf8(b) ==> a == b,
{
    encode_utf8_decode_utf8(a);
    encode_utf8_decode_utf8(b);
}

/// The order of names is total.
pub proof fn lemma_name_total(a: Seq<char>, b: Seq<char>)
    ensures
        !name_before(a, a),
        name_before(a, b) ==> !name_before(b, a) && a != b,
        a != b ==> name_before(a, b) || name_before(b, a),
{
    lemma_bytes_total(encode_utf8(a), encode_utf8(b));
    lemma_name_bytes(a, b);
}

/// The order of keys is total.
pub proof fn lemma_key_total(a: Key, b: Key)
    ensures
        !key_before(a, a),
        key_before(a, b) ==> !key_before(b, a) && a != b,
        a != b ==> key_before(a, b) || key_before(b, a),
{
    lemma_name_total(a.0, b.0);
    lemma_name_total(b.0, a.0);
}

/// The order of keys is transitive.
pub proof fn lemma_key_trans(a: Key, b: Key, c: Key)
    requires
        key_before(a, b),
        key_before(b, c),
    ensures
        key_before(a, c),
{
    if name_before(a.0, b.0) && name_before(b.0, c.0) {
        lemma_bytes_trans(encode_utf8(a.0), encode_utf8(b.0), encode_utf8(c.0));
    }
}

/// Whether one name comes before another.
pub fn name_lt(a: &str, b: &str) -> (r: bool)
    ensures
        r == name_before(a@, b@),
{
    let x = a.as_bytes();
    let y = b.as_bytes();
    let ghost xs = x@;
    let ghost ys = y@;
    let mut i: usize = 0;
    assert(xs.skip(0) =~= xs);
    assert(ys.skip(0) =~= ys);
    while i < x.len() && i < y.len()
        invariant
            xs == x@,
            ys == y@,
            i <= xs.len(),
            i <= ys.len(),
            xs == encode_utf8(a@),
            ys == encode_utf8(b@),
            bytes_before(xs, ys) == bytes_before(xs.skip(i as int), ys.skip(i as int)),
        decreases xs.len() - i,
    {
        proof {
            assert(xs.skip(i as int)[0] == xs[i as int]);
            assert(ys.skip(i as int)[0] == ys[i as int]);
            assert(xs.skip(i as int).skip(1) =~= xs.skip(i + 1));
            assert(ys.skip(i as int).skip(1) =~= ys.skip(i + 1));
        }
        if x[i] != y[i] {
            return x[i] < y[i];
        }
        i = i + 1;
    }
    i < y.len()
}

/// One entry of a [`Table`].
#[derive(Debug)]
pub struct Entry<V> {
    /// Name part of the key.
    pub name: String,
    /// Number part of the key.
    pub num: u32,
    /// What the key stands for.
    pub val: V,
}

impl<V> Entry<V> {
    /// The key of the entry.
    pub open spec fn key(self) -> Key {
        (self.name@, self.num)
    }
}

/// A table whose entries stand in the order of their keys.
#[derive(Debug)]
pub struct Table<V> {
    /// The entries.
    pub entries: Vec<Entry<V>>,
}

/// Position of a key.
pub open spec fn key_at<V>(s: Seq<Entry<V>>, k: Key, i: int) -> bool {
    0 <= i < s.len() && s[i].key() == k
}

impl<V> Table<V> {
    /// The entries stand in the order of their keys, each key once.
    pub open spec fn wf(self) -> bool {
        forall|i: int, j: int|
            0 <= i < j < self.entries@.len() ==> key_before(
                (#[trigger] self.entries@[i]).key(),
                (#[trigger] self.entries@[j]).key(),
            )
    }

    /// Whether a key is in the table.
    pub open spec fn has(self, k: Key) -> bool {
        exists|i: int| #[trigger] key_at(self.entries@, k, i)
    }

    /// What the table holds.
    pub open spec fn map(self) -> Map<Key, V> {
        Map::new(
            |k: Key| self.has(k),
            |k: Key| self.entries@[choose|i: int| #[trigger] key_at(self.entries@, k, i)].val,
        )
    }

    /// An entry holds what the map says.
    pub proof fn lemma_entry(self, i: int)
        requires
            self.wf(),
            0 <= i < self.entries@.len(),
        ensures
            self.map().dom().contains(self.entries@[i].key()),
            self.map()[self.entries@[i].key()] == self.entries@[i].val,
    {
        let k = self.entries@[i].key();
        assert(key_at(self.entries@, k, i));
        let j = choose|j: int| #[trigger] key_at(self.entries@, k, j);
        lemma_key_total(k, k);
    }

    /// A key of the map is one of an entry.
    pub proof fn lemma_key(self, k: Key) -> (i: int)
        requires
            self.wf(),
            self.map().dom().contains(k),
        ensures
            key_at(self.entries@, k, i),
            self.map()[k] == self.entries@[i].val,
    {
        let i = choose|i: int| #[trigger] key_at(self.entries@, k, i);
        self.lemma_entry(i);
        i
    }

    /// An empty table.
    pub fn new() -> (r: Table<V>)
        ensures
            r.wf(),
            r.map() == Map::<Key, V>::empty(),
            r.entries@.len() == 0,
    {
        let r = Table { entries: Vec::new() };
        assert(r.map() =~= Map::<Key, V>::empty());
        r
    }

    /// Number of entries.
    pub fn len(&self) -> (r: usize)
        ensures
            r == self.entries@.len(),
    {
        self.entries.len()
    }

    /// Position of a key, or the position where it belongs.
    pub fn locate(&self, name: &str, num: u32) -> (r: (bool, usize))
        requires
            self.wf(),
        ensures
            r.1 <= self.entries@.len(),
            r.0 == self.map().dom().contains((name@, num)),
            r.0 ==> r.1 < self.entries@.len() && self.entries@[r.1 as int].key() == (name@, num),
            forall|i: int|
                0 <= i < r.1 ==> key_before((#[trigger] self.entries@[i]).key(), (name@, num)),
            !r.0 ==> forall|i: int|
                r.1 <= i < self.entries@.len() ==> key_before(
                    (name@, num),
                    (#[trigger] self.entries@[i]).key(),
                ),
    {
        let ghost k = (name@, num);
        let mut i: usize = 0;
        while i < self.entries.len()
            invariant
                self.wf(),
                i <= self.entries@.len(),
                k == (name@, num),
                forall|j: int|
                    0 <= j < i ==> key_before((#[trigger] self.entries@[j]).key(), k),
            decreases self.entries@.len() - i,
        {
            let e = &self.entries[i];
            proof {
                lemma_name_total(e.name@, name@);
                lemma_key_total(e.key(), k);
            }
            if str_eq(e.name.as_str(), name) && e.num == num {
                proof {
                    self.lemma_entry(i as int);
                }
                return (true, i);
            }
            if name_lt(name, e.name.as_str()) || (str_eq(e.name.as_str(), name) && num < e.num) {
                assert(key_before(k, e.key()));
                proof {
                    assert forall|j: int| i <= j < self.entries@.len() implies key_before(
                        k,
                        (#[trigger] self.entries@[j]).key(),
                    ) by {
                        if j > i {
                            lemma_key_trans(
                                k,
                                self.entries@[i as int].key(),
                                self.entries@[j].key(),
                            );
                        }
                    }
                    self.lemma_absent(k, i as int);
                }
                return (false, i);
            }
            i = i + 1;
        }
        proof {
            self.lemma_absent(k, i as int);
        }
        (false, i)
    }

    /// Takes a key out.
    pub fn remove(&mut self, name: &str, num: u32) -> (r: Option<V>)
        requires
            old(self).wf(),
        ensures
            final(self).wf(),
            final(self).map() == old(self).map().remove((name@, num)),
            match r {
                Some(v) => old(self).map().dom().contains((name@, num)) && v == old(self).map()[(
                    name@,
                    num,
                )],
                None => !old(self).map().dom().contains((name@, num)),
            },
    {
        let (found, i) = self.locate(name, num);
        let ghost k = (name@, num);
        if !found {
            assert(self.map().remove(k) =~= self.map());
            return None;
        }
        let ghost before = *self;
        proof {
            before.lemma_entry(i as int);
        }
        let e = self.entries.remove(i);
        proof {
            let now = *self;
            let at = |j: int|
                if j < i {
                    j
                } else {
                    j + 1
                };
            assert forall|j: int| 0 <= j < now.entries@.len() implies #[trigger] now.entries@[j]
                == before.entries@[at(j)] by {}
            assert forall|a: int, b: int| 0 <= a < b < now.entries@.len() implies key_before(
                (#[trigger] now.entries@[a]).key(),
                (#[trigger] now.entries@[b]).key(),
            ) by {
                assert(key_before(
                    before.entries@[at(a)].key(),
                    before.entries@[at(b)].key(),
                ));
            }
            let want = before.map().remove(k);
            assert forall|x: Key| now.map().dom().contains(x) == want.dom().contains(x) by {
                if now.map().dom().contains(x) {
                    let j = now.lemma_key(x);
                    before.lemma_entry(at(j));
                    if x == k {
                        let (lo, hi) = if at(j) < i {
                            (at(j), i as int)
                        } else {
                            (i as int, at(j))
                        };
                        assert(key_before(
                            before.entries@[lo].key(),
                            before.entries@[hi].key(),
                        ));
                        lemma_key_total(k, k);
                    }
                }
                if want.dom().contains(x) {
                    let o = before.lemma_key(x);
                    let j = if o < i {
                        o
                    } else {
                        o - 1
                    };
                    assert(o != i);
                    assert(now.entries@[j] == before.entries@[at(j)]);
                    now.lemma_entry(j);
                }
            }
            assert forall|x: Key| now.map().dom().contains(x) implies #[trigger] now.map()[x]
                == want[x] by {
                let j = now.lemma_key(x);
                before.lemma_entry(at(j));
                assert(now.entries@[j] == before.entries@[at(j)]);
                assert(want.dom().contains(x));
            }
            assert(now.map() =~= want);
        }
        Some(e.val)
    }

    /// A key that lies between two neighbours is not in the table.
    proof fn lemma_absent(self, k: Key, at: int)
        requires
            self.wf(),
            0 <= at <= self.entries@.len(),
            forall|i: int| 0 <= i < at ==> key_before((#[trigger] self.entries@[i]).key(), k),
            forall|i: int|
                at <= i < self.entries@.len() ==> key_before(
                    k,
                    (#[trigger] self.entries@[i]).key(),
                ),
        ensures
            !self.map().dom().contains(k),
    {
        if self.map().dom().contains(k) {
            let i = self.lemma_key(k);
            lemma_key_total(k, k);
        }
    }

    /// What a key stands for.
    pub fn get(&self, name: &str, num: u32) -> (r: Option<&V>)
        requires
            self.wf(),
        ensures
            match r {
                Some(v) => self.map().dom().contains((name@, num)) && *v == self.map()[(
                    name@,
                    num,
                )],
                None => !self.map().dom().contains((name@, num)),
            },
    {
        let (found, i) = self.locate(name, num);
        if found {
            proof {
                self.lemma_entry(i as int);
            }
            Some(&self.entries[i].val)
        } else {
            None
        }
    }

    /// Lets a key stand for a value.
    pub fn insert(&mut self, name: String, num: u32, val: V)
        requires
            old(self).wf(),
        ensures
            final(self).wf(),
            final(self).map() == old(self).map().insert((name@, num), val),
    {
        let (found, i) = self.locate(name.as_str(), num);
        let ghost k = (name@, num);
        let ghost before = *self;
        if found {
            self.entries[i].val = val;
            proof {
                lemma_map_of(*self, before.map().insert(k, val), before, k, val, i as int, true);
            }
        } else {
            self.entries.insert(i, Entry { name, num, val });
            proof {
                assert forall|a: int, b: int| 0 <= a < b < self.entries@.len() implies key_before(
                    (#[trigger] self.entries@[a]).key(),
                    (#[trigger] self.entries@[b]).key(),
                ) by {
                    if a < i && b > i {
                        assert(self.entries@[a] == before.entries@[a]);
                        assert(self.entries@[b] == before.entries@[b - 1]);
                    } else if a < i && b < i {
                        assert(self.entries@[a] == before.entries@[a]);
                        assert(self.entries@[b] == before.entries@[b]);
                    } else if a > i {
                        assert(self.entries@[a] == before.entries@[a - 1]);
                        assert(self.entries@[b] == before.entries@[b - 1]);
                    } else if a == i {
                        assert(self.entries@[b] == before.entries@[b - 1]);
                    } else {
                        assert(self.entries@[a] == before.entries@[a]);
                    }
                }
                lemma_map_of(*self, before.map().insert(k, val), before, k, val, i as int, false);
            }
        }
    }

    /// Changes the value at a position.
    pub fn set_at(&mut self, i: usize, val: V)
        requires
            old(self).wf(),
            i < old(self).entries@.len(),
        ensures
            final(self).wf(),
            final(self).entries@.len() == old(self).entries@.len(),
            final(self).map() == old(self).map().insert(old(self).entries@[i as int].key(), val),
            forall|j: int|
                0 <= j < old(self).entries@.len() ==> (#[trigger] final(self).entries@[j]).key()
                    == old(self).entries@[j].key(),
            forall|j: int|
                0 <= j < old(self).entries@.len() && j != i ==> #[trigger] final(self).entries@[j]
                    == old(self).entries@[j],
            final(self).entries@[i as int].val == val,
    {
        let ghost before = *self;
        let ghost k = self.entries@[i as int].key();
        self.entries[i].val = val;
        proof {
            assert forall|a: int, b: int| 0 <= a < b < self.entries@.len() implies key_before(
                (#[trigger] self.entries@[a]).key(),
                (#[trigger] self.entries@[b]).key(),
            ) by {
                assert(self.entries@[a].key() == before.entries@[a].key());
                assert(self.entries@[b].key() == before.entries@[b].key());
            }
            lemma_map_of(*self, before.map().insert(k, val), before, k, val, i as int, true);
        }
    }
}

/// Replacing or inserting one entry changes the map at one key.
proof fn lemma_map_of<V>(
    t: Table<V>,
    m: Map<Key, V>,
    before: Table<V>,
    k: Key,
    val: V,
    i: int,
    replaced: bool,
)
    requires
        before.wf(),
        m == before.map().insert(k, val),
        0 <= i < t.entries@.len(),
        t.entries@[i].key() == k,
        t.entries@[i].val == val,
        replaced ==> t.entries@.len() == before.entries@.len() && before.entries@[i].key() == k
            && forall|j: int|
            0 <= j < t.entries@.len() && j != i ==> #[trigger] t.entries@[j] == before.entries@[j],
        !replaced ==> t.entries@ == before.entries@.insert(i, t.entries@[i]) && i
            <= before.entries@.len(),
        t.wf() || replaced,
    ensures
        t.wf(),
        t.map() == m,
{
    if replaced {
        assert forall|a: int, b: int| 0 <= a < b < t.entries@.len() implies key_before(
            (#[trigger] t.entries@[a]).key(),
            (#[trigger] t.entries@[b]).key(),
        ) by {
            assert(t.entries@[a].key() == before.entries@[a].key());
            assert(t.entries@[b].key() == before.entries@[b].key());
        }
    }
    t.lemma_entry(i);
    assert forall|x: Key| t.map().dom().contains(x) == m.dom().contains(x) by {
        if t.map().dom().contains(x) {
            let j = t.lemma_key(x);
            if j != i {
                let o = if replaced || j < i {
                    j
                } else {
                    j - 1
                };
                assert(t.entries@[j] == before.entries@[o]);
                before.lemma_entry(o);
            }
        }
        if m.dom().contains(x) && x != k {
            let o = before.lemma_key(x);
            if replaced {
                assert(o != i);
                assert(t.entries@[o] == before.entries@[o]);
                t.lemma_entry(o);
            } else {
                let j = if o < i {
                    o
                } else {
                    o + 1
                };
                assert(t.entries@[j] == before.entries@[o]);
                t.lemma_entry(j);
            }
        }
    }
    assert forall|x: Key| t.map().dom().contains(x) implies #[trigger] t.map()[x] == m[x] by {
        let j = t.lemma_key(x);
        if j != i {
            let o = if replaced || j < i {
                j
            } else {
                j - 1
            };
            assert(t.entries@[j] == before.entries@[o]);
            before.lemma_entry(o);
            lemma_key_total(x, k);
            if x == k {
                lemma_key_total(k, k);
            }
        }
    }
    assert(t.map() =~= m);
}

/// Keys that stand in order, each once.
pub open spec fn in_order(keys: Seq<Key>) -> bool {
    forall|i: int, j: int|
        0 <= i < j < keys.len() ==> key_before(#[trigger] keys[i], #[trigger] keys[j])
}

/// The same keys in order are the same sequence.
pub proof fn lemma_order_unique(s: Seq<Key>, t: Seq<Key>)
    requires
        in_order(s),
        in_order(t),
        forall|k: Key| #[trigger] s.contains(k) <==> t.contains(k),
    ensures
        s == t,
    decreases s.len(),
{
    if s.len() == 0 {
        if t.len() > 0 {
            assert(t.contains(t[0]));
            assert(s.contains(t[0]));
        }
        assert(s =~= t);
    } else {
        let a = s.last();
        assert(s.contains(a));
        assert(t.contains(a));
        let b = t.last();
        assert(t.contains(b));
        assert(s.contains(b));
        if a != b {
            let i = choose|i: int| 0 <= i < s.len() && s[i] == b;
            let j = choose|j: int| 0 <= j < t.len() && t[j] == a;
            assert(key_before(s[i], s[s.len() - 1]));
            assert(key_before(t[j], t[t.len() - 1]));
            lemma_key_total(a, b);
        }
        let x = s.drop_last();
        let y = t.drop_last();
        assert forall|k: Key| #[trigger] x.contains(k) <==> y.contains(k) by {
            if x.contains(k) {
                let i = choose|i: int| 0 <= i < x.len() && x[i] == k;
                assert(s[i] == k);
                assert(key_before(s[i], s[s.len() - 1]));
                lemma_key_total(k, a);
                assert(s.contains(k));
                let j = choose|j: int| 0 <= j < t.len() && t[j] == k;
                assert(y[j] == k);
            }
            if y.contains(k) {
                let i = choose|i: int| 0 <= i < y.len() && y[i] == k;
                assert(t[i] == k);
                assert(key_before(t[i], t[t.len() - 1]));
                lemma_key_total(k, a);
                assert(t.contains(k));
                assert(s.contains(k));
                let j = choose|j: int| 0 <= j < s.len() && s[j] == k;
                assert(x[j] == k);
            }
        }
        lemma_order_unique(x, y);
        assert(s =~= x.push(a));
        assert(t =~= y.push(a));
    }
}

/// Bytes are ordered by the first place where they differ, and what is the
/// beginning of something comes before it.
pub proof fn law_order_of_bytes(head: Seq<u8>, x: u8, y: u8, s: Seq<u8>, t: Seq<u8>)
    ensures
        x != y ==> (bytes_before(head.push(x) + s, head.push(y) + t) <==> x < y),
        bytes_before(head, head.push(x) + s),
        !bytes_before(head.push(x) + s, head),
    decreases head.len(),
{
    let a = head.push(x) + s;
    let b = head.push(y) + t;
    if head.len() > 0 {
        let h = head.skip(1);
        law_order_of_bytes(h, x, y, s, t);
        assert(a.skip(1) =~= h.push(x) + s);
        assert(b.skip(1) =~= h.push(y) + t);
        assert(a[0] == head[0] && b[0] == head[0]);
    }
}

/// Keys are ordered by their names, and under one name by their numbers.
pub proof fn law_order_of_keys(a: Key, b: Key)
    ensures
        a.0 == b.0 ==> (key_before(a, b) <==> a.1 < b.1),
        a.0 != b.0 ==> (key_before(a, b) <==> bytes_before(encode_utf8(a.0), encode_utf8(b.0))),
{
    lemma_name_total(a.0, b.0);
}

} // verus!
