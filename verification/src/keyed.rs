//! Collections keyed by text and kept in ascending key order: the order in
//! which the reports list agents, charts and action items.

use vstd::prelude::*;
use crate::text::chars_of;

verus! {

/// Whether `a` sorts strictly before `b`: character by character by code
/// point, a proper prefix first. This is the order of `String` in std.
pub open spec fn precedes(a: Seq<char>, b: Seq<char>) -> bool
    decreases a.len(),
{
    if a.len() == 0 {
        b.len() > 0
    } else if b.len() == 0 {
        false
    } else if a[0] != b[0] {
        a[0] < b[0]
    } else {
        precedes(a.drop_first(), b.drop_first())
    }
}

/// Texts sort as `String` does: a proper prefix sorts first, and otherwise
/// the first character at which two texts differ decides, the smaller code
/// point first.
pub proof fn law_precedes_order(a: Seq<char>, b: Seq<char>, i: int)
    ensures
        a.len() < b.len() && a.is_prefix_of(b) ==> precedes(a, b),
        0 <= i < a.len() && i < b.len() && a.take(i) == b.take(i) && a[i] < b[i] ==> precedes(a, b),
    decreases a.len(),
{
    if a.len() > 0 && b.len() > 0 {
        if a[0] == b[0] {
            law_precedes_order(a.drop_first(), b.drop_first(), i - 1);
            if a.len() < b.len() && a.is_prefix_of(b) {
                assert(a.drop_first().is_prefix_of(b.drop_first())) by {
                    assert forall|j: int| 0 <= j < a.drop_first().len() implies a.drop_first()[j] == b.drop_first()[j] by {
                        assert(a[j + 1] == b[j + 1]);
                    }
                }
            }
            if 0 <= i < a.len() && i < b.len() && a.take(i) == b.take(i) && a[i] < b[i] {
                if i > 0 {
                    assert(a.drop_first().take(i - 1) =~= b.drop_first().take(i - 1)) by {
                        assert forall|j: int| 0 <= j < i - 1 implies a.drop_first()[j] == b.drop_first()[j] by {
                            assert(a.take(i)[j + 1] == b.take(i)[j + 1]);
                        }
                    }
                }
            }
        } else {
            if a.len() < b.len() && a.is_prefix_of(b) {
                assert(a[0] == b[0]);
            }
            if 0 <= i < a.len() && i < b.len() && a.take(i) == b.take(i) && a[i] < b[i] && i > 0 {
                assert(a.take(i)[0] == b.take(i)[0]);
            }
        }
    }
}

/// No text sorts before itself.
pub proof fn lemma_precedes_irreflexive(a: Seq<char>)
    ensures
        !precedes(a, a),
    decreases a.len(),
{
    if a.len() > 0 {
        lemma_precedes_irreflexive(a.drop_first());
    }
}

/// The order is transitive.
pub proof fn lemma_precedes_transitive(a: Seq<char>, b: Seq<char>, c: Seq<char>)
    requires
        precedes(a, b),
        precedes(b, c),
    ensures
        precedes(a, c),
    decreases a.len(),
{
    if a.len() > 0 && b.len() > 0 && c.len() > 0 {
        if a[0] == b[0] && b[0] == c[0] {
            lemma_precedes_transitive(a.drop_first(), b.drop_first(), c.drop_first());
        }
    }
}

/// Of two different texts one sorts before the other.
pub proof fn lemma_precedes_total(a: Seq<char>, b: Seq<char>)
    requires
        a != b,
    ensures
        precedes(a, b) || precedes(b, a),
    decreases a.len(),
{
    if a.len() > 0 && b.len() > 0 {
        if a[0] == b[0] {
            if a.drop_first() == b.drop_first() {
                assert(a =~= seq![a[0]] + a.drop_first());
                assert(b =~= seq![b[0]] + b.drop_first());
            }
            lemma_precedes_total(a.drop_first(), b.drop_first());
        } else {
        }
    } else if a.len() == 0 && b.len() == 0 {
        assert(a =~= b);
    }
}

proof fn lemma_precedes_step(a: Seq<char>, b: Seq<char>, i: int)
    requires
        0 <= i < a.len(),
        i < b.len(),
        a[i] == b[i],
    ensures
        precedes(a.skip(i), b.skip(i)) == precedes(a.skip(i + 1), b.skip(i + 1)),
{
    assert(a.skip(i).drop_first() =~= a.skip(i + 1));
    assert(b.skip(i).drop_first() =~= b.skip(i + 1));
}

/// Whether `a` sorts strictly before `b`.
pub fn chars_precede(a: &Vec<char>, b: &Vec<char>) -> (r: bool)
    ensures
        r == precedes(a@, b@),
{
    let mut i: usize = 0;
    assert(a@.skip(0) =~= a@);
    assert(b@.skip(0) =~= b@);
    while i < a.len() && i < b.len()
        invariant
            i <= a.len(),
            i <= b.len(),
            precedes(a@, b@) == precedes(a@.skip(i as int), b@.skip(i as int)),
        decreases a.len() - i,
    {
        if a[i] != b[i] {
            assert(a@.skip(i as int)[0] == a@[i as int]);
            assert(b@.skip(i as int)[0] == b@[i as int]);
            return a[i] < b[i];
        }
        proof {
            lemma_precedes_step(a@, b@, i as int);
        }
        i = i + 1;
    }
    i == a.len() && i < b.len()
}

/// Whether `a` sorts strictly before `b`.
pub fn text_precedes(a: &str, b: &str) -> (r: bool)
    ensures
        r == precedes(a@, b@),
{
    let ca = chars_of(a);
    let cb = chars_of(b);
    chars_precede(&ca, &cb)
}

/// The keys of `s`, in order.
pub open spec fn keys_of<T>(s: Seq<(Seq<char>, T)>) -> Seq<Seq<char>> {
    s.map_values(|e: (Seq<char>, T)| e.0)
}

/// Whether the keys of `s` ascend strictly, so that no key occurs twice.
pub open spec fn ascending<T>(s: Seq<(Seq<char>, T)>) -> bool {
    forall|i: int, j: int| 0 <= i < j < s.len() ==> precedes(#[trigger] s[i].0, #[trigger] s[j].0)
}

/// The value that `s` holds for `k`, if any.
pub open spec fn lookup<T>(s: Seq<(Seq<char>, T)>, k: Seq<char>) -> Option<T>
    decreases s.len(),
{
    if s.len() == 0 {
        None
    } else if s[0].0 == k {
        Some(s[0].1)
    } else {
        lookup(s.drop_first(), k)
    }
}

/// How many leading entries of `s` have keys that sort before `k`.
pub open spec fn slot<T>(s: Seq<(Seq<char>, T)>, k: Seq<char>) -> int
    decreases s.len(),
{
    if s.len() == 0 || !precedes(s[0].0, k) {
        0
    } else {
        1 + slot(s.drop_first(), k)
    }
}

/// `s` with `k` bound to `v`: the entry for `k` replaced where there is
/// one, else a new entry placed where the key order puts it.
pub open spec fn put<T>(s: Seq<(Seq<char>, T)>, k: Seq<char>, v: T) -> Seq<(Seq<char>, T)> {
    let p = slot(s, k);
    if p < s.len() && s[p].0 == k {
        s.update(p, (k, v))
    } else {
        s.insert(p, (k, v))
    }
}

/// Binds every key of `ks` in turn, each to `v`.
pub open spec fn put_all<T>(s: Seq<(Seq<char>, T)>, ks: Seq<Seq<char>>, v: T) -> Seq<(Seq<char>, T)>
    decreases ks.len(),
{
    if ks.len() == 0 {
        s
    } else {
        put(put_all(s, ks.drop_last(), v), ks.last(), v)
    }
}

proof fn lemma_slot_bounds<T>(s: Seq<(Seq<char>, T)>, k: Seq<char>)
    ensures
        0 <= slot(s, k) <= s.len(),
        forall|i: int| 0 <= i < slot(s, k) ==> precedes(#[trigger] s[i].0, k),
        slot(s, k) < s.len() ==> !precedes(s[slot(s, k)].0, k),
    decreases s.len(),
{
    if s.len() > 0 && precedes(s[0].0, k) {
        lemma_slot_bounds(s.drop_first(), k);
        assert forall|i: int| 0 <= i < slot(s, k) implies precedes(#[trigger] s[i].0, k) by {
            if i > 0 {
                assert(s[i] == s.drop_first()[i - 1]);
            }
        }
    }
}

proof fn lemma_slot_prefix<T>(s: Seq<(Seq<char>, T)>, k: Seq<char>, p: int)
    requires
        0 <= p <= s.len(),
        forall|i: int| 0 <= i < p ==> precedes(#[trigger] s[i].0, k),
    ensures
        slot(s, k) == p + slot(s.skip(p), k),
    decreases p,
{
    if p > 0 {
        lemma_slot_prefix(s.drop_first(), k, p - 1);
        assert(s.drop_first().skip(p - 1) =~= s.skip(p));
    } else {
        assert(s.skip(0) =~= s);
    }
}

/// A key that no entry has gives nothing.
pub proof fn lemma_lookup_absent<T>(s: Seq<(Seq<char>, T)>, k: Seq<char>)
    requires
        forall|i: int| 0 <= i < s.len() ==> #[trigger] s[i].0 != k,
    ensures
        lookup(s, k) is None,
    decreases s.len(),
{
    if s.len() > 0 {
        assert forall|i: int| 0 <= i < s.drop_first().len() implies #[trigger] s.drop_first()[i].0 != k by {
            assert(s.drop_first()[i] == s[i + 1]);
        }
        lemma_lookup_absent(s.drop_first(), k);
    }
}

/// `lookup` finds the entry at any index by its key, when keys are
/// unique.
pub proof fn lemma_lookup_index<T>(s: Seq<(Seq<char>, T)>, i: int)
    requires
        ascending(s),
        0 <= i < s.len(),
    ensures
        lookup(s, s[i].0) == Some(s[i].1),
    decreases s.len(),
{
    if i > 0 {
        lemma_precedes_irreflexive(s[i].0);
        assert(precedes(s[0].0, s[i].0));
        assert(s.drop_first()[i - 1] == s[i]);
        assert(ascending(s.drop_first()));
        lemma_lookup_index(s.drop_first(), i - 1);
    }
}

/// Binding a key keeps the keys ascending.
pub proof fn lemma_put_ascending<T>(s: Seq<(Seq<char>, T)>, k: Seq<char>, v: T)
    requires
        ascending(s),
    ensures
        ascending(put(s, k, v)),
{
    lemma_slot_bounds(s, k);
    let p = slot(s, k);
    let r = put(s, k, v);
    if p < s.len() && s[p].0 == k {
        assert forall|i: int, j: int| 0 <= i < j < r.len() implies precedes(
            #[trigger] r[i].0,
            #[trigger] r[j].0,
        ) by {
            assert(r[i].0 == s[i].0);
            assert(r[j].0 == s[j].0);
        }
    } else {
        if p < s.len() {
            lemma_precedes_total(s[p].0, k);
        }
        assert forall|i: int, j: int| 0 <= i < j < r.len() implies precedes(
            #[trigger] r[i].0,
            #[trigger] r[j].0,
        ) by {
            if j < p {
                assert(r[i] == s[i] && r[j] == s[j]);
            } else if j == p {
                assert(r[i] == s[i]);
            } else if i < p {
                assert(r[i] == s[i] && r[j] == s[j - 1]);
                if j - 1 > p {
                    assert(precedes(s[p].0, s[j - 1].0));
                    lemma_precedes_transitive(k, s[p].0, s[j - 1].0);
                }
                lemma_precedes_transitive(s[i].0, k, s[j - 1].0);
            } else if i == p {
                assert(r[j] == s[j - 1]);
                if j - 1 > p {
                    assert(precedes(s[p].0, s[j - 1].0));
                    lemma_precedes_transitive(k, s[p].0, s[j - 1].0);
                }
            } else {
                assert(r[i] == s[i - 1] && r[j] == s[j - 1]);
            }
        }
    }
}

/// After binding `k` to `v`, `k` gives `v` and every other key gives what
/// it gave before.
pub proof fn lemma_put_lookup<T>(s: Seq<(Seq<char>, T)>, k: Seq<char>, v: T, q: Seq<char>)
    requires
        ascending(s),
    ensures
        lookup(put(s, k, v), q) == (if q == k { Some(v) } else { lookup(s, q) }),
{
    lemma_put_ascending(s, k, v);
    lemma_slot_bounds(s, k);
    let p = slot(s, k);
    let r = put(s, k, v);
    assert(r[p] == (k, v));
    lemma_lookup_index(r, p);
    if q != k {
        if exists|i: int| 0 <= i < s.len() && s[i].0 == q {
            let i = choose|i: int| 0 <= i < s.len() && s[i].0 == q;
            lemma_lookup_index(s, i);
            let ri = if p < s.len() && s[p].0 == k { i } else if i < p { i } else { i + 1 };
            assert(r[ri] == s[i]);
            lemma_lookup_index(r, ri);
        } else {
            lemma_lookup_absent(s, q);
            assert forall|i: int| 0 <= i < r.len() implies #[trigger] r[i].0 != q by {
                if p < s.len() && s[p].0 == k {
                    if i != p {
                        assert(r[i] == s[i]);
                    }
                } else if i < p {
                    assert(r[i] == s[i]);
                } else if i > p {
                    assert(r[i] == s[i - 1]);
                }
            }
            lemma_lookup_absent(r, q);
        }
    }
}

/// Binding `k` to `v` keeps every entry for another key and adds none
/// other than `(k, v)`.
pub proof fn lemma_put_entries<T>(s: Seq<(Seq<char>, T)>, k: Seq<char>, v: T)
    ensures
        forall|i: int| 0 <= i < put(s, k, v).len() ==> #[trigger] put(s, k, v)[i] == (k, v)
            || exists|j: int| 0 <= j < s.len() && put(s, k, v)[i] == s[j],
        forall|j: int| 0 <= j < s.len() && s[j].0 != k ==> exists|i: int| 0 <= i < put(s, k, v).len() && put(s, k, v)[i] == #[trigger] s[j],
        exists|i: int| 0 <= i < put(s, k, v).len() && put(s, k, v)[i] == (k, v),
{
    lemma_slot_bounds(s, k);
    let p = slot(s, k);
    let r = put(s, k, v);
    assert(r[p] == (k, v));
    if p < s.len() && s[p].0 == k {
        assert forall|i: int| 0 <= i < r.len() implies #[trigger] r[i] == (k, v) || exists|j: int| 0 <= j < s.len() && r[i] == s[j] by {
            if i != p {
                assert(r[i] == s[i]);
            }
        }
        assert forall|j: int| 0 <= j < s.len() && s[j].0 != k implies exists|i: int| 0 <= i < r.len() && r[i] == #[trigger] s[j] by {
            assert(r[j] == s[j]);
        }
    } else {
        assert forall|i: int| 0 <= i < r.len() implies #[trigger] r[i] == (k, v) || exists|j: int| 0 <= j < s.len() && r[i] == s[j] by {
            if i < p {
                assert(r[i] == s[i]);
            } else if i > p {
                assert(r[i] == s[i - 1]);
            }
        }
        assert forall|j: int| 0 <= j < s.len() && s[j].0 != k implies exists|i: int| 0 <= i < r.len() && r[i] == #[trigger] s[j] by {
            if j < p {
                assert(r[j] == s[j]);
            } else {
                assert(r[j + 1] == s[j]);
            }
        }
    }
}

/// An ascending list of entries keyed by text; `put` is how it changes.
#[derive(Debug)]
pub struct NameMap<T> {
    entries: Vec<(String, T)>,
}

impl<T> NameMap<T> {
    /// The entries, in ascending key order.
    pub closed spec fn view(&self) -> Seq<(Seq<char>, T)> {
        self.entries@.map_values(|e: (String, T)| (e.0@, e.1))
    }

    #[verifier::type_invariant]
    closed spec fn keys_ascend(self) -> bool {
        ascending(self.view())
    }

    /// Brings into a proof that the keys ascend strictly, so that no key
    /// occurs twice. Does nothing when run.
    pub fn note_ascending(&self)
        ensures
            ascending(self.view()),
    {
        proof {
            use_type_invariant(self);
        }
    }

    /// An empty map.
    pub fn new() -> (m: Self)
        ensures
            m.view() == Seq::<(Seq<char>, T)>::empty(),
    {
        let m = NameMap { entries: Vec::new() };
        assert(m.view() =~= Seq::<(Seq<char>, T)>::empty());
        m
    }

    /// The number of entries.
    pub fn len(&self) -> (n: usize)
        ensures
            n == self.view().len(),
    {
        self.entries.len()
    }

    /// Whether there are no entries.
    pub fn is_empty(&self) -> (b: bool)
        ensures
            b == (self.view().len() == 0),
    {
        self.entries.len() == 0
    }

    /// The key of entry `i`.
    pub fn key_at(&self, i: usize) -> (k: &String)
        requires
            i < self.view().len(),
        ensures
            k@ == self.view()[i as int].0,
    {
        &self.entries[i].0
    }

    /// The value of entry `i`.
    pub fn value_at(&self, i: usize) -> (v: &T)
        requires
            i < self.view().len(),
        ensures
            *v == self.view()[i as int].1,
    {
        &self.entries[i].1
    }

    /// Binds `key` to `value`, replacing the value it had, if any.
    pub fn insert(&mut self, key: String, value: T)
        ensures
            final(self).view() == put(old(self).view(), key@, value),
    {
        proof {
            use_type_invariant(&*self);
        }
        let kc = chars_of(key.as_str());
        let ghost s = self.view();
        let mut p: usize = 0;
        while p < self.entries.len() && chars_precede(&chars_of(self.entries[p].0.as_str()), &kc)
            invariant
                s == self.view(),
                ascending(s),
                kc@ == key@,
                p <= s.len(),
                forall|i: int| 0 <= i < p ==> precedes(#[trigger] s[i].0, key@),
            decreases s.len() - p,
        {
            p = p + 1;
        }
        proof {
            lemma_slot_prefix(s, key@, p as int);
            if (p as int) < s.len() {
                assert(s.skip(p as int)[0] == s[p as int]);
            }
            assert(slot(s, key@) == p);
        }
        let same = p < self.entries.len() && crate::text::chars_equal(
            &chars_of(self.entries[p].0.as_str()),
            &kc,
        );
        proof {
            lemma_put_ascending(s, key@, value);
        }
        let mut entries: Vec<(String, T)> = Vec::new();
        assert(ascending(entries@.map_values(|e: (String, T)| (e.0@, e.1))));
        std::mem::swap(&mut entries, &mut self.entries);
        if same {
            entries.set(p, (key, value));
        } else {
            entries.insert(p, (key, value));
        }
        assert(entries@.map_values(|e: (String, T)| (e.0@, e.1)) =~= put(s, key@, value));
        self.entries = entries;
    }

    /// Adds an entry whose key sorts after every key present.
    pub fn push_last(&mut self, key: String, value: T)
        requires
            forall|i: int| 0 <= i < old(self).view().len() ==> precedes(#[trigger] old(self).view()[i].0, key@),
        ensures
            final(self).view() == old(self).view().push((key@, value)),
    {
        proof {
            use_type_invariant(&*self);
        }
        let ghost s = self.view();
        let mut entries: Vec<(String, T)> = Vec::new();
        assert(ascending(entries@.map_values(|e: (String, T)| (e.0@, e.1))));
        std::mem::swap(&mut entries, &mut self.entries);
        entries.push((key, value));
        assert(entries@.map_values(|e: (String, T)| (e.0@, e.1)) =~= s.push((key@, value)));
        self.entries = entries;
    }

    /// The value bound to `key`, if any.
    pub fn get(&self, key: &str) -> (r: Option<&T>)
        ensures
            match r {
                Some(v) => lookup(self.view(), key@) == Some(*v),
                None => lookup(self.view(), key@) is None,
            },
    {
        proof {
            use_type_invariant(self);
        }
        let kc = chars_of(key);
        let mut i: usize = 0;
        while i < self.entries.len()
            invariant
                kc@ == key@,
                ascending(self.view()),
                i <= self.view().len(),
                forall|j: int| 0 <= j < i ==> #[trigger] self.view()[j].0 != key@,
            decreases self.view().len() - i,
        {
            if crate::text::chars_equal(&chars_of(self.entries[i].0.as_str()), &kc) {
                proof {
                    lemma_lookup_index(self.view(), i as int);
                }
                return Some(&self.entries[i].1);
            }
            i = i + 1;
        }
        proof {
            lemma_lookup_absent(self.view(), key@);
        }
        None
    }

    /// The keys, in ascending order.
    pub fn keys(&self) -> (ks: Vec<String>)
        ensures
            ks@.map_values(|k: String| k@) == keys_of(self.view()),
    {
        let mut ks: Vec<String> = Vec::new();
        let mut i: usize = 0;
        while i < self.entries.len()
            invariant
                i <= self.view().len(),
                ks@.map_values(|k: String| k@) == keys_of(self.view()).take(i as int),
            decreases self.view().len() - i,
        {
            let ghost before = ks@.map_values(|k: String| k@);
            let k = self.entries[i].0.clone();
            assert(self.view()[i as int].0 == k@);
            ks.push(k);
            assert(ks@.map_values(|k: String| k@) =~= before.push(k@));
            assert(ks@.map_values(|k: String| k@) =~= keys_of(self.view()).take(i + 1));
            i = i + 1;
        }
        assert(keys_of(self.view()).take(i as int) =~= keys_of(self.view()));
        ks
    }

    /// The entries, consumed, in ascending key order.
    pub fn into_entries(self) -> (v: Vec<(String, T)>)
        ensures
            v@.map_values(|e: (String, T)| (e.0@, e.1)) == self.view(),
    {
        self.entries
    }
}

impl<T: Clone> Clone for NameMap<T> {
    /// A copy with the same keys, in the same order; each value is copied
    /// by its own `clone`.
    fn clone(&self) -> (c: Self)
        ensures
            keys_of(c.view()) == keys_of(self.view()),
    {
        proof {
            use_type_invariant(self);
        }
        let mut entries: Vec<(String, T)> = Vec::new();
        let mut i: usize = 0;
        while i < self.entries.len()
            invariant
                i <= self.entries@.len(),
                ascending(self.view()),
                entries@.len() == i,
                forall|j: int| 0 <= j < i ==> #[trigger] entries@[j].0@ == self.entries@[j].0@,
            decreases self.entries@.len() - i,
        {
            let k = self.entries[i].0.clone();
            let v = self.entries[i].1.clone();
            entries.push((k, v));
            i = i + 1;
        }
        let ghost cv = entries@.map_values(|e: (String, T)| (e.0@, e.1));
        assert forall|a: int, b: int| 0 <= a < b < cv.len() implies precedes(
            #[trigger] cv[a].0,
            #[trigger] cv[b].0,
        ) by {
            assert(cv[a].0 == self.view()[a].0);
            assert(cv[b].0 == self.view()[b].0);
        }
        let c = NameMap { entries };
        assert(keys_of(c.view()) =~= keys_of(self.view()));
        c
    }
}

/// A key bound in a map stays bound, to the new value, after a later
/// `insert` of the same key; other keys keep their values.
pub proof fn law_read_after_insert<T>(m: Seq<(Seq<char>, T)>, k: Seq<char>, v: T, q: Seq<char>)
    requires
        ascending(m),
    ensures
        ascending(put(m, k, v)),
        lookup(put(m, k, v), k) == Some(v),
        q != k ==> lookup(put(m, k, v), q) == lookup(m, q),
{
    lemma_put_ascending(m, k, v);
    lemma_put_lookup(m, k, v, k);
    lemma_put_lookup(m, k, v, q);
}

} // verus!
