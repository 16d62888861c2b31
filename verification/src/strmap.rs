//! Maps keyed by strings, kept in the lexicographic order of their keys.
use vstd::prelude::*;
use crate::text::chars_of;

verus! {

/// Lexicographic order of character sequences, by code point.
pub open spec fn key_lt(a: Seq<char>, b: Seq<char>) -> bool
    decreases a.len(),
{
    if a.len() == 0 {
        b.len() > 0
    } else if b.len() == 0 {
        false
    } else if a[0] != b[0] {
        a[0] < b[0]
    } else {
        key_lt(a.drop_first(), b.drop_first())
    }
}

pub proof fn lemma_key_lt_irrefl(a: Seq<char>)
    ensures
        !key_lt(a, a),
    decreases a.len(),
{
    if a.len() > 0 {
        lemma_key_lt_irrefl(a.drop_first());
    }
}

pub proof fn lemma_key_lt_asym(a: Seq<char>, b: Seq<char>)
    ensures
        !(key_lt(a, b) && key_lt(b, a)),
    decreases a.len(),
{
    if a.len() > 0 && b.len() > 0 && a[0] == b[0] {
        lemma_key_lt_asym(a.drop_first(), b.drop_first());
    }
}

pub proof fn lemma_key_lt_total(a: Seq<char>, b: Seq<char>)
    ensures
        a == b || key_lt(a, b) || key_lt(b, a),
    decreases a.len(),
{
    if a.len() > 0 && b.len() > 0 && a[0] == b[0] {
        lemma_key_lt_total(a.drop_first(), b.drop_first());
        if a.drop_first() == b.drop_first() {
            assert(a =~= seq![a[0]] + a.drop_first());
            assert(b =~= seq![b[0]] + b.drop_first());
        }
    } else if a.len() == 0 && b.len() == 0 {
        assert(a =~= b);
    }
}

pub proof fn lemma_key_lt_trans(a: Seq<char>, b: Seq<char>, c: Seq<char>)
    requires
        key_lt(a, b),
        key_lt(b, c),
    ensures
        key_lt(a, c),
    decreases a.len(),
{
    if a.len() > 0 && b.len() > 0 && c.len() > 0 && a[0] == b[0] && b[0] == c[0] {
        lemma_key_lt_trans(a.drop_first(), b.drop_first(), c.drop_first());
    }
}

/// `a` sorts before `b` (for exec use).
pub fn key_less(a: &[char], b: &[char]) -> (r: bool)
    ensures
        r == key_lt(a@, b@),
{
    let mut i: usize = 0;
    assert(a@.skip(0) =~= a@);
    assert(b@.skip(0) =~= b@);
    while i < a.len() && i < b.len() && a[i] == b[i]
        invariant
            0 <= i <= a@.len(),
            i <= b@.len(),
            key_lt(a@.skip(i as int), b@.skip(i as int)) == key_lt(a@, b@),
        decreases a@.len() - i,
    {
        proof {
            assert(a@.skip(i as int).drop_first() =~= a@.skip(i + 1));
            assert(b@.skip(i as int).drop_first() =~= b@.skip(i + 1));
        }
        i = i + 1;
    }
    if i == a.len() {
        i < b.len()
    } else if i == b.len() {
        false
    } else {
        a[i] < b[i]
    }
}

/// Insertion that replaces an entry with the same key.
pub open spec fn ins<V>(s: Seq<(Seq<char>, V)>, k: Seq<char>, v: V) -> Seq<(Seq<char>, V)>
    decreases s.len(),
{
    if s.len() == 0 {
        seq![(k, v)]
    } else if s[0].0 == k {
        seq![(k, v)] + s.drop_first()
    } else if key_lt(k, s[0].0) {
        seq![(k, v)] + s
    } else {
        seq![s[0]] + ins(s.drop_first(), k, v)
    }
}

/// Insertion that keeps an entry with the same key.
pub open spec fn ins_absent<V>(s: Seq<(Seq<char>, V)>, k: Seq<char>, v: V) -> Seq<
    (Seq<char>, V),
>
    decreases s.len(),
{
    if s.len() == 0 {
        seq![(k, v)]
    } else if s[0].0 == k {
        s
    } else if key_lt(k, s[0].0) {
        seq![(k, v)] + s
    } else {
        seq![s[0]] + ins_absent(s.drop_first(), k, v)
    }
}

/// The value stored under `k`: the scan from the front stops at the first key
/// that does not sort before `k`.
pub open spec fn lookup<V>(s: Seq<(Seq<char>, V)>, k: Seq<char>) -> Option<V>
    decreases s.len(),
{
    if s.len() == 0 {
        None
    } else if s[0].0 == k {
        Some(s[0].1)
    } else if key_lt(k, s[0].0) {
        None
    } else {
        lookup(s.drop_first(), k)
    }
}

/// The keys are strictly increasing.
pub open spec fn sorted_keys<V>(s: Seq<(Seq<char>, V)>) -> bool {
    forall|i: int, j: int| 0 <= i < j < s.len() ==> key_lt(#[trigger] s[i].0, #[trigger] s[j].0)
}

/// Where the scan for `k` stops: all keys before `i` sort before `k`, and the
/// key at `i`, if any, does not.
proof fn lemma_ins_at<V>(s: Seq<(Seq<char>, V)>, k: Seq<char>, v: V, i: int)
    requires
        0 <= i <= s.len(),
        forall|j: int| 0 <= j < i ==> key_lt(#[trigger] s[j].0, k),
        i < s.len() ==> !key_lt(s[i].0, k),
    ensures
        i < s.len() && s[i].0 == k ==> ins(s, k, v) == s.take(i) + seq![(k, v)] + s.skip(i + 1),
        !(i < s.len() && s[i].0 == k) ==> ins(s, k, v) == s.take(i) + seq![(k, v)] + s.skip(i),
        i < s.len() && s[i].0 == k ==> ins_absent(s, k, v) == s,
        !(i < s.len() && s[i].0 == k) ==> ins_absent(s, k, v) == s.take(i) + seq![(k, v)]
            + s.skip(i),
        i < s.len() && s[i].0 == k ==> lookup(s, k) == Some(s[i].1),
        !(i < s.len() && s[i].0 == k) ==> lookup(s, k) is None,
    decreases i,
{
    if i == 0 {
        if s.len() > 0 && s[0].0 != k {
            lemma_key_lt_total(s[0].0, k);
        }
        assert(s.take(0) + seq![(k, v)] + s.skip(0) =~= seq![(k, v)] + s);
        assert(s.take(0) + seq![(k, v)] + s.skip(1) =~= seq![(k, v)] + s.drop_first());
    } else {
        let t = s.drop_first();
        assert forall|j: int| 0 <= j < i - 1 implies key_lt(#[trigger] t[j].0, k) by {
            assert(t[j] == s[j + 1]);
        }
        lemma_ins_at(t, k, v, i - 1);
        lemma_key_lt_irrefl(k);
        lemma_key_lt_asym(s[0].0, k);
        assert(s.take(i) =~= seq![s[0]] + t.take(i - 1));
        assert(s.skip(i) =~= t.skip(i - 1));
        if i < s.len() {
            assert(s.skip(i + 1) =~= t.skip(i));
        }
        assert(s =~= seq![s[0]] + t);
    }
}

pub open spec fn has_key<V>(s: Seq<(Seq<char>, V)>, x: Seq<char>) -> bool {
    exists|i: int| 0 <= i < s.len() && #[trigger] s[i].0 == x
}

proof fn lemma_has_key_cons<V>(h: (Seq<char>, V), t: Seq<(Seq<char>, V)>, x: Seq<char>)
    ensures
        has_key(seq![h] + t, x) <==> (h.0 == x || has_key(t, x)),
{
    let s = seq![h] + t;
    if has_key(s, x) {
        let i = choose|i: int| 0 <= i < s.len() && #[trigger] s[i].0 == x;
        if i > 0 {
            assert(t[i - 1].0 == x);
        }
    }
    if has_key(t, x) {
        let i = choose|i: int| 0 <= i < t.len() && #[trigger] t[i].0 == x;
        assert(s[i + 1].0 == x);
    }
    if h.0 == x {
        assert(s[0].0 == x);
    }
}

/// Inserting adds exactly the inserted key.
pub proof fn lemma_ins_keys<V>(s: Seq<(Seq<char>, V)>, k: Seq<char>, v: V, x: Seq<char>)
    ensures
        has_key(ins(s, k, v), x) <==> (has_key(s, x) || x == k),
        has_key(ins_absent(s, k, v), x) <==> (has_key(s, x) || x == k),
    decreases s.len(),
{
    if s.len() == 0 {
        assert(ins(s, k, v) =~= seq![(k, v)] + s);
        lemma_has_key_cons((k, v), s, x);
    } else {
        assert(s =~= seq![s[0]] + s.drop_first());
        lemma_has_key_cons(s[0], s.drop_first(), x);
        lemma_has_key_cons((k, v), s.drop_first(), x);
        lemma_has_key_cons((k, v), s, x);
        lemma_ins_keys(s.drop_first(), k, v, x);
        lemma_has_key_cons(s[0], ins(s.drop_first(), k, v), x);
        lemma_has_key_cons(s[0], ins_absent(s.drop_first(), k, v), x);
    }
}

proof fn lemma_sorted_cons<V>(h: (Seq<char>, V), t: Seq<(Seq<char>, V)>)
    requires
        sorted_keys(t),
        forall|x: Seq<char>| has_key(t, x) ==> key_lt(h.0, x),
    ensures
        sorted_keys(seq![h] + t),
{
    let s = seq![h] + t;
    assert forall|i: int, j: int| 0 <= i < j < s.len() implies key_lt(
        #[trigger] s[i].0,
        #[trigger] s[j].0,
    ) by {
        if i == 0 {
            assert(t[j - 1].0 == s[j].0);
            assert(has_key(t, s[j].0));
        } else {
            assert(s[i] == t[i - 1] && s[j] == t[j - 1]);
        }
    }
}

/// Insertion keeps the keys strictly increasing.
pub proof fn lemma_ins_sorted<V>(s: Seq<(Seq<char>, V)>, k: Seq<char>, v: V)
    requires
        sorted_keys(s),
    ensures
        sorted_keys(ins(s, k, v)),
        sorted_keys(ins_absent(s, k, v)),
    decreases s.len(),
{
    if s.len() == 0 {
        assert(sorted_keys(seq![(k, v)]));
    } else {
        let t = s.drop_first();
        assert(s =~= seq![s[0]] + t);
        assert(sorted_keys(t)) by {
            assert forall|i: int, j: int| 0 <= i < j < t.len() implies key_lt(
                #[trigger] t[i].0,
                #[trigger] t[j].0,
            ) by {
                assert(t[i] == s[i + 1] && t[j] == s[j + 1]);
            }
        }
        assert forall|x: Seq<char>| has_key(t, x) implies key_lt(s[0].0, x) by {
            let i = choose|i: int| 0 <= i < t.len() && #[trigger] t[i].0 == x;
            assert(s[i + 1] == t[i]);
        }
        if s[0].0 == k {
            lemma_sorted_cons((k, v), t);
        } else if key_lt(k, s[0].0) {
            assert forall|x: Seq<char>| has_key(s, x) implies key_lt(k, x) by {
                let i = choose|i: int| 0 <= i < s.len() && #[trigger] s[i].0 == x;
                if i > 0 {
                    lemma_key_lt_trans(k, s[0].0, x);
                }
            }
            lemma_sorted_cons((k, v), s);
        } else {
            lemma_key_lt_total(s[0].0, k);
            lemma_ins_sorted(t, k, v);
            assert forall|x: Seq<char>| has_key(ins(t, k, v), x) implies key_lt(s[0].0, x) by {
                lemma_ins_keys(t, k, v, x);
            }
            assert forall|x: Seq<char>| has_key(ins_absent(t, k, v), x) implies key_lt(
                s[0].0,
                x,
            ) by {
                lemma_ins_keys(t, k, v, x);
            }
            lemma_sorted_cons(s[0], ins(t, k, v));
            lemma_sorted_cons(s[0], ins_absent(t, k, v));
        }
    }
}

/// What is stored under a key after an insertion: the inserted value under
/// the inserted key, and under every other key what was there before.
pub proof fn lemma_lookup_ins<V>(s: Seq<(Seq<char>, V)>, k: Seq<char>, v: V, x: Seq<char>)
    ensures
        lookup(ins(s, k, v), x) == (if x == k {
            Some(v)
        } else {
            lookup(s, x)
        }),
    decreases s.len(),
{
    lemma_key_lt_irrefl(x);
    lemma_key_lt_irrefl(k);
    if s.len() == 0 {
        assert(ins(s, k, v).drop_first() =~= s);
    } else if s[0].0 == k {
        assert(ins(s, k, v).drop_first() =~= s.drop_first());
    } else if key_lt(k, s[0].0) {
        assert(ins(s, k, v).drop_first() =~= s);
        if key_lt(x, k) {
            lemma_key_lt_trans(x, k, s[0].0);
        }
    } else {
        let t = s.drop_first();
        lemma_lookup_ins(t, k, v, x);
        assert(ins(s, k, v).drop_first() =~= ins(t, k, v));
        assert(ins(s, k, v)[0] == s[0]);
        if x == k {
            lemma_key_lt_total(k, s[0].0);
        }
    }
}

/// What is stored under a key after an insertion that keeps an existing
/// entry: the inserted value under a key that was absent, and under every
/// other key what was there before.
pub proof fn lemma_lookup_ins_absent<V>(s: Seq<(Seq<char>, V)>, k: Seq<char>, v: V, x: Seq<char>)
    ensures
        lookup(ins_absent(s, k, v), x) == (if x == k && lookup(s, k) is None {
            Some(v)
        } else {
            lookup(s, x)
        }),
    decreases s.len(),
{
    lemma_key_lt_irrefl(x);
    lemma_key_lt_irrefl(k);
    if s.len() == 0 {
        assert(ins_absent(s, k, v).drop_first() =~= s);
    } else if s[0].0 == k {
    } else if key_lt(k, s[0].0) {
        assert(ins_absent(s, k, v).drop_first() =~= s);
        if key_lt(x, k) {
            lemma_key_lt_trans(x, k, s[0].0);
        }
    } else {
        let t = s.drop_first();
        lemma_lookup_ins_absent(t, k, v, x);
        assert(ins_absent(s, k, v).drop_first() =~= ins_absent(t, k, v));
        assert(ins_absent(s, k, v)[0] == s[0]);
        if x == k {
            lemma_key_lt_total(k, s[0].0);
        }
    }
}

/// A map from strings to values, with strictly increasing keys.
#[derive(Debug, PartialEq, Eq)]
pub struct StrMap<V> {
    pub entries: Vec<(String, V)>,
}

pub open spec fn entries_view<V: View>(s: Seq<(String, V)>) -> Seq<(Seq<char>, V::V)> {
    s.map_values(|e: (String, V)| (e.0@, e.1@))
}

impl<V: View> StrMap<V> {
    pub open spec fn model(&self) -> Seq<(Seq<char>, V::V)> {
        entries_view(self.entries@)
    }

    pub fn new() -> (m: Self)
        ensures
            m.model() == Seq::<(Seq<char>, V::V)>::empty(),
    {
        let m = StrMap { entries: Vec::new() };
        assert(m.model() =~= Seq::<(Seq<char>, V::V)>::empty());
        m
    }

    /// The position where the scan for `k` stops.
    fn position(&self, k: &[char]) -> (i: usize)
        ensures
            i <= self.entries@.len(),
            forall|j: int| 0 <= j < i ==> key_lt(#[trigger] self.model()[j].0, k@),
            i < self.entries@.len() ==> !key_lt(self.model()[i as int].0, k@),
    {
        let mut i: usize = 0;
        while i < self.entries.len()
            invariant
                i <= self.entries@.len(),
                forall|j: int| 0 <= j < i ==> key_lt(#[trigger] self.model()[j].0, k@),
            decreases self.entries@.len() - i,
        {
            let key = chars_of(self.entries[i].0.as_str());
            if !key_less(key.as_slice(), k) {
                return i;
            }
            i = i + 1;
        }
        i
    }

    /// Stores `v` under `k`, replacing and returning what was stored there.
    pub fn insert(&mut self, k: String, v: V) -> (previous: Option<V>)
        ensures
            final(self).model() == ins(old(self).model(), k@, v@),
            sorted_keys(old(self).model()) ==> sorted_keys(final(self).model()),
            match lookup(old(self).model(), k@) {
                Some(x) => previous matches Some(p) && p@ == x,
                None => previous is None,
            },
    {
        let kc = chars_of(k.as_str());
        let i = self.position(kc.as_slice());
        let ghost s = self.model();
        proof {
            lemma_ins_at(s, k@, v@, i as int);
            if sorted_keys(s) {
                lemma_ins_sorted(s, k@, v@);
            }
        }
        if i < self.entries.len() && crate::text::string_eq_string(&self.entries[i].0, &k) {
            let old_entry = self.entries.remove(i);
            self.entries.insert(i, (k, v));
            proof {
                assert(self.model() =~= s.take(i as int) + seq![(k@, v@)] + s.skip(i + 1));
            }
            Some(old_entry.1)
        } else {
            self.entries.insert(i, (k, v));
            proof {
                assert(self.model() =~= s.take(i as int) + seq![(k@, v@)] + s.skip(i as int));
            }
            None
        }
    }

    /// Stores `v` under `k` unless something is stored there already.
    pub fn insert_absent(&mut self, k: String, v: V)
        ensures
            final(self).model() == ins_absent(old(self).model(), k@, v@),
            sorted_keys(old(self).model()) ==> sorted_keys(final(self).model()),
    {
        let kc = chars_of(k.as_str());
        let i = self.position(kc.as_slice());
        let ghost s = self.model();
        proof {
            lemma_ins_at(s, k@, v@, i as int);
            if sorted_keys(s) {
                lemma_ins_sorted(s, k@, v@);
            }
        }
        if i < self.entries.len() && crate::text::string_eq_string(&self.entries[i].0, &k) {
        } else {
            self.entries.insert(i, (k, v));
            proof {
                assert(self.model() =~= s.take(i as int) + seq![(k@, v@)] + s.skip(i as int));
            }
        }
    }

    /// The value stored under `k`.
    pub fn get(&self, k: &str) -> (r: Option<&V>)
        ensures
            match lookup(self.model(), k@) {
                Some(x) => r matches Some(p) && p@ == x,
                None => r is None,
            },
    {
        let kc = chars_of(k);
        self.get_chars(kc.as_slice())
    }

    /// The value stored under the key with characters `k`.
    pub fn get_chars(&self, k: &[char]) -> (r: Option<&V>)
        ensures
            match lookup(self.model(), k@) {
                Some(x) => r matches Some(p) && p@ == x,
                None => r is None,
            },
    {
        let i = self.position(k);
        proof {
            lemma_ins_at(self.model(), k@, arbitrary(), i as int);
        }
        if i < self.entries.len() {
            let key = chars_of(self.entries[i].0.as_str());
            if crate::text::chars_eq(key.as_slice(), k) {
                return Some(&self.entries[i].1);
            }
        }
        None
    }
}

} // verus!
