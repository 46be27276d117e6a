use vstd::prelude::*;

use crate::text::chars_of;

verus! {

/// Lexicographic order of character sequences by code point, which is the order of `String`
/// (byte-wise comparison of UTF-8 preserves code-point order).
pub open spec fn label_lt(a: Seq<char>, b: Seq<char>) -> bool
    decreases a.len(),
{
    if a.len() == 0 {
        b.len() > 0
    } else if b.len() == 0 {
        false
    } else if a[0] != b[0] {
        a[0] < b[0]
    } else {
        label_lt(a.drop_first(), b.drop_first())
    }
}

/// `label_lt` is irreflexive.
pub proof fn lemma_label_lt_irreflexive(a: Seq<char>)
    ensures
        !label_lt(a, a),
    decreases a.len(),
{
    if a.len() > 0 {
        lemma_label_lt_irreflexive(a.drop_first());
    }
}

/// `label_lt` is transitive.
pub proof fn lemma_label_lt_transitive(a: Seq<char>, b: Seq<char>, c: Seq<char>)
    requires
        label_lt(a, b),
        label_lt(b, c),
    ensures
        label_lt(a, c),
    decreases a.len(),
{
    if a.len() > 0 && b.len() > 0 && c.len() > 0 && a[0] == b[0] && b[0] == c[0] {
        lemma_label_lt_transitive(a.drop_first(), b.drop_first(), c.drop_first());
    }
}

/// Any two different labels are ordered one way or the other.
pub proof fn lemma_label_lt_total(a: Seq<char>, b: Seq<char>)
    ensures
        a == b || label_lt(a, b) || label_lt(b, a),
    decreases a.len(),
{
    if a.len() > 0 && b.len() > 0 {
        if a[0] == b[0] {
            lemma_label_lt_total(a.drop_first(), b.drop_first());
            if a.drop_first() == b.drop_first() {
                assert(a =~= seq![a[0]] + a.drop_first());
                assert(b =~= seq![b[0]] + b.drop_first());
            }
        }
    } else if a.len() == 0 && b.len() == 0 {
        assert(a =~= b);
    }
}

/// `label_lt` is asymmetric.
pub proof fn lemma_label_lt_asymmetric(a: Seq<char>, b: Seq<char>)
    requires
        label_lt(a, b),
    ensures
        !label_lt(b, a),
{
    if label_lt(b, a) {
        lemma_label_lt_transitive(a, b, a);
        lemma_label_lt_irreflexive(a);
    }
}

/// Whether `a` sorts before `b`.
pub fn chars_lt(a: &[char], b: &[char]) -> (r: bool)
    ensures
        r == label_lt(a@, b@),
{
    let mut k: usize = 0;
    while k < a.len() && k < b.len() && a[k] == b[k]
        invariant
            k <= a.len(),
            k <= b.len(),
            a@.take(k as int) == b@.take(k as int),
        decreases a.len() - k,
    {
        assert(a@.take(k + 1) =~= a@.take(k as int).push(a@[k as int]));
        assert(b@.take(k + 1) =~= b@.take(k as int).push(b@[k as int]));
        k = k + 1;
    }
    proof {
        lemma_label_lt_common_prefix(a@, b@, k as int);
    }
    if k == a.len() {
        k < b.len()
    } else if k == b.len() {
        false
    } else {
        a[k] < b[k]
    }
}

proof fn lemma_label_lt_common_prefix(a: Seq<char>, b: Seq<char>, k: int)
    requires
        0 <= k <= a.len(),
        k <= b.len(),
        a.take(k) == b.take(k),
    ensures
        label_lt(a, b) == label_lt(a.skip(k), b.skip(k)),
    decreases k,
{
    if k > 0 {
        assert(a[0] == a.take(k)[0]);
        assert(b[0] == b.take(k)[0]);
        assert(a.drop_first().take(k - 1) =~= a.take(k).drop_first());
        assert(b.drop_first().take(k - 1) =~= b.take(k).drop_first());
        lemma_label_lt_common_prefix(a.drop_first(), b.drop_first(), k - 1);
        assert(a.drop_first().skip(k - 1) =~= a.skip(k));
        assert(b.drop_first().skip(k - 1) =~= b.skip(k));
    } else {
        assert(a.skip(0) =~= a);
        assert(b.skip(0) =~= b);
    }
}

/// Whether `keys` is strictly increasing.
pub open spec fn sorted_labels(keys: Seq<Seq<char>>) -> bool {
    forall|i: int, j: int| 0 <= i < j < keys.len() ==> label_lt(#[trigger] keys[i], #[trigger] keys[j])
}

/// Two increasing sequences of labels with the same members are equal.
pub proof fn lemma_sorted_unique(a: Seq<Seq<char>>, b: Seq<Seq<char>>)
    requires
        sorted_labels(a),
        sorted_labels(b),
        forall|k: Seq<char>| a.contains(k) <==> b.contains(k),
    ensures
        a == b,
    decreases a.len(),
{
    if a.len() == 0 {
        if b.len() > 0 {
            assert(b.contains(b[0]));
        }
        assert(a =~= b);
    } else {
        assert(a.contains(a[0]));
        let j = choose|j: int| 0 <= j < b.len() && b[j] == a[0];
        assert(b.contains(b[0]));
        let i = choose|i: int| 0 <= i < a.len() && a[i] == b[0];
        if j > 0 {
            assert(label_lt(b[0], b[j]));
            if i > 0 {
                assert(label_lt(a[0], a[i]));
                lemma_label_lt_asymmetric(a[0], b[0]);
            } else {
                lemma_label_lt_irreflexive(a[0]);
            }
        }
        let a1 = a.drop_first();
        let b1 = b.drop_first();
        assert forall|k: Seq<char>| a1.contains(k) <==> b1.contains(k) by {
            if a1.contains(k) {
                let p = choose|p: int| 0 <= p < a1.len() && a1[p] == k;
                assert(a[p + 1] == k);
                assert(label_lt(a[0], a[p + 1]));
                lemma_label_lt_irreflexive(k);
                assert(b.contains(k));
                let q = choose|q: int| 0 <= q < b.len() && b[q] == k;
                assert(q != 0);
                assert(b1[q - 1] == k);
            }
            if b1.contains(k) {
                let p = choose|p: int| 0 <= p < b1.len() && b1[p] == k;
                assert(b[p + 1] == k);
                assert(label_lt(b[0], b[p + 1]));
                lemma_label_lt_irreflexive(k);
                assert(a.contains(k));
                let q = choose|q: int| 0 <= q < a.len() && a[q] == k;
                assert(q != 0);
                assert(a1[q - 1] == k);
            }
        }
        assert forall|x: int, y: int| 0 <= x < y < a1.len() implies label_lt(#[trigger] a1[x], #[trigger] a1[y]) by {
            assert(a1[x] == a[x + 1]);
            assert(a1[y] == a[y + 1]);
        }
        assert forall|x: int, y: int| 0 <= x < y < b1.len() implies label_lt(#[trigger] b1[x], #[trigger] b1[y]) by {
            assert(b1[x] == b[x + 1]);
            assert(b1[y] == b[y + 1]);
        }
        lemma_sorted_unique(a1, b1);
        assert(j == 0);
        assert(a =~= seq![a[0]] + a1);
        assert(b =~= seq![b[0]] + b1);
    }
}

/// The map from each key to its value.
pub open spec fn keyed_map<T>(keys: Seq<Seq<char>>, vals: Seq<T>) -> Map<Seq<char>, T>
    decreases keys.len(),
{
    if keys.len() == 0 || vals.len() == 0 {
        Map::empty()
    } else {
        keyed_map(keys.drop_last(), vals.drop_last()).insert(keys.last(), vals.last())
    }
}

/// The keys of `entries`.
pub open spec fn keys_of<T>(entries: Seq<(String, T)>) -> Seq<Seq<char>> {
    entries.map_values(|e: (String, T)| e.0@)
}

/// The values of `entries`.
pub open spec fn vals_of<T>(entries: Seq<(String, T)>) -> Seq<T> {
    entries.map_values(|e: (String, T)| e.1)
}

/// A map keyed by labels, walked in label order.
#[derive(Debug)]
pub struct LabelMap<T> {
    entries: Vec<(String, T)>,
}

impl<T> LabelMap<T> {
    /// The keys, in increasing order.
    pub closed spec fn key_seq(&self) -> Seq<Seq<char>> {
        keys_of(self.entries@)
    }

    /// The values, in the order of their keys.
    pub closed spec fn val_seq(&self) -> Seq<T> {
        vals_of(self.entries@)
    }

    #[verifier::type_invariant]
    closed spec fn wf(&self) -> bool {
        sorted_labels(self.key_seq())
    }
}

impl<T> View for LabelMap<T> {
    type V = Map<Seq<char>, T>;

    closed spec fn view(&self) -> Map<Seq<char>, T> {
        keyed_map(self.key_seq(), self.val_seq())
    }
}

proof fn lemma_keyed_map_facts<T>(keys: Seq<Seq<char>>, vals: Seq<T>)
    requires
        keys.len() == vals.len(),
        sorted_labels(keys),
    ensures
        forall|k: Seq<char>| keyed_map(keys, vals).contains_key(k) <==> keys.contains(k),
        forall|i: int| 0 <= i < keys.len() ==> keyed_map(keys, vals)[#[trigger] keys[i]] == vals[i],
    decreases keys.len(),
{
    if keys.len() > 0 {
        let pk = keys.drop_last();
        let pv = vals.drop_last();
        lemma_keyed_map_facts(pk, pv);
        assert forall|k: Seq<char>| keyed_map(keys, vals).contains_key(k) <==> keys.contains(k) by {
            if keys.contains(k) && k != keys.last() {
                let i = choose|i: int| 0 <= i < keys.len() && keys[i] == k;
                assert(pk[i] == k);
            }
            if pk.contains(k) {
                let i = choose|i: int| 0 <= i < pk.len() && pk[i] == k;
                assert(keys[i] == k);
            }
        }
        assert forall|i: int| 0 <= i < keys.len() implies keyed_map(keys, vals)[#[trigger] keys[i]]
            == vals[i] by {
            if i < keys.len() - 1 {
                assert(label_lt(keys[i], keys[keys.len() - 1]));
                lemma_label_lt_irreflexive(keys[i]);
                assert(pk[i] == keys[i]);
            }
        }
    }
}

impl<T> LabelMap<T> {
    /// An empty map.
    pub fn new() -> (m: LabelMap<T>)
        ensures
            m@ == Map::<Seq<char>, T>::empty(),
            m.key_seq().len() == 0,
    {
        let m = LabelMap { entries: Vec::new() };
        assert(m.key_seq() =~= Seq::<Seq<char>>::empty());
        m
    }

    /// The number of entries.
    pub fn len(&self) -> (n: usize)
        ensures
            n == self@.dom().len(),
            n == self.key_seq().len(),
    {
        proof {
            use_type_invariant(self);
            self.lemma_view();
        }
        self.entries.len()
    }

    /// Whether the map has no entry.
    pub fn is_empty(&self) -> (b: bool)
        ensures
            b == (self@.dom().len() == 0),
    {
        self.len() == 0
    }

    /// The facts that tie the view to the ordered keys and values.
    pub proof fn lemma_view(&self)
        requires
            sorted_labels(self.key_seq()),
        ensures
            self.key_seq().len() == self.val_seq().len(),
            forall|k: Seq<char>| self@.contains_key(k) <==> self.key_seq().contains(k),
            forall|i: int| 0 <= i < self.key_seq().len() ==> self@[#[trigger] self.key_seq()[i]] == self.val_seq()[i],
            self@.dom().finite(),
            self@.dom().len() == self.key_seq().len(),
    {
        lemma_keyed_map_facts(self.key_seq(), self.val_seq());
        lemma_dom_len(self.key_seq(), self.val_seq());
    }

    /// The keys, in increasing order.
    pub fn keys(&self) -> (r: Vec<&String>)
        ensures
            r@.len() == self.key_seq().len(),
            forall|i: int| 0 <= i < r@.len() ==> (#[trigger] r@[i])@ == self.key_seq()[i],
            sorted_labels(self.key_seq()),
            forall|k: Seq<char>| self@.contains_key(k) <==> self.key_seq().contains(k),
    {
        proof {
            use_type_invariant(self);
            self.lemma_view();
        }
        let mut r: Vec<&String> = Vec::new();
        let mut i: usize = 0;
        while i < self.entries.len()
            invariant
                i <= self.entries.len(),
                r@.len() == i,
                forall|j: int| 0 <= j < i ==> (#[trigger] r@[j])@ == self.key_seq()[j],
            decreases self.entries.len() - i,
        {
            r.push(&self.entries[i].0);
            i = i + 1;
        }
        r
    }

    /// The values, in the order of their keys.
    pub fn values(&self) -> (r: Vec<&T>)
        ensures
            r@.len() == self.key_seq().len(),
            forall|i: int| 0 <= i < r@.len() ==> *(#[trigger] r@[i]) == self@[self.key_seq()[i]],
            sorted_labels(self.key_seq()),
            forall|k: Seq<char>| self@.contains_key(k) <==> self.key_seq().contains(k),
    {
        proof {
            use_type_invariant(self);
            self.lemma_view();
        }
        let mut r: Vec<&T> = Vec::new();
        let mut i: usize = 0;
        while i < self.entries.len()
            invariant
                i <= self.entries.len(),
                r@.len() == i,
                self.key_seq().len() == self.val_seq().len(),
                forall|j: int| 0 <= j < self.key_seq().len() ==> self@[#[trigger] self.key_seq()[j]] == self.val_seq()[j],
                forall|j: int| 0 <= j < i ==> *(#[trigger] r@[j]) == self@[self.key_seq()[j]],
            decreases self.entries.len() - i,
        {
            r.push(&self.entries[i].1);
            i = i + 1;
        }
        r
    }

    /// The position of `key` among the entries, if it is there.
    fn position(&self, key: &[char]) -> (r: Option<usize>)
        ensures
            r matches Some(i) ==> i < self.key_seq().len() && self.key_seq()[i as int] == key@,
            r is None ==> !self.key_seq().contains(key@),
    {
        let mut i: usize = 0;
        while i < self.entries.len()
            invariant
                i <= self.entries.len(),
                forall|j: int| 0 <= j < i ==> self.key_seq()[j] != key@,
            decreases self.entries.len() - i,
        {
            let k = chars_of(self.entries[i].0.as_str());
            if crate::text::eq_range(&k, 0, k.len(), key) {
                assert(k@.subrange(0, k.len() as int) =~= k@);
                return Some(i);
            }
            assert(k@.subrange(0, k.len() as int) =~= k@);
            i = i + 1;
        }
        None
    }

    /// The value stored under `key`.
    pub fn get(&self, key: &str) -> (r: Option<&T>)
        ensures
            r is Some <==> self@.contains_key(key@),
            r matches Some(v) ==> *v == self@[key@],
    {
        proof {
            use_type_invariant(self);
            self.lemma_view();
        }
        let k = chars_of(key);
        match self.position(&k) {
            Some(i) => {
                assert(self.key_seq()[i as int] == key@);
                assert(self.key_seq().contains(key@));
                Some(&self.entries[i].1)
            },
            None => None,
        }
    }

    /// Whether `key` has a value.
    pub fn contains_key(&self, key: &str) -> (b: bool)
        ensures
            b == self@.contains_key(key@),
    {
        self.get(key).is_some()
    }

    /// Stores `value` under `key`, replacing the value that was there.
    pub fn insert(&mut self, key: String, value: T)
        ensures
            final(self)@ == old(self)@.insert(key@, value),
    {
        proof {
            use_type_invariant(&*self);
            self.lemma_view();
        }
        let ghost old_map = self@;
        let mut entries: Vec<(String, T)> = Vec::new();
        std::mem::swap(&mut entries, &mut self.entries);
        let ghost old_keys = keys_of(entries@);
        let ghost old_vals = vals_of(entries@);
        assert(old_map == keyed_map(old_keys, old_vals));
        let kc = chars_of(key.as_str());
        let mut i: usize = 0;
        let mut stop = false;
        while i < entries.len() && !stop
            invariant
                i <= entries.len(),
                old_keys == keys_of(entries@),
                sorted_labels(old_keys),
                forall|j: int| 0 <= j < i ==> label_lt(#[trigger] old_keys[j], kc@),
                stop ==> i < entries.len() && !label_lt(old_keys[i as int], kc@),
            decreases entries.len() - i + (if stop { 0int } else { 1int }),
        {
            let ek = chars_of(entries[i].0.as_str());
            if !chars_lt(&ek, &kc) {
                stop = true;
            } else {
                i = i + 1;
            }
        }
        let found = if i < entries.len() {
            let ek = chars_of(entries[i].0.as_str());
            let same = crate::text::eq_range(&ek, 0, ek.len(), &kc);
            assert(ek@.subrange(0, ek.len() as int) =~= ek@);
            same
        } else {
            false
        };
        if found {
            entries.remove(i);
            entries.insert(i, (key, value));
            proof {
                assert(keys_of(entries@) =~= old_keys);
                assert(vals_of(entries@) =~= old_vals.update(i as int, value));
                let nm = keyed_map(keys_of(entries@), vals_of(entries@));
                lemma_keyed_map_facts(keys_of(entries@), vals_of(entries@));
                lemma_keyed_map_facts(old_keys, old_vals);
                assert(old_keys[i as int] == kc@);
                assert(keys_of(entries@) == old_keys);
                assert forall|k: Seq<char>| #[trigger] nm.contains_key(k) == old_map.insert(kc@, value).contains_key(k) by {
                    assert(old_keys.contains(kc@));
                    assert(nm.contains_key(k) == old_keys.contains(k));
                    assert(old_map.contains_key(k) == old_keys.contains(k));
                }
                assert forall|k: Seq<char>| #[trigger] nm.contains_key(k) implies nm[k] == old_map.insert(kc@, value)[k] by {
                    assert(old_keys.contains(k));
                    let j = choose|j: int| 0 <= j < old_keys.len() && old_keys[j] == k;
                    if j != i {
                        if j < i {
                            assert(label_lt(old_keys[j], old_keys[i as int]));
                        } else {
                            assert(label_lt(old_keys[i as int], old_keys[j]));
                        }
                        lemma_label_lt_irreflexive(k);
                    }
                }
                assert(nm =~= old_map.insert(kc@, value));
            }
        } else {
            entries.insert(i, (key, value));
            let ghost nk = keys_of(entries@);
            proof {
                assert(nk =~= old_keys.insert(i as int, kc@));
                assert(vals_of(entries@) =~= old_vals.insert(i as int, value));
                if i < old_keys.len() {
                    assert(!label_lt(old_keys[i as int], kc@));
                    lemma_label_lt_total(old_keys[i as int], kc@);
                }
                assert forall|a: int, b: int| 0 <= a < b < nk.len() implies label_lt(
                    #[trigger] nk[a],
                    #[trigger] nk[b],
                ) by {
                    if b == i {
                        assert(nk[a] == old_keys[a]);
                    } else if a == i {
                        assert(nk[b] == old_keys[b - 1]);
                        if b - 1 > i {
                            lemma_label_lt_transitive(kc@, old_keys[i as int], old_keys[b - 1]);
                        }
                    } else if a < i && b > i {
                        assert(nk[a] == old_keys[a]);
                        assert(nk[b] == old_keys[b - 1]);
                    } else if b < i {
                        assert(nk[a] == old_keys[a]);
                        assert(nk[b] == old_keys[b]);
                    } else {
                        assert(nk[a] == old_keys[a - 1]);
                        assert(nk[b] == old_keys[b - 1]);
                    }
                }
                let nm = keyed_map(nk, vals_of(entries@));
                lemma_keyed_map_facts(nk, vals_of(entries@));
                lemma_keyed_map_facts(old_keys, old_vals);
                assert forall|k: Seq<char>| #[trigger] nm.contains_key(k) == old_map.insert(kc@, value).contains_key(k) by {
                    if old_keys.contains(k) {
                        let j = choose|j: int| 0 <= j < old_keys.len() && old_keys[j] == k;
                        if j < i {
                            assert(nk[j] == k);
                        } else {
                            assert(nk[j + 1] == k);
                        }
                    }
                    if nk.contains(k) {
                        let j = choose|j: int| 0 <= j < nk.len() && nk[j] == k;
                        if j < i {
                            assert(old_keys[j] == k);
                        } else if j > i {
                            assert(old_keys[j - 1] == k);
                        }
                    }
                    assert(nk[i as int] == kc@);
                }
                assert forall|k: Seq<char>| #[trigger] nm.contains_key(k) implies nm[k] == old_map.insert(kc@, value)[k] by {
                    assert(nk.contains(k));
                    let j = choose|j: int| 0 <= j < nk.len() && nk[j] == k;
                    if j < i {
                        assert(old_keys[j] == k);
                        assert(label_lt(k, kc@));
                        lemma_label_lt_irreflexive(k);
                    } else if j > i {
                        assert(old_keys[j - 1] == k);
                        if j - 1 > i {
                            lemma_label_lt_transitive(kc@, old_keys[i as int], old_keys[j - 1]);
                        }
                        lemma_label_lt_irreflexive(k);
                    }
                }
                assert(nm =~= old_map.insert(kc@, value));
            }
        }
        self.entries = entries;
    }
}

proof fn lemma_dom_len<T>(keys: Seq<Seq<char>>, vals: Seq<T>)
    requires
        keys.len() == vals.len(),
        sorted_labels(keys),
    ensures
        keyed_map(keys, vals).dom().finite(),
        keyed_map(keys, vals).dom().len() == keys.len(),
    decreases keys.len(),
{
    if keys.len() > 0 {
        let pk = keys.drop_last();
        lemma_dom_len(pk, vals.drop_last());
        lemma_keyed_map_facts(pk, vals.drop_last());
        if pk.contains(keys.last()) {
            let i = choose|i: int| 0 <= i < pk.len() && pk[i] == keys.last();
            assert(label_lt(keys[i], keys[keys.len() - 1]));
            lemma_label_lt_irreflexive(keys.last());
        }
    }
}

} // verus!
