//! A table from texts to values that keeps its keys in order.

use vstd::prelude::*;
use vstd::string::*;

use crate::text;

verus! {

/// `a` comes before `b` where bytes are compared one by one.
pub open spec fn bytes_before(a: Seq<u8>, b: Seq<u8>) -> bool
    decreases a.len(),
{
    if b.len() == 0 {
        false
    } else if a.len() == 0 {
        true
    } else {
        a[0] < b[0] || (a[0] == b[0] && bytes_before(a.drop_first(), b.drop_first()))
    }
}

/// `a` comes before `b` in the order of texts, which compares their UTF-8 bytes.
pub open spec fn text_before(a: Seq<char>, b: Seq<char>) -> bool {
    bytes_before(vstd::utf8::encode_utf8(a), vstd::utf8::encode_utf8(b))
}

proof fn lemma_bytes_irreflexive(a: Seq<u8>)
    ensures
        !bytes_before(a, a),
    decreases a.len(),
{
    if a.len() > 0 {
        lemma_bytes_irreflexive(a.drop_first());
    }
}

proof fn lemma_bytes_transitive(a: Seq<u8>, b: Seq<u8>, c: Seq<u8>)
    requires
        bytes_before(a, b),
        bytes_before(b, c),
    ensures
        bytes_before(a, c),
    decreases a.len(),
{
    if a.len() > 0 && a[0] == b[0] && b[0] == c[0] {
        lemma_bytes_transitive(a.drop_first(), b.drop_first(), c.drop_first());
    }
}

proof fn lemma_bytes_total(a: Seq<u8>, b: Seq<u8>)
    ensures
        a == b || bytes_before(a, b) || bytes_before(b, a),
    decreases a.len(),
{
    if a.len() > 0 && b.len() > 0 && a[0] == b[0] {
        lemma_bytes_total(a.drop_first(), b.drop_first());
        if a.drop_first() == b.drop_first() {
            assert(a =~= seq![a[0]] + a.drop_first());
            assert(b =~= seq![b[0]] + b.drop_first());
        }
    } else if a.len() == 0 && b.len() == 0 {
        assert(a =~= b);
    }
}

/// The order of texts is strict and total.
pub proof fn lemma_text_order(a: Seq<char>, b: Seq<char>)
    ensures
        !text_before(a, a),
        a == b || text_before(a, b) || text_before(b, a),
        !(text_before(a, b) && text_before(b, a)),
{
    let x = vstd::utf8::encode_utf8(a);
    let y = vstd::utf8::encode_utf8(b);
    lemma_bytes_irreflexive(x);
    lemma_bytes_total(x, y);
    vstd::utf8::encode_utf8_decode_utf8(a);
    vstd::utf8::encode_utf8_decode_utf8(b);
    if text_before(a, b) && text_before(b, a) {
        lemma_bytes_transitive(x, y, x);
    }
}

/// The order of texts is transitive.
pub proof fn lemma_text_order_transitive(a: Seq<char>, b: Seq<char>, c: Seq<char>)
    requires
        text_before(a, b),
        text_before(b, c),
    ensures
        text_before(a, c),
{
    lemma_bytes_transitive(
        vstd::utf8::encode_utf8(a),
        vstd::utf8::encode_utf8(b),
        vstd::utf8::encode_utf8(c),
    );
}

/// Whether `a` comes before `b`.
pub fn comes_before(a: &str, b: &str) -> (yes: bool)
    ensures
        yes == text_before(a@, b@),
{
    let x: &[u8] = a.as_bytes();
    let y: &[u8] = b.as_bytes();
    let mut i: usize = 0;
    assert(x@.skip(0) == x@);
    assert(y@.skip(0) == y@);
    while i < x.len() && i < y.len() && x[i] == y[i]
        invariant
            i <= x@.len(),
            i <= y@.len(),
            x@ == vstd::utf8::encode_utf8(a@),
            y@ == vstd::utf8::encode_utf8(b@),
            bytes_before(x@.skip(i as int), y@.skip(i as int)) == text_before(a@, b@),
        decreases x@.len() - i,
    {
        assert(x@.skip(i as int).drop_first() == x@.skip(i + 1));
        assert(y@.skip(i as int).drop_first() == y@.skip(i + 1));
        i = i + 1;
    }
    if i == y.len() {
        false
    } else if i == x.len() {
        true
    } else {
        x[i] < y[i]
    }
}

/// A table from texts to values, its entries in the order of their keys.
#[derive(Debug)]
pub struct OrderedTable<V> {
    entries: Vec<(String, V)>,
}

/// No key occurs twice, and each entry comes before those behind it.
pub open spec fn keys_in_order<V>(pairs: Seq<(Seq<char>, V)>) -> bool {
    forall|i: int, j: int|
        0 <= i < j < pairs.len() ==> text_before(#[trigger] pairs[i].0, #[trigger] pairs[j].0)
}

/// The map that the pairs spell out.
pub open spec fn spelled_map<V>(pairs: Seq<(Seq<char>, V)>) -> Map<Seq<char>, V>
    decreases pairs.len(),
{
    if pairs.len() == 0 {
        Map::empty()
    } else {
        spelled_map(pairs.drop_last()).insert(pairs.last().0, pairs.last().1)
    }
}

/// The map that pairs spell out has their keys and, where these are in order,
/// their values.
pub proof fn lemma_spelled_map<V>(pairs: Seq<(Seq<char>, V)>)
    ensures
        forall|k: Seq<char>| #[trigger]
            spelled_map(pairs).contains_key(k) <==> exists|i: int|
                0 <= i < pairs.len() && (#[trigger] pairs[i]).0 == k,
        keys_in_order(pairs) ==> forall|i: int|
            0 <= i < pairs.len() ==> spelled_map(pairs)[(#[trigger] pairs[i]).0] == pairs[i].1,
    decreases pairs.len(),
{
    if pairs.len() > 0 {
        let front = pairs.drop_last();
        lemma_spelled_map(front);
        assert forall|k: Seq<char>| #[trigger]
            spelled_map(pairs).contains_key(k) implies exists|i: int|
            0 <= i < pairs.len() && (#[trigger] pairs[i]).0 == k by {
            if spelled_map(front).contains_key(k) {
                let i = choose|i: int| 0 <= i < front.len() && (#[trigger] front[i]).0 == k;
                assert(pairs[i].0 == k);
            } else {
                assert(pairs[pairs.len() - 1].0 == k);
            }
        }
        assert forall|k: Seq<char>|
            (exists|i: int| 0 <= i < pairs.len() && (#[trigger] pairs[i]).0 == k) implies
            #[trigger] spelled_map(pairs).contains_key(k) by {
            let i = choose|i: int| 0 <= i < pairs.len() && (#[trigger] pairs[i]).0 == k;
            if i < front.len() {
                assert(front[i].0 == k);
                assert(spelled_map(front).contains_key(k));
            } else {
                assert(pairs.last().0 == k);
            }
        }
        if keys_in_order(pairs) {
            assert(keys_in_order(front)) by {
                assert forall|i: int, j: int| 0 <= i < j < front.len() implies text_before(
                    #[trigger] front[i].0,
                    #[trigger] front[j].0,
                ) by {
                    assert(text_before(pairs[i].0, pairs[j].0));
                }
            }
            assert forall|i: int| 0 <= i < pairs.len() implies spelled_map(pairs)[(
            #[trigger] pairs[i]).0] == pairs[i].1 by {
                if i < front.len() {
                    assert(front[i] == pairs[i]);
                    assert(text_before(pairs[i].0, pairs[pairs.len() - 1].0));
                    lemma_text_order(pairs[i].0, pairs[i].0);
                }
            }
        }
    }
}

impl<V> View for OrderedTable<V> {
    type V = Map<Seq<char>, V>;

    open spec fn view(&self) -> Map<Seq<char>, V> {
        spelled_map(self.pairs())
    }
}

impl<V> OrderedTable<V> {
    /// The entries, in order.
    pub closed spec fn pairs(&self) -> Seq<(Seq<char>, V)> {
        self.entries@.map_values(|e: (String, V)| (e.0@, e.1))
    }

    #[verifier::type_invariant]
    spec fn in_order(self) -> bool {
        keys_in_order(self.pairs())
    }

    /// A table without entries.
    pub fn new() -> (table: Self)
        ensures
            table@ == Map::<Seq<char>, V>::empty(),
            table.pairs().len() == 0,
    {
        OrderedTable { entries: Vec::new() }
    }

    /// The number of entries.
    pub fn len(&self) -> (n: usize)
        ensures
            n == self.pairs().len(),
            keys_in_order(self.pairs()),
    {
        proof {
            use_type_invariant(self);
        }
        self.entries.len()
    }

    /// The key of the entry at `i`.
    pub fn key(&self, i: usize) -> (key: &String)
        requires
            i < self.pairs().len(),
        ensures
            key@ == self.pairs()[i as int].0,
    {
        &self.entries[i].0
    }

    /// The value of the entry at `i`.
    pub fn value(&self, i: usize) -> (value: &V)
        requires
            i < self.pairs().len(),
        ensures
            *value == self.pairs()[i as int].1,
    {
        &self.entries[i].1
    }

    /// The number of entries whose keys come before `key`.
    fn rank(&self, key: &str) -> (n: usize)
        ensures
            n <= self.pairs().len(),
            forall|i: int| 0 <= i < n ==> text_before(#[trigger] self.pairs()[i].0, key@),
            forall|i: int|
                n <= i < self.pairs().len() ==> !text_before(#[trigger] self.pairs()[i].0, key@),
    {
        proof {
            use_type_invariant(self);
        }
        let mut low: usize = 0;
        let mut high: usize = self.entries.len();
        let ghost pairs = self.pairs();
        while low < high
            invariant
                pairs == self.pairs(),
                keys_in_order(pairs),
                low <= high <= pairs.len(),
                pairs.len() == self.entries@.len(),
                forall|i: int| 0 <= i < low ==> text_before(#[trigger] pairs[i].0, key@),
                forall|i: int|
                    high <= i < pairs.len() ==> !text_before(#[trigger] pairs[i].0, key@),
            decreases high - low,
        {
            let middle: usize = low + (high - low) / 2;
            let ghost here = pairs[middle as int].0;
            assert(here == self.entries@[middle as int].0@);
            if comes_before(self.entries[middle].0.as_str(), key) {
                assert forall|i: int| 0 <= i <= middle implies text_before(
                    #[trigger] pairs[i].0,
                    key@,
                ) by {
                    if i < middle {
                        lemma_text_order_transitive(pairs[i].0, here, key@);
                    }
                }
                low = middle + 1;
            } else {
                assert forall|i: int| middle <= i < pairs.len() implies !text_before(
                    #[trigger] pairs[i].0,
                    key@,
                ) by {
                    if i > middle && text_before(pairs[i].0, key@) {
                        lemma_text_order_transitive(here, pairs[i].0, key@);
                    }
                }
                high = middle;
            }
        }
        low
    }

    /// The value that `key` has.
    pub fn get(&self, key: &str) -> (value: Option<&V>)
        ensures
            value is Some <==> self@.contains_key(key@),
            value matches Some(v) ==> *v == self@[key@],
    {
        let n: usize = self.rank(key);
        let ghost pairs = self.pairs();
        proof {
            use_type_invariant(self);
            lemma_spelled_map(pairs);
        }
        if n < self.entries.len() {
            assert(pairs[n as int].0 == self.entries@[n as int].0@);
            if text::same_text(self.entries[n].0.as_str(), key) {
                return Some(&self.entries[n].1);
            }
        }
        proof {
            if self@.contains_key(key@) {
                let i = choose|i: int| 0 <= i < pairs.len() && (#[trigger] pairs[i]).0 == key@;
                lemma_text_order(key@, key@);
                assert(i >= n);
                assert(i != n);
                assert(text_before(pairs[n as int].0, pairs[i].0));
            }
        }
        None
    }

    /// Gives `key` a value, in place of the one it had, if any.
    pub fn insert(&mut self, key: String, value: V)
        ensures
            final(self)@ == old(self)@.insert(key@, value),
            keys_in_order(final(self).pairs()),
    {
        let n: usize = self.rank(key.as_str());
        proof {
            use_type_invariant(&*self);
        }
        let ghost before = self.pairs();
        let mut entries: Vec<(String, V)> = Vec::new();
        core::mem::swap(&mut entries, &mut self.entries);
        assert(entries@.map_values(|e: (String, V)| (e.0@, e.1)) == before);
        let mut present: bool = false;
        if n < entries.len() {
            assert(before[n as int].0 == entries@[n as int].0@);
            present = text::same_text(entries[n].0.as_str(), key.as_str());
        }
        let ghost k = key@;
        if present {
            let _ = entries.remove(n);
            entries.insert(n, (key, value));
        } else {
            entries.insert(n, (key, value));
        }
        let ghost after = entries@.map_values(|e: (String, V)| (e.0@, e.1));
        proof {
            if present {
                assert(after =~= before.update(n as int, (k, value)));
            } else {
                assert(after =~= before.insert(n as int, (k, value)));
            }
            lemma_entry_placed(before, after, n as int, k, value);
        }
        self.entries = entries;
        assert(self.pairs() == after);
    }
}

impl OrderedTable<String> {
    /// Gives each key of `other` the value that it has there.
    pub fn extend(&mut self, other: &OrderedTable<String>)
        ensures
            final(self)@ == old(self)@.union_prefer_right(other@),
            keys_in_order(final(self).pairs()),
    {
        let count: usize = other.len();
        let ghost before = self@;
        let ghost pairs = other.pairs();
        let unchanged: usize = self.len();
        assert(before =~= before.union_prefer_right(spelled_map(pairs.take(0))));
        for i in 0..count
            invariant
                count == pairs.len(),
                pairs == other.pairs(),
                keys_in_order(self.pairs()),
                self@ == before.union_prefer_right(spelled_map(pairs.take(i as int))),
        {
            let key: String = other.key(i).clone();
            let value: String = other.value(i).clone();
            self.insert(key, value);
            proof {
                assert(pairs.take(i + 1).drop_last() == pairs.take(i as int));
                assert(self@ =~= before.union_prefer_right(spelled_map(pairs.take(i + 1))));
            }
        }
        assert(pairs.take(pairs.len() as int) == pairs);
    }

    /// A table with the same entries.
    pub fn duplicate(&self) -> (copy: OrderedTable<String>)
        ensures
            copy@ == self@,
            keys_in_order(copy.pairs()),
    {
        let mut copy: OrderedTable<String> = OrderedTable::new();
        copy.extend(self);
        assert(copy@ =~= self@);
        copy
    }
}

/// Placing an entry where its key belongs keeps the order and gives the key its
/// value.
proof fn lemma_entry_placed<V>(
    before: Seq<(Seq<char>, V)>,
    after: Seq<(Seq<char>, V)>,
    n: int,
    key: Seq<char>,
    value: V,
)
    requires
        keys_in_order(before),
        0 <= n <= before.len(),
        forall|i: int| 0 <= i < n ==> text_before(#[trigger] before[i].0, key),
        forall|i: int| n <= i < before.len() ==> !text_before(#[trigger] before[i].0, key),
        ({
            ||| n < before.len() && before[n].0 == key && after == before.update(n, (key, value))
            ||| (n == before.len() || before[n].0 != key) && after == before.insert(
                n,
                (key, value),
            )
        }),
    ensures
        keys_in_order(after),
        spelled_map(after) == spelled_map(before).insert(key, value),
{
    let replaced = n < before.len() && before[n].0 == key;
    let shift: int = if replaced {
        0
    } else {
        1
    };
    assert forall|i: int| n <= i < before.len() && before[i].0 != key implies text_before(
        key,
        #[trigger] before[i].0,
    ) by {
        lemma_text_order(before[i].0, key);
    }
    assert forall|i: int| n < i < before.len() implies text_before(
        key,
        #[trigger] before[i].0,
    ) by {
        lemma_text_order(before[i].0, key);
        assert(text_before(before[n].0, before[i].0));
        lemma_text_order(before[n].0, key);
        if before[i].0 == key {
            assert(text_before(before[n].0, key));
        }
    }
    assert(keys_in_order(after)) by {
        assert forall|i: int, j: int| 0 <= i < j < after.len() implies text_before(
            #[trigger] after[i].0,
            #[trigger] after[j].0,
        ) by {
            let p = if i <= n {
                i
            } else {
                i - shift
            };
            let q = if j <= n {
                j
            } else {
                j - shift
            };
            if i != n {
                assert(after[i] == before[p]);
            }
            if j != n {
                assert(after[j] == before[q]);
            }
            if i != n && j != n {
                assert(text_before(before[p].0, before[q].0));
            } else if i == n {
                if !replaced {
                    assert(q >= n);
                }
                assert(text_before(key, before[q].0));
            }
        }
    }
    lemma_spelled_map(before);
    lemma_spelled_map(after);
    let x = spelled_map(after);
    let y = spelled_map(before).insert(key, value);
    assert forall|k: Seq<char>| #[trigger] x.contains_key(k) == y.contains_key(k) by {
        if x.contains_key(k) {
            let i = choose|i: int| 0 <= i < after.len() && (#[trigger] after[i]).0 == k;
            if i < n {
                assert(before[i].0 == k);
            } else if i > n {
                assert(before[i - shift].0 == k);
            }
        }
        if y.contains_key(k) {
            if k == key {
                assert(after[n].0 == k);
            } else {
                let i = choose|i: int| 0 <= i < before.len() && (#[trigger] before[i]).0 == k;
                if i < n {
                    assert(after[i].0 == k);
                } else {
                    assert(after[i + shift].0 == k);
                }
            }
        }
    }
    assert forall|k: Seq<char>| #[trigger] x.contains_key(k) implies x[k] == y[k] by {
        let i = choose|i: int| 0 <= i < after.len() && (#[trigger] after[i]).0 == k;
        lemma_text_order(key, key);
        if i == n {
            assert(k == key);
        } else {
            let p = if i < n {
                i
            } else {
                i - shift
            };
            assert(after[i] == before[p]);
            if i < n {
                assert(text_before(before[p].0, key));
            } else {
                assert(text_before(after[n].0, after[i].0));
            }
            assert(k != key);
        }
    }
    assert(x =~= y);
}

/// In the order of texts the first byte that differs decides, and a text comes before
/// those that go on behind it.
pub proof fn law_first_difference_decides(a: Seq<u8>, b: Seq<u8>, at: int)
    requires
        0 <= at <= a.len(),
        at < b.len(),
        a.take(at) == b.take(at),
        at < a.len() ==> a[at] != b[at],
    ensures
        bytes_before(a, b) <==> at == a.len() || a[at] < b[at],
        at == a.len() ==> !bytes_before(b, a),
    decreases at,
{
    if at > 0 {
        assert(a.take(at)[0] == b.take(at)[0]);
        assert(a.take(at)[0] == a[0] && b.take(at)[0] == b[0]);
        if at < a.len() {
            assert(a.drop_first()[at - 1] == a[at]);
        }
        assert(b.drop_first()[at - 1] == b[at]);
        assert(a.drop_first().take(at - 1) =~= a.take(at).drop_first());
        assert(b.drop_first().take(at - 1) =~= b.take(at).drop_first());
        law_first_difference_decides(a.drop_first(), b.drop_first(), at - 1);
    }
}

} // verus!
