use vstd::prelude::*;
use vstd::laws_cmp::{obeys_cmp, obeys_cmp_ord, obeys_partial_cmp_spec_properties};
use vstd::std_specs::cmp::{OrdSpec, PartialOrdSpec};
use vstd::std_specs::btree::{
    axiom_increasing_seq_meaning, increasing_seq, into_iter, into_iter_btree_keys,
    spec_btree_keys_iter, spec_btree_map_iter,
};

use std::collections::{BTreeMap, BTreeSet};

use crate::builders::DebugCollection;
use crate::formatter::{entry_repr, map_repr, set_repr, TelemetryFormatter};
use crate::to_telemetry::{lemma_some_item_fails_push, some_item_fails, ToTelemetry};

use core::fmt::Error as FmtError;

verus! {

/// The keys of a sequence of entries, in order.
pub open spec fn keys_of<K, V>(s: Seq<(K, V)>) -> Seq<K> {
    s.map_values(|e: (K, V)| e.0)
}

/// Whether `s` lists the entries of `m`, in strictly increasing key order.
pub open spec fn lists_entries_in_order<K, V>(s: Seq<(K, V)>, m: Map<K, V>) -> bool {
    s.to_set() == m.kv_pairs() && increasing_seq(keys_of(s))
}

/// Whether `s` lists the items of `items`, in strictly increasing order.
pub open spec fn lists_items_in_order<K>(s: Seq<K>, items: Set<K>) -> bool {
    s.to_set() == items && increasing_seq(s)
}

/// The entries of `m` in increasing key order (unique where the key order is lawful).
pub open spec fn entries_in_order<K, V>(m: Map<K, V>) -> Seq<(K, V)> {
    choose|s: Seq<(K, V)>| lists_entries_in_order(s, m)
}

/// The items of `items` in increasing order (unique where the order is lawful).
pub open spec fn items_in_order<K>(items: Set<K>) -> Seq<K> {
    choose|s: Seq<K>| lists_items_in_order(s, items)
}

/// The entries of `m` in the order in which it is walked: ascending key order
/// where the key type's `Ord` is lawful, and vstd's model of `iter` otherwise.
pub open spec fn map_walk<K: Ord, V>(m: &BTreeMap<K, V>) -> Seq<(K, V)> {
    if obeys_cmp::<K>() {
        entries_in_order(m@)
    } else {
        into_iter(spec_btree_map_iter(m))
    }
}

/// The items of `s` in the order in which it is walked: ascending order where
/// the item type's `Ord` is lawful, and vstd's model of `iter` otherwise.
pub open spec fn set_walk<K: Ord>(s: &BTreeSet<K>) -> Seq<K> {
    if obeys_cmp::<K>() {
        items_in_order(s@)
    } else {
        into_iter_btree_keys(spec_btree_keys_iter(s))
    }
}

/// Calls `BTreeMap::iter` and collects what it yields, in order: the map's entries
/// in ascending key order, which vstd's model of `iter` names
/// `into_iter(spec_btree_map_iter(m))`; where the key type's `Ord` is lawful, they
/// are the entries of the map's view, keys strictly increasing. The first claim
/// is made for every key type; vstd itself states it only for key types whose
/// `Ord` obeys its laws.
#[verifier::external_body]
fn btree_map_entries<'a, K: Ord, V>(m: &'a BTreeMap<K, V>) -> (v: Vec<(&'a K, &'a V)>)
    ensures
        v@.unref() == into_iter(spec_btree_map_iter(m)),
        obeys_cmp::<K>() ==> lists_entries_in_order(v@.unref(), m@),
{
    m.iter().collect()
}

/// Calls `BTreeSet::iter` and collects what it yields, in order: the set's items
/// in ascending order, which vstd's model of `iter` names
/// `into_iter_btree_keys(spec_btree_keys_iter(s))`; where the item type's `Ord` is
/// lawful, they are the items of the set's view, strictly increasing. The first
/// claim is made for every item type; vstd itself states it only for item types
/// whose `Ord` obeys its laws.
#[verifier::external_body]
fn btree_set_items<'a, K: Ord>(s: &'a BTreeSet<K>) -> (v: Vec<&'a K>)
    ensures
        v@.unref() == into_iter_btree_keys(spec_btree_keys_iter(s)),
        obeys_cmp::<K>() ==> lists_items_in_order(v@.unref(), s@),
{
    s.iter().collect()
}

/// Under a lawful `Ord`, nothing is less than itself and "less than" is transitive.
proof fn lemma_less_is_strict<K: Ord>()
    requires
        obeys_cmp::<K>(),
    ensures
        forall|x: K| !(#[trigger] x.cmp_spec(&x) is Less),
        forall|x: K, y: K, z: K|
            #![trigger x.cmp_spec(&y), y.cmp_spec(&z)]
            x.cmp_spec(&y) is Less && y.cmp_spec(&z) is Less ==> x.cmp_spec(&z) is Less,
{
    reveal(obeys_cmp_ord);
    reveal(obeys_partial_cmp_spec_properties);
    assert forall|x: K| !(#[trigger] x.cmp_spec(&x) is Less) by {
        assert(x.partial_cmp_spec(&x) == Some(x.cmp_spec(&x)));
    }
    assert forall|x: K, y: K, z: K|
        #![trigger x.cmp_spec(&y), y.cmp_spec(&z)]
        x.cmp_spec(&y) is Less && y.cmp_spec(&z) is Less implies x.cmp_spec(&z) is Less by {
        assert(x.partial_cmp_spec(&y) == Some(x.cmp_spec(&y)));
        assert(y.partial_cmp_spec(&z) == Some(y.cmp_spec(&z)));
        assert(x.partial_cmp_spec(&z) == Some(x.cmp_spec(&z)));
    }
}

/// Two strictly increasing sequences with the same items are the same sequence.
pub proof fn lemma_increasing_is_unique<K: Ord>(s1: Seq<K>, s2: Seq<K>)
    requires
        obeys_cmp::<K>(),
        increasing_seq(s1),
        increasing_seq(s2),
        s1.to_set() == s2.to_set(),
    ensures
        s1 == s2,
    decreases s1.len(),
{
    lemma_less_is_strict::<K>();
    axiom_increasing_seq_meaning::<K>(s1);
    axiom_increasing_seq_meaning::<K>(s2);
    if s1.len() == 0 {
        if s2.len() > 0 {
            assert(s2.to_set().contains(s2[0]));
        }
        assert(s1 =~= s2);
    } else {
        assert(s1.to_set().contains(s1[0]));
        let j = choose|j: int| 0 <= j < s2.len() && s2[j] == s1[0];
        assert(s2.to_set().contains(s2[0]));
        let i = choose|i: int| 0 <= i < s1.len() && s1[i] == s2[0];
        if i > 0 && j > 0 {
            assert(s1[0].cmp_spec(&s1[i]) is Less);
            assert(s2[0].cmp_spec(&s2[j]) is Less);
        }
        let t1 = s1.drop_first();
        let t2 = s2.drop_first();
        assert(t1.to_set() =~= t2.to_set()) by {
            assert forall|x: K| t1.to_set().contains(x) implies t2.to_set().contains(x) by {
                let k = choose|k: int| 0 <= k < t1.len() && t1[k] == x;
                assert(s1[0].cmp_spec(&s1[k + 1]) is Less);
                assert(s1.to_set().contains(s1[k + 1]));
                let m = choose|m: int| 0 <= m < s2.len() && s2[m] == x;
                assert(m != 0);
                assert(t2[m - 1] == x);
            }
            assert forall|x: K| t2.to_set().contains(x) implies t1.to_set().contains(x) by {
                let k = choose|k: int| 0 <= k < t2.len() && t2[k] == x;
                assert(s2[0].cmp_spec(&s2[k + 1]) is Less);
                assert(s2.to_set().contains(s2[k + 1]));
                let m = choose|m: int| 0 <= m < s1.len() && s1[m] == x;
                assert(m != 0);
                assert(t1[m - 1] == x);
            }
        }
        assert forall|a: int, b: int|
            #![trigger t1[a], t1[b]]
            0 <= a < b < t1.len() implies t1[a].cmp_spec(&t1[b]) is Less by {
            assert(t1[a] == s1[a + 1] && t1[b] == s1[b + 1]);
        }
        assert forall|a: int, b: int|
            #![trigger t2[a], t2[b]]
            0 <= a < b < t2.len() implies t2[a].cmp_spec(&t2[b]) is Less by {
            assert(t2[a] == s2[a + 1] && t2[b] == s2[b + 1]);
        }
        axiom_increasing_seq_meaning::<K>(t1);
        axiom_increasing_seq_meaning::<K>(t2);
        lemma_increasing_is_unique(t1, t2);
        assert(s1 =~= s2) by {
            assert forall|k: int| 0 <= k < s1.len() implies s1[k] == s2[k] by {
                if k > 0 {
                    assert(s1[k] == t1[k - 1] && s2[k] == t2[k - 1]);
                }
            }
        }
    }
}

/// Two sequences of entries with the same entries and strictly increasing keys
/// are the same sequence.
pub proof fn lemma_entries_in_order_are_unique<K: Ord, V>(s1: Seq<(K, V)>, s2: Seq<(K, V)>)
    requires
        obeys_cmp::<K>(),
        increasing_seq(keys_of(s1)),
        increasing_seq(keys_of(s2)),
        s1.to_set() == s2.to_set(),
    ensures
        s1 == s2,
{
    lemma_less_is_strict::<K>();
    let k1 = keys_of(s1);
    let k2 = keys_of(s2);
    assert(k1.to_set() =~= k2.to_set()) by {
        assert forall|x: K| k1.to_set().contains(x) implies k2.to_set().contains(x) by {
            let i = choose|i: int| 0 <= i < k1.len() && k1[i] == x;
            assert(s1.to_set().contains(s1[i]));
            let j = choose|j: int| 0 <= j < s2.len() && s2[j] == s1[i];
            assert(k2[j] == x);
        }
        assert forall|x: K| k2.to_set().contains(x) implies k1.to_set().contains(x) by {
            let i = choose|i: int| 0 <= i < k2.len() && k2[i] == x;
            assert(s2.to_set().contains(s2[i]));
            let j = choose|j: int| 0 <= j < s1.len() && s1[j] == s2[i];
            assert(k1[j] == x);
        }
    }
    lemma_increasing_is_unique(k1, k2);
    axiom_increasing_seq_meaning::<K>(k2);
    assert(s1.len() == k1.len() && s2.len() == k2.len());
    assert(s1 =~= s2) by {
        assert forall|i: int| 0 <= i < s1.len() implies s1[i] == s2[i] by {
            assert(s1.to_set().contains(s1[i]));
            let j = choose|j: int| 0 <= j < s2.len() && s2[j] == s1[i];
            assert(k2[j] == k1[i] && k1[i] == k2[i]);
            if j < i {
                assert(k2[j].cmp_spec(&k2[i]) is Less);
            } else if i < j {
                assert(k2[i].cmp_spec(&k2[j]) is Less);
            }
        }
    }
}

/// What `iter` yields of a map is the order in which it is walked.
proof fn lemma_map_walk<K: Ord, V>(m: &BTreeMap<K, V>, s: Seq<(K, V)>)
    requires
        s == into_iter(spec_btree_map_iter(m)),
        obeys_cmp::<K>() ==> lists_entries_in_order(s, m@),
    ensures
        s == map_walk(m),
{
    if obeys_cmp::<K>() {
        let c = entries_in_order(m@);
        assert(lists_entries_in_order(c, m@));
        lemma_entries_in_order_are_unique(s, c);
    }
}

/// What `iter` yields of a set is the order in which it is walked.
proof fn lemma_set_walk<K: Ord>(st: &BTreeSet<K>, s: Seq<K>)
    requires
        s == into_iter_btree_keys(spec_btree_keys_iter(st)),
        obeys_cmp::<K>() ==> lists_items_in_order(s, st@),
    ensures
        s == set_walk(st),
{
    if obeys_cmp::<K>() {
        let c = items_in_order(st@);
        assert(lists_items_in_order(c, st@));
        lemma_increasing_is_unique(s, c);
    }
}

/// The renderings `key: value` of a sequence of entries, in order.
pub open spec fn entry_reprs<K: ToTelemetry, V: ToTelemetry>(entries: Seq<(K, V)>) -> Seq<Seq<char>> {
    entries.map_values(|e: (K, V)| entry_repr(e.0.telemetry_repr(), e.1.telemetry_repr()))
}

/// The renderings of a sequence of set items, in order.
pub open spec fn key_reprs<K: ToTelemetry>(items: Seq<K>) -> Seq<Seq<char>> {
    items.map_values(|k: K| k.telemetry_repr())
}

/// Whether the rendering of the key or the value of some entry fails.
pub open spec fn some_entry_fails<K: ToTelemetry, V: ToTelemetry>(entries: Seq<(K, V)>) -> bool {
    exists|k: int|
        0 <= k < entries.len() && ((#[trigger] entries[k]).0.telemetry_fails()
            || entries[k].1.telemetry_fails())
}

/// Some entry of the first `i + 1` fails exactly when one of the first `i` does or the next one does.
proof fn lemma_some_entry_fails_push<K: ToTelemetry, V: ToTelemetry>(entries: Seq<(K, V)>, i: int)
    requires
        0 <= i < entries.len(),
    ensures
        some_entry_fails(entries.take(i + 1)) == (some_entry_fails(entries.take(i))
            || entries[i].0.telemetry_fails() || entries[i].1.telemetry_fails()),
{
    let a = entries.take(i + 1);
    let b = entries.take(i);
    if some_entry_fails(a) {
        let k = choose|k: int|
            0 <= k < a.len() && ((#[trigger] a[k]).0.telemetry_fails() || a[k].1.telemetry_fails());
        if k < i {
            assert(b[k] == a[k]);
        }
    }
    if some_entry_fails(b) {
        let k = choose|k: int|
            0 <= k < b.len() && ((#[trigger] b[k]).0.telemetry_fails() || b[k].1.telemetry_fails());
        assert(a[k] == b[k]);
    }
    assert(a[i] == entries[i]);
}

impl<K: ToTelemetry + Ord, V: ToTelemetry> ToTelemetry for BTreeMap<K, V> {
    open spec fn telemetry_repr(&self) -> Seq<char> {
        map_repr(entry_reprs(map_walk(self)))
    }

    open spec fn telemetry_fails(&self) -> bool {
        some_entry_fails(map_walk(self))
    }

    fn fmt_telemetry(&self, f: &mut TelemetryFormatter) -> Result<(), FmtError> {
        let entries = btree_map_entries(self);
        proof {
            lemma_map_walk(self, entries@.unref());
        }
        let mut map = DebugCollection::map(f);
        let n = entries.len();
        for i in 0..n
            invariant
                n == entries@.len(),
                entries@.unref() == map_walk(self),
                map.inv(f@),
                map.start() == old(f)@,
                map.open_delim() == '{',
                map.close_delim() == '}',
                map.items() == entry_reprs(entries@.unref().take(i as int)),
                map.failed() == some_entry_fails(entries@.unref().take(i as int)),
        {
            let (k, v) = entries[i];
            map.key_value(f, k, v);
            proof {
                lemma_some_entry_fails_push(entries@.unref(), i as int);
                assert(entry_reprs(entries@.unref().take(i + 1)) =~= entry_reprs(entries@.unref().take(i as int)).push(
                    entry_repr(k.telemetry_repr(), v.telemetry_repr()),
                ));
            }
        }
        proof {
            assert(entries@.unref().take(n as int) =~= entries@.unref());
        }
        map.finish(f)
    }
}

impl<K: ToTelemetry + Ord> ToTelemetry for BTreeSet<K> {
    open spec fn telemetry_repr(&self) -> Seq<char> {
        set_repr(key_reprs(set_walk(self)))
    }

    open spec fn telemetry_fails(&self) -> bool {
        some_item_fails(set_walk(self))
    }

    fn fmt_telemetry(&self, f: &mut TelemetryFormatter) -> Result<(), FmtError> {
        let items = btree_set_items(self);
        proof {
            lemma_set_walk(self, items@.unref());
        }
        let mut set = DebugCollection::set(f);
        let n = items.len();
        for i in 0..n
            invariant
                n == items@.len(),
                items@.unref() == set_walk(self),
                set.inv(f@),
                set.start() == old(f)@,
                set.open_delim() == '{',
                set.close_delim() == '}',
                set.items() == key_reprs(items@.unref().take(i as int)),
                set.failed() == some_item_fails(items@.unref().take(i as int)),
        {
            let k = items[i];
            set.entry(f, k);
            proof {
                lemma_some_item_fails_push(items@.unref(), i as int);
                assert(key_reprs(items@.unref().take(i + 1)) =~= key_reprs(items@.unref().take(i as int)).push(
                    k.telemetry_repr(),
                ));
            }
        }
        proof {
            assert(items@.unref().take(n as int) =~= items@.unref());
        }
        set.finish(f)
    }
}

/// Law: a map renders its entries in strictly increasing key order, whatever
/// order they were inserted in, for key types whose `Ord` is lawful: its
/// rendering is that of any sequence that lists its entries so.
pub proof fn law_maps_render_in_key_order<K: ToTelemetry + Ord, V: ToTelemetry>(
    m: BTreeMap<K, V>,
    s: Seq<(K, V)>,
)
    requires
        obeys_cmp::<K>(),
        lists_entries_in_order(s, m@),
    ensures
        m.telemetry_repr() == map_repr(entry_reprs(s)),
{
    let c = entries_in_order(m@);
    assert(lists_entries_in_order(c, m@));
    lemma_entries_in_order_are_unique(s, c);
}

/// Law: two maps with the same entries render alike, for key types whose `Ord`
/// is lawful.
pub proof fn law_equal_maps_render_alike<K: ToTelemetry + Ord, V: ToTelemetry>(
    m1: BTreeMap<K, V>,
    m2: BTreeMap<K, V>,
)
    requires
        obeys_cmp::<K>(),
        m1@ == m2@,
    ensures
        m1.telemetry_repr() == m2.telemetry_repr(),
{
}

/// Law: a set renders its items in strictly increasing order, for item types
/// whose `Ord` is lawful: its rendering is that of any sequence that lists its
/// items so.
pub proof fn law_sets_render_in_order<K: ToTelemetry + Ord>(st: BTreeSet<K>, s: Seq<K>)
    requires
        obeys_cmp::<K>(),
        lists_items_in_order(s, st@),
    ensures
        st.telemetry_repr() == set_repr(key_reprs(s)),
{
    let c = items_in_order(st@);
    assert(lists_items_in_order(c, st@));
    lemma_increasing_is_unique(s, c);
}

/// Law: two sets with the same items render alike, for item types whose `Ord`
/// is lawful.
pub proof fn law_equal_sets_render_alike<K: ToTelemetry + Ord>(s1: BTreeSet<K>, s2: BTreeSet<K>)
    requires
        obeys_cmp::<K>(),
        s1@ == s2@,
    ensures
        s1.telemetry_repr() == s2.telemetry_repr(),
{
}

} // verus!
