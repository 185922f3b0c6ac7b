//! The table that maps each server id to the address of that server.
//!
//! Ids and addresses are kept as text, as they travel between servers; the
//! table never holds an id twice.

use vstd::prelude::*;
use crate::decimal::{parse_i32, spec_parse_i32};

verus! {

/// Every id of the table reads as an `i32`.
pub open spec fn ids_numeric(m: Map<Seq<char>, Seq<char>>) -> bool {
    forall|k: Seq<char>| #[trigger] m.contains_key(k) ==> spec_parse_i32(k) is Some
}

/// The number an id reads as.
pub open spec fn id_value(k: Seq<char>) -> i32 {
    spec_parse_i32(k)->0
}

/// `r` is the least id number in `m`, or `i32::MAX` when `m` has no id below it.
pub open spec fn is_lowest_id(m: Map<Seq<char>, Seq<char>>, r: i32) -> bool {
    &&& forall|k: Seq<char>| #[trigger] m.contains_key(k) ==> r <= id_value(k)
    &&& (r == i32::MAX || exists|k: Seq<char>| #[trigger] m.contains_key(k) && id_value(k) == r)
}

/// `r` is the greatest id number in `m`, or `i32::MIN` when `m` has no id above it.
pub open spec fn is_highest_id(m: Map<Seq<char>, Seq<char>>, r: i32) -> bool {
    &&& forall|k: Seq<char>| #[trigger] m.contains_key(k) ==> id_value(k) <= r
    &&& (r == i32::MIN || exists|k: Seq<char>| #[trigger] m.contains_key(k) && id_value(k) == r)
}

/// The least id number of the table (`i32::MAX` for an empty table).
pub open spec fn lowest_id(m: Map<Seq<char>, Seq<char>>) -> i32 {
    choose|r: i32| is_lowest_id(m, r)
}

/// The greatest id number of the table (`i32::MIN` for an empty table).
pub open spec fn highest_id(m: Map<Seq<char>, Seq<char>>) -> i32 {
    choose|r: i32| is_highest_id(m, r)
}

/// A finite table whose ids all read as numbers has a greatest id.
pub proof fn lemma_highest_id_exists(m: Map<Seq<char>, Seq<char>>)
    requires
        m.dom().finite(),
        ids_numeric(m),
    ensures
        is_highest_id(m, highest_id(m)),
    decreases m.dom().len(),
{
    if m.dom().len() == 0 {
        assert forall|k: Seq<char>| #[trigger] m.contains_key(k) implies id_value(k) <= i32::MIN by {
            assert(m.dom().contains(k));
        }
        assert(is_highest_id(m, i32::MIN));
    } else {
        let k = m.dom().choose();
        let rest = m.remove(k);
        assert(rest.dom() =~= m.dom().remove(k));
        lemma_highest_id_exists(rest);
        let h = highest_id(rest);
        let c = if h < id_value(k) { id_value(k) } else { h };
        assert forall|q: Seq<char>| #[trigger] m.contains_key(q) implies id_value(q) <= c by {
            if q != k {
                assert(rest.contains_key(q));
            }
        }
        if c != id_value(k) {
            let w = choose|w: Seq<char>| #[trigger] rest.contains_key(w) && id_value(w) == h;
            assert(m.contains_key(w));
        }
        assert(is_highest_id(m, c));
    }
}

/// At most one number is the least id of a table.
pub proof fn lemma_lowest_id_unique(m: Map<Seq<char>, Seq<char>>, r: i32)
    requires
        is_lowest_id(m, r),
    ensures
        lowest_id(m) == r,
{
    let q = lowest_id(m);
    assert(is_lowest_id(m, q));
    if q < r {
        let k = choose|k: Seq<char>| #[trigger] m.contains_key(k) && id_value(k) == q;
        assert(r <= id_value(k));
    }
    if r < q {
        let k = choose|k: Seq<char>| #[trigger] m.contains_key(k) && id_value(k) == r;
        assert(q <= id_value(k));
    }
}

/// At most one number is the greatest id of a table.
pub proof fn lemma_highest_id_unique(m: Map<Seq<char>, Seq<char>>, r: i32)
    requires
        is_highest_id(m, r),
    ensures
        highest_id(m) == r,
{
    let q = highest_id(m);
    assert(is_highest_id(m, q));
    if q < r {
        let k = choose|k: Seq<char>| #[trigger] m.contains_key(k) && id_value(k) == r;
        assert(id_value(k) <= q);
    }
    if r < q {
        let k = choose|k: Seq<char>| #[trigger] m.contains_key(k) && id_value(k) == q;
        assert(id_value(k) <= r);
    }
}

/// The map that a list of `(id, address)` pairs describes: each id that
/// occurs in the list, to the address beside it.
pub open spec fn pairs_view(pairs: Seq<(String, String)>) -> Map<Seq<char>, Seq<char>> {
    Map::new(
        |k: Seq<char>| exists|i: int| 0 <= i < pairs.len() && (#[trigger] pairs[i]).0@ == k,
        |k: Seq<char>| pairs[choose|i: int| 0 <= i < pairs.len() && (#[trigger] pairs[i]).0@ == k].1@,
    )
}

/// No id occurs twice in the list.
pub open spec fn keys_distinct(pairs: Seq<(String, String)>) -> bool {
    forall|i: int, j: int|
        0 <= i < pairs.len() && 0 <= j < pairs.len() && i != j ==> (#[trigger] pairs[i]).0@
            != (#[trigger] pairs[j]).0@
}

/// In a list without repeated ids, the entry at `i` is what the map holds
/// for its id.
pub proof fn lemma_pairs_view_entry(pairs: Seq<(String, String)>, i: int)
    requires
        keys_distinct(pairs),
        0 <= i < pairs.len(),
    ensures
        pairs_view(pairs).contains_key(pairs[i].0@),
        pairs_view(pairs)[pairs[i].0@] == pairs[i].1@,
{
    let k = pairs[i].0@;
    assert(pairs_view(pairs).dom().contains(k));
    let j = choose|j: int| 0 <= j < pairs.len() && (#[trigger] pairs[j]).0@ == k;
    assert(j == i);
}

/// Every id in the map is the id of some entry of the list.
pub proof fn lemma_pairs_view_key(pairs: Seq<(String, String)>, k: Seq<char>)
    requires
        pairs_view(pairs).contains_key(k),
    ensures
        exists|i: int| 0 <= i < pairs.len() && (#[trigger] pairs[i]).0@ == k,
{
}

/// Server ids and the addresses they are reached at.
pub struct IdTable {
    entries: Vec<(String, String)>,
}

impl IdTable {
    #[verifier::type_invariant]
    spec fn inv(self) -> bool {
        keys_distinct(self.entries@)
    }
}

impl View for IdTable {
    type V = Map<Seq<char>, Seq<char>>;

    closed spec fn view(&self) -> Map<Seq<char>, Seq<char>> {
        pairs_view(self.entries@)
    }
}

impl IdTable {
    /// A table with no entries.
    pub fn new() -> (res: IdTable)
        ensures
            res@ == Map::<Seq<char>, Seq<char>>::empty(),
    {
        let res = IdTable { entries: Vec::new() };
        assert(res@ =~= Map::<Seq<char>, Seq<char>>::empty());
        res
    }

    fn position(entries: &Vec<(String, String)>, key: &String) -> (res: Option<usize>)
        requires
            keys_distinct(entries@),
        ensures
            match res {
                Some(i) => i < entries.len() && entries@[i as int].0@ == key@,
                None => !pairs_view(entries@).contains_key(key@),
            },
    {
        let mut i: usize = 0;
        while i < entries.len()
            invariant
                i <= entries.len(),
                forall|j: int| 0 <= j < i ==> (#[trigger] entries@[j]).0@ != key@,
            decreases entries.len() - i,
        {
            if entries[i].0 == *key {
                return Some(i);
            }
            i = i + 1;
        }
        None
    }

    /// The address recorded for `key`, if any.
    pub fn get(&self, key: &String) -> (res: Option<String>)
        ensures
            match res {
                Some(v) => self@.contains_key(key@) && v@ == self@[key@],
                None => !self@.contains_key(key@),
            },
    {
        proof {
            use_type_invariant(self);
        }
        match Self::position(&self.entries, key) {
            Some(i) => {
                proof {
                    lemma_pairs_view_entry(self.entries@, i as int);
                }
                Some(self.entries[i].1.clone())
            },
            None => None,
        }
    }

    /// Whether `key` has an entry.
    pub fn contains(&self, key: &String) -> (res: bool)
        ensures
            res == self@.contains_key(key@),
    {
        proof {
            use_type_invariant(self);
        }
        match Self::position(&self.entries, key) {
            Some(i) => {
                proof {
                    lemma_pairs_view_entry(self.entries@, i as int);
                }
                true
            },
            None => false,
        }
    }

    /// Removes the entry of `key`, if there is one.
    pub fn remove(&mut self, key: &String)
        ensures
            final(self)@ == old(self)@.remove(key@),
    {
        proof {
            use_type_invariant(&*self);
        }
        let mut entries: Vec<(String, String)> = Vec::new();
        std::mem::swap(&mut entries, &mut self.entries);
        let ghost before = entries@;
        match Self::position(&entries, key) {
            Some(i) => {
                entries.remove(i);
                let ghost after = entries@;
                assert forall|a: int, b: int|
                    0 <= a < after.len() && 0 <= b < after.len() && a != b implies (#[trigger] after[a]).0@
                    != (#[trigger] after[b]).0@ by {
                    let a0 = if a < i { a } else { a + 1 };
                    let b0 = if b < i { b } else { b + 1 };
                    assert(after[a] == before[a0]);
                    assert(after[b] == before[b0]);
                }
                assert forall|k: Seq<char>|
                    #![trigger pairs_view(after).contains_key(k)]
                    #![trigger pairs_view(before).remove(key@).contains_key(k)]
                    pairs_view(after).contains_key(k) == pairs_view(before).remove(key@).contains_key(k)
                    && (pairs_view(after).contains_key(k) ==> pairs_view(after)[k] == pairs_view(
                        before,
                    ).remove(key@)[k]) by {
                    if pairs_view(after).contains_key(k) {
                        let a = choose|a: int| 0 <= a < after.len() && (#[trigger] after[a]).0@ == k;
                        let a0 = if a < i { a } else { a + 1 };
                        assert(after[a] == before[a0]);
                        lemma_pairs_view_entry(after, a);
                        lemma_pairs_view_entry(before, a0);
                    }
                    if pairs_view(before).remove(key@).contains_key(k) {
                        let b = choose|b: int| 0 <= b < before.len() && (#[trigger] before[b]).0@ == k;
                        assert(b != i);
                        let a = if b < i { b } else { b - 1 };
                        assert(after[a] == before[b]);
                    }
                }
                assert(pairs_view(after) =~= pairs_view(before).remove(key@));
            },
            None => {
                assert(pairs_view(before) =~= pairs_view(before).remove(key@));
            },
        }
        self.entries = entries;
    }

    /// Records `value` as the address of `key`, replacing any earlier one.
    pub fn insert(&mut self, key: String, value: String)
        ensures
            final(self)@ == old(self)@.insert(key@, value@),
    {
        let ghost k = key@;
        let ghost v = value@;
        self.remove(&key);
        proof {
            use_type_invariant(&*self);
        }
        let mut entries: Vec<(String, String)> = Vec::new();
        std::mem::swap(&mut entries, &mut self.entries);
        let ghost before = entries@;
        assert(!pairs_view(before).contains_key(k));
        entries.push((key, value));
        let ghost after = entries@;
        assert forall|a: int, b: int|
            0 <= a < after.len() && 0 <= b < after.len() && a != b implies (#[trigger] after[a]).0@
            != (#[trigger] after[b]).0@ by {
            if a == before.len() {
                assert(before[b] == after[b]);
                if after[b].0@ == k {
                    lemma_pairs_view_entry(before, b);
                }
            } else if b == before.len() {
                assert(before[a] == after[a]);
                if after[a].0@ == k {
                    lemma_pairs_view_entry(before, a);
                }
            } else {
                assert(before[a] == after[a]);
                assert(before[b] == after[b]);
            }
        }
        assert forall|q: Seq<char>|
            #![trigger pairs_view(after).contains_key(q)]
            #![trigger pairs_view(before).insert(k, v).contains_key(q)]
            pairs_view(after).contains_key(q) == pairs_view(before).insert(k, v).contains_key(q) && (
            pairs_view(after).contains_key(q) ==> pairs_view(after)[q] == pairs_view(before).insert(
                k,
                v,
            )[q]) by {
            if pairs_view(after).contains_key(q) {
                let a = choose|a: int| 0 <= a < after.len() && (#[trigger] after[a]).0@ == q;
                lemma_pairs_view_entry(after, a);
                if a < before.len() {
                    assert(after[a] == before[a]);
                    lemma_pairs_view_entry(before, a);
                }
            }
            if pairs_view(before).contains_key(q) {
                let b = choose|b: int| 0 <= b < before.len() && (#[trigger] before[b]).0@ == q;
                assert(after[b] == before[b]);
            }
            if q == k {
                assert(after[before.len() as int].0@ == k);
            }
        }
        assert(pairs_view(after) =~= pairs_view(before).insert(k, v));
        self.entries = entries;
    }

    /// The entries as a list of `(id, address)` pairs, without repeats.
    pub fn to_pairs(&self) -> (res: Vec<(String, String)>)
        ensures
            keys_distinct(res@),
            pairs_view(res@) == self@,
    {
        proof {
            use_type_invariant(self);
        }
        let mut out: Vec<(String, String)> = Vec::new();
        let mut i: usize = 0;
        while i < self.entries.len()
            invariant
                i <= self.entries.len(),
                out@ == self.entries@.take(i as int),
            decreases self.entries.len() - i,
        {
            let entry = (self.entries[i].0.clone(), self.entries[i].1.clone());
            out.push(entry);
            proof {
                assert(out@ =~= self.entries@.take(i + 1));
            }
            i = i + 1;
        }
        proof {
            assert(out@ =~= self.entries@);
        }
        out
    }
}

impl IdTable {
    /// The least id number in the table, reading every id as an `i32`.
    pub fn lowest_id(&self) -> (res: i32)
        requires
            ids_numeric(self@),
        ensures
            res == lowest_id(self@),
            is_lowest_id(self@, res),
    {
        proof {
            use_type_invariant(self);
        }
        let ghost m = self@;
        let mut low: i32 = i32::MAX;
        let mut i: usize = 0;
        while i < self.entries.len()
            invariant
                i <= self.entries.len(),
                m == pairs_view(self.entries@),
                keys_distinct(self.entries@),
                ids_numeric(m),
                forall|j: int| 0 <= j < i ==> low <= id_value((#[trigger] self.entries@[j]).0@),
                low == i32::MAX || exists|j: int| 0 <= j < i && id_value((#[trigger] self.entries@[j]).0@) == low,
            decreases self.entries.len() - i,
        {
            proof {
                lemma_pairs_view_entry(self.entries@, i as int);
            }
            let parsed = parse_i32(self.entries[i].0.as_str());
            let id = parsed.unwrap();
            if id < low {
                low = id;
            }
            i = i + 1;
        }
        proof {
            assert forall|k: Seq<char>| #[trigger] m.contains_key(k) implies low <= id_value(k) by {
                lemma_pairs_view_key(self.entries@, k);
            }
            if low != i32::MAX {
                let j = choose|j: int| 0 <= j < self.entries.len() && id_value((#[trigger] self.entries@[j]).0@) == low;
                lemma_pairs_view_entry(self.entries@, j);
                assert(m.contains_key(self.entries@[j].0@));
            }
            lemma_lowest_id_unique(m, low);
        }
        low
    }

    /// The greatest id number in the table, reading every id as an `i32`.
    pub fn highest_id(&self) -> (res: i32)
        requires
            ids_numeric(self@),
        ensures
            res == highest_id(self@),
            is_highest_id(self@, res),
    {
        proof {
            use_type_invariant(self);
        }
        let ghost m = self@;
        let mut high: i32 = i32::MIN;
        let mut i: usize = 0;
        while i < self.entries.len()
            invariant
                i <= self.entries.len(),
                m == pairs_view(self.entries@),
                keys_distinct(self.entries@),
                ids_numeric(m),
                forall|j: int| 0 <= j < i ==> id_value((#[trigger] self.entries@[j]).0@) <= high,
                high == i32::MIN || exists|j: int| 0 <= j < i && id_value((#[trigger] self.entries@[j]).0@) == high,
            decreases self.entries.len() - i,
        {
            proof {
                lemma_pairs_view_entry(self.entries@, i as int);
            }
            let parsed = parse_i32(self.entries[i].0.as_str());
            let id = parsed.unwrap();
            if id > high {
                high = id;
            }
            i = i + 1;
        }
        proof {
            assert forall|k: Seq<char>| #[trigger] m.contains_key(k) implies id_value(k) <= high by {
                lemma_pairs_view_key(self.entries@, k);
            }
            if high != i32::MIN {
                let j = choose|j: int| 0 <= j < self.entries.len() && id_value((#[trigger] self.entries@[j]).0@) == high;
                lemma_pairs_view_entry(self.entries@, j);
                assert(m.contains_key(self.entries@[j].0@));
            }
            lemma_highest_id_unique(m, high);
        }
        high
    }
}

/// Adding an entry with a fresh id to a list adds that id to its map.
pub proof fn lemma_pairs_view_push(pairs: Seq<(String, String)>, e: (String, String))
    requires
        keys_distinct(pairs.push(e)),
    ensures
        pairs_view(pairs.push(e)) == pairs_view(pairs).insert(e.0@, e.1@),
{
    let after = pairs.push(e);
    assert(keys_distinct(pairs)) by {
        assert forall|a: int, b: int|
            0 <= a < pairs.len() && 0 <= b < pairs.len() && a != b implies (#[trigger] pairs[a]).0@
            != (#[trigger] pairs[b]).0@ by {
            assert(after[a] == pairs[a]);
            assert(after[b] == pairs[b]);
        }
    }
    assert forall|q: Seq<char>|
        #![trigger pairs_view(after).contains_key(q)]
        #![trigger pairs_view(pairs).insert(e.0@, e.1@).contains_key(q)]
        pairs_view(after).contains_key(q) == pairs_view(pairs).insert(e.0@, e.1@).contains_key(q) && (
        pairs_view(after).contains_key(q) ==> pairs_view(after)[q] == pairs_view(pairs).insert(
            e.0@,
            e.1@,
        )[q]) by {
        if pairs_view(after).contains_key(q) {
            let a = choose|a: int| 0 <= a < after.len() && (#[trigger] after[a]).0@ == q;
            lemma_pairs_view_entry(after, a);
            if a < pairs.len() {
                assert(after[a] == pairs[a]);
                lemma_pairs_view_entry(pairs, a);
            }
        }
        if pairs_view(pairs).contains_key(q) {
            let b = choose|b: int| 0 <= b < pairs.len() && (#[trigger] pairs[b]).0@ == q;
            assert(after[b] == pairs[b]);
        }
        if q == e.0@ {
            assert(after[pairs.len() as int].0@ == q);
        }
    }
    assert(pairs_view(after) =~= pairs_view(pairs).insert(e.0@, e.1@));
}

impl IdTable {
    /// Whether every id of the table reads as an `i32`.
    pub fn all_ids_numeric(&self) -> (res: bool)
        ensures
            res == ids_numeric(self@),
    {
        proof {
            use_type_invariant(self);
        }
        let mut i: usize = 0;
        while i < self.entries.len()
            invariant
                i <= self.entries.len(),
                keys_distinct(self.entries@),
                forall|j: int| 0 <= j < i ==> spec_parse_i32((#[trigger] self.entries@[j]).0@) is Some,
            decreases self.entries.len() - i,
        {
            if parse_i32(self.entries[i].0.as_str()).is_none() {
                proof {
                    lemma_pairs_view_entry(self.entries@, i as int);
                }
                return false;
            }
            i = i + 1;
        }
        proof {
            assert forall|k: Seq<char>| #[trigger] self@.contains_key(k) implies spec_parse_i32(k) is Some by {
                lemma_pairs_view_key(self.entries@, k);
            }
        }
        true
    }

    /// The entries of every id but `key`, as `(id, address)` pairs in
    /// storage order.
    pub fn pairs_without(&self, key: &String) -> (res: Vec<(String, String)>)
        ensures
            keys_distinct(res@),
            pairs_view(res@) == self@.remove(key@),
    {
        proof {
            use_type_invariant(self);
        }
        let ghost src = self.entries@;
        let mut out: Vec<(String, String)> = Vec::new();
        let mut i: usize = 0;
        proof {
            assert(pairs_view(out@) =~= pairs_view(src.take(0)).remove(key@));
        }
        while i < self.entries.len()
            invariant
                i <= self.entries.len(),
                src == self.entries@,
                keys_distinct(src),
                keys_distinct(out@),
                pairs_view(out@) == pairs_view(src.take(i as int)).remove(key@),
            decreases self.entries.len() - i,
        {
            proof {
                assert(src.take(i + 1) =~= src.take(i as int).push(src[i as int]));
                assert(keys_distinct(src.take(i + 1))) by {
                    assert forall|a: int, b: int|
                        0 <= a < i + 1 && 0 <= b < i + 1 && a != b implies (#[trigger] src.take(i + 1)[a]).0@
                        != (#[trigger] src.take(i + 1)[b]).0@ by {
                        assert(src.take(i + 1)[a] == src[a]);
                        assert(src.take(i + 1)[b] == src[b]);
                    }
                }
                lemma_pairs_view_push(src.take(i as int), src[i as int]);
            }
            if self.entries[i].0 != *key {
                let entry = (self.entries[i].0.clone(), self.entries[i].1.clone());
                proof {
                    let k = entry.0@;
                    if pairs_view(out@).contains_key(k) {
                        let a = choose|a: int| 0 <= a < i && (#[trigger] src.take(i as int)[a]).0@ == k;
                        assert(src.take(i as int)[a] == src[a]);
                    }
                    assert(!pairs_view(out@).contains_key(k));
                    assert(keys_distinct(out@.push(entry))) by {
                        let after = out@.push(entry);
                        assert forall|a: int, b: int|
                            0 <= a < after.len() && 0 <= b < after.len() && a != b implies (#[trigger] after[a]).0@
                            != (#[trigger] after[b]).0@ by {
                            if a == out@.len() {
                                assert(after[b] == out@[b]);
                                lemma_pairs_view_entry(out@, b);
                            } else if b == out@.len() {
                                assert(after[a] == out@[a]);
                                lemma_pairs_view_entry(out@, a);
                            } else {
                                assert(after[a] == out@[a]);
                                assert(after[b] == out@[b]);
                            }
                        }
                    }
                    lemma_pairs_view_push(out@, entry);
                    assert(pairs_view(out@.push(entry)) =~= pairs_view(src.take(i + 1)).remove(key@));
                }
                out.push(entry);
            } else {
                proof {
                    assert(pairs_view(out@) =~= pairs_view(src.take(i + 1)).remove(key@));
                }
            }
            i = i + 1;
        }
        proof {
            assert(src.take(self.entries.len() as int) =~= src);
        }
        out
    }
}

/// A list of pairs describes a map with finitely many ids.
pub proof fn lemma_pairs_view_finite(pairs: Seq<(String, String)>)
    ensures
        pairs_view(pairs).dom().finite(),
    decreases pairs.len(),
{
    if pairs.len() == 0 {
        assert(pairs_view(pairs).dom() =~= Set::<Seq<char>>::empty());
    } else {
        let front = pairs.drop_last();
        lemma_pairs_view_finite(front);
        assert forall|q: Seq<char>|
            #[trigger] pairs_view(pairs).dom().contains(q) == pairs_view(front).dom().insert(pairs.last().0@).contains(q) by {
            if pairs_view(pairs).dom().contains(q) {
                let a = choose|a: int| 0 <= a < pairs.len() && (#[trigger] pairs[a]).0@ == q;
                if a < front.len() {
                    assert(front[a] == pairs[a]);
                }
            }
            if pairs_view(front).dom().contains(q) {
                let a = choose|a: int| 0 <= a < front.len() && (#[trigger] front[a]).0@ == q;
                assert(front[a] == pairs[a]);
            }
            if q == pairs.last().0@ {
                assert(pairs[pairs.len() - 1].0@ == q);
            }
        }
        assert(pairs_view(pairs).dom() =~= pairs_view(front).dom().insert(pairs.last().0@));
    }
}

impl IdTable {
    /// A table holds finitely many ids.
    pub proof fn lemma_finite(&self)
        ensures
            self@.dom().finite(),
    {
        lemma_pairs_view_finite(self.entries@);
    }
}

} // verus!
