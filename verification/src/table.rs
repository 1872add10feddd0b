//! Tables of rows, each of which belongs to an owner and has a name there.

use vstd::prelude::*;

verus! {

/// What a table can hold.
pub trait Field: View + Sized {
    /// A copy.
    fn copy(&self) -> (out: Self)
        ensures
            out@ == self@,
    ;
}

/// What a row of a table can be found by.
pub trait Key: Field {
    /// Whether both are the same.
    fn same(&self, other: &Self) -> (out: bool)
        ensures
            out == (self@ == other@),
    ;
}

impl Field for () {
    fn copy(&self) -> (out: ()) {
        ()
    }
}

impl Key for () {
    fn same(&self, other: &()) -> (out: bool) {
        assert(self@ == other@);
        true
    }
}

impl Field for u64 {
    fn copy(&self) -> (out: u64) {
        *self
    }
}

impl Key for u64 {
    fn same(&self, other: &u64) -> (out: bool) {
        *self == *other
    }
}

impl Field for String {
    fn copy(&self) -> (out: String) {
        self.clone()
    }
}

impl Key for String {
    fn same(&self, other: &String) -> (out: bool) {
        *self == *other
    }
}

/// A row of a table.
#[derive(Debug)]
struct Row<K, V> {
    owner: u64,
    key: K,
    value: V,
}

impl<K: Key, V: Field> Row<K, V> {
    /// What the row is found by.
    spec fn place(self) -> (u64, K::V) {
        (self.owner, self.key@)
    }
}

/// A table in which no two rows have the same owner and key.
#[derive(Debug)]
pub struct Table<K, V> {
    rows: Vec<Row<K, V>>,
}

/// Whether no two rows have the same place.
spec fn distinct<K: Key, V: Field>(rows: Seq<Row<K, V>>) -> bool {
    forall|i: int, j: int|
        0 <= i < j < rows.len() ==> (#[trigger] rows[i]).place() != (#[trigger] rows[j]).place()
}

/// Whether some row has the place.
spec fn holds<K: Key, V: Field>(rows: Seq<Row<K, V>>, place: (u64, K::V)) -> bool {
    exists|i: int| 0 <= i < rows.len() && (#[trigger] rows[i]).place() == place
}

/// The row with the place.
spec fn index_of<K: Key, V: Field>(rows: Seq<Row<K, V>>, place: (u64, K::V)) -> int {
    choose|i: int| 0 <= i < rows.len() && (#[trigger] rows[i]).place() == place
}

/// What the rows say.
spec fn contents<K: Key, V: Field>(rows: Seq<Row<K, V>>) -> Map<(u64, K::V), V::V> {
    Map::new(|place: (u64, K::V)| holds(rows, place), |place| rows[index_of(rows, place)].value@)
}

/// Every row is part of what the rows say.
proof fn lemma_row<K: Key, V: Field>(rows: Seq<Row<K, V>>, i: int)
    requires
        distinct(rows),
        0 <= i < rows.len(),
    ensures
        contents(rows).contains_key(rows[i].place()),
        contents(rows)[rows[i].place()] == rows[i].value@,
{
    let k = index_of(rows, rows[i].place());
    assert(holds(rows, rows[i].place()));
    assert(rows[k].place() == rows[i].place());
}

/// Without one of the rows, the rest says the same of all other places.
proof fn lemma_removal<K: Key, V: Field>(rows: Seq<Row<K, V>>, i: int)
    requires
        distinct(rows),
        0 <= i < rows.len(),
    ensures
        distinct(rows.remove(i)),
        contents(rows.remove(i)) == contents(rows).remove(rows[i].place()),
{
    let rest = rows.remove(i);
    assert forall|j: int, k: int| 0 <= j < k < rest.len() implies (#[trigger] rest[j]).place() != (
    #[trigger] rest[k]).place() by {
        let a = if j < i {
            j
        } else {
            j + 1
        };
        let b = if k < i {
            k
        } else {
            k + 1
        };
        assert(rest[j] == rows[a] && rest[k] == rows[b]);
    }
    assert forall|p: (u64, K::V)| #[trigger]
        holds(rest, p) <==> holds(rows, p) && p != rows[i].place() by {
        if holds(rest, p) {
            let j = index_of(rest, p);
            let a = if j < i {
                j
            } else {
                j + 1
            };
            assert(rest[j] == rows[a]);
            assert(rows[a].place() == p);
            assert(rows[i].place() != rows[a].place());
        }
        if holds(rows, p) && p != rows[i].place() {
            let j = index_of(rows, p);
            let a = if j < i {
                j
            } else {
                j - 1
            };
            assert(rest[a] == rows[j]);
        }
    }
    assert forall|p: (u64, K::V)| holds(rest, p) implies #[trigger] contents(rest)[p] == contents(
        rows,
    )[p] by {
        let j = index_of(rest, p);
        let a = if j < i {
            j
        } else {
            j + 1
        };
        assert(rest[j] == rows[a]);
        lemma_row(rest, j);
        lemma_row(rows, a);
    }
    assert(contents(rest) =~= contents(rows).remove(rows[i].place()));
}

/// There are as many rows as places.
proof fn lemma_count<K: Key, V: Field>(rows: Seq<Row<K, V>>)
    requires
        distinct(rows),
    ensures
        contents(rows).dom().finite(),
        contents(rows).dom().len() == rows.len(),
{
    let places = rows.map_values(|row: Row<K, V>| row.place());
    assert(places.no_duplicates());
    places.unique_seq_to_set();
    assert forall|p: (u64, K::V)| #[trigger]
        contents(rows).dom().contains(p) <==> places.to_set().contains(p) by {
        if holds(rows, p) {
            assert(places[index_of(rows, p)] == p);
        }
        if places.contains(p) {
            let j = choose|j: int| 0 <= j < places.len() && places[j] == p;
            assert(rows[j].place() == p);
        }
    }
    assert(contents(rows).dom() =~= places.to_set());
}

/// Whether an entry is one of the first rows of an owner.
spec fn listed<K: Key, V: Field>(
    rows: Seq<Row<K, V>>,
    owner: u64,
    end: int,
    entry: (K, V),
) -> bool {
    exists|j: int|
        0 <= j < end && (#[trigger] rows[j]).owner == owner && rows[j].key@ == entry.0@
            && rows[j].value@ == entry.1@
}

/// An entry stays one of the first rows when there are more of them.
proof fn lemma_listed<K: Key, V: Field>(
    rows: Seq<Row<K, V>>,
    owner: u64,
    end: int,
    entry: (K, V),
)
    requires
        listed(rows, owner, end, entry),
    ensures
        listed(rows, owner, end + 1, entry),
{
    let j = choose|j: int|
        0 <= j < end && (#[trigger] rows[j]).owner == owner && rows[j].key@ == entry.0@
            && rows[j].value@ == entry.1@;
    assert(rows[j].owner == owner);
}

impl<K: Key, V: Field> View for Table<K, V> {
    type V = Map<(u64, K::V), V::V>;

    closed spec fn view(&self) -> Map<(u64, K::V), V::V> {
        contents(self.rows@)
    }
}

/// What a map says of one owner.
pub open spec fn of<A, B>(map: Map<(u64, A), B>, owner: u64) -> Map<A, B> {
    Map::new(|key: A| map.contains_key((owner, key)), |key: A| map[(owner, key)])
}

/// A map without what it says of one owner.
pub open spec fn without<A, B>(map: Map<(u64, A), B>, owner: u64) -> Map<(u64, A), B> {
    Map::new(
        |place: (u64, A)| place.0 != owner && map.contains_key(place),
        |place: (u64, A)| map[place],
    )
}

/// Whether a list holds exactly what a map says, each key once.
pub open spec fn lists<K: View, V: View>(list: Seq<(K, V)>, map: Map<K::V, V::V>) -> bool {
    &&& forall|i: int, j: int|
        0 <= i < j < list.len() ==> (#[trigger] list[i]).0@ != (#[trigger] list[j]).0@
    &&& forall|i: int|
        0 <= i < list.len() ==> map.contains_key((#[trigger] list[i]).0@) && map[list[i].0@]
            == list[i].1@
    &&& forall|key: K::V| #[trigger]
        map.contains_key(key) ==> exists|i: int|
            0 <= i < list.len() && (#[trigger] list[i]).0@ == key
}

/// Whether a list of keys with what they stand for holds exactly what a map says, each key once.
pub open spec fn tells<A, B>(list: Seq<(A, B)>, map: Map<A, B>) -> bool {
    &&& forall|i: int, j: int|
        0 <= i < j < list.len() ==> (#[trigger] list[i]).0 != (#[trigger] list[j]).0
    &&& forall|i: int|
        0 <= i < list.len() ==> map.contains_key((#[trigger] list[i]).0) && map[list[i].0]
            == list[i].1
    &&& forall|key: A| #[trigger]
        map.contains_key(key) ==> exists|i: int|
            0 <= i < list.len() && (#[trigger] list[i]).0 == key
}

/// The mathematical counterparts of pairs.
pub open spec fn pairs<K: View, V: View>(list: Seq<(K, V)>) -> Seq<(K::V, V::V)> {
    Seq::new(list.len(), |i: int| (list[i].0@, list[i].1@))
}

/// The rows of an owner, in their order.
spec fn rows_of<K: Key, V: Field>(rows: Seq<Row<K, V>>, owner: u64) -> Seq<(K::V, V::V)>
    decreases rows.len(),
{
    if rows.len() == 0 {
        Seq::empty()
    } else {
        let before = rows_of(rows.drop_last(), owner);
        if rows.last().owner == owner {
            before.push((rows.last().key@, rows.last().value@))
        } else {
            before
        }
    }
}

/// The rows of an owner tell what the rows say of the owner.
proof fn lemma_rows_of<K: Key, V: Field>(rows: Seq<Row<K, V>>, owner: u64)
    requires
        distinct(rows),
    ensures
        tells(rows_of(rows, owner), of(contents(rows), owner)),
    decreases rows.len(),
{
    if rows.len() > 0 {
        let rest = rows.drop_last();
        let last = rows.last();
        let end = rows.len() - 1;
        assert(rows.remove(end) =~= rest);
        lemma_removal(rows, end);
        lemma_row(rows, end);
        lemma_rows_of(rest, owner);
        let before = rows_of(rest, owner);
        let all = rows_of(rows, owner);
        let less = of(contents(rest), owner);
        let said = of(contents(rows), owner);
        if last.owner == owner {
            assert(less =~= said.remove(last.key@));
            assert forall|i: int, j: int| 0 <= i < j < all.len() implies (#[trigger] all[i]).0 != (
            #[trigger] all[j]).0 by {
                assert(all[i] == before[i]);
                if j < before.len() {
                    assert(all[j] == before[j]);
                }
            }
            assert forall|i: int| 0 <= i < all.len() implies said.contains_key(
                (#[trigger] all[i]).0,
            ) && said[all[i].0] == all[i].1 by {
                if i < before.len() {
                    assert(all[i] == before[i]);
                }
            }
            assert forall|key: K::V| #[trigger] said.contains_key(key) implies exists|i: int|
                0 <= i < all.len() && (#[trigger] all[i]).0 == key by {
                if key == last.key@ {
                    assert(all[before.len() as int].0 == key);
                } else {
                    assert(less.contains_key(key));
                    let i = choose|i: int|
                        0 <= i < before.len() && (#[trigger] before[i]).0 == key;
                    assert(all[i] == before[i]);
                }
            }
        } else {
            assert(less =~= said);
        }
    }
}

impl<K: Key, V: Field> Table<K, V> {
    /// What the table says of an owner, in the order in which it is listed.
    pub closed spec fn listing(self, owner: u64) -> Seq<(K::V, V::V)> {
        rows_of(self.rows@, owner)
    }

    /// No two rows have the same owner and key.
    pub closed spec fn well_formed(self) -> bool {
        distinct(self.rows@)
    }

    /// What is listed of an owner is what the table says of the owner.
    pub proof fn lemma_listing(self, owner: u64)
        requires
            self.well_formed(),
        ensures
            tells(self.listing(owner), of(self@, owner)),
    {
        lemma_rows_of(self.rows@, owner);
    }

    /// An empty table.
    pub fn new() -> (out: Table<K, V>)
        ensures
            out.well_formed(),
            out@ == Map::<(u64, K::V), V::V>::empty(),
    {
        let out = Table { rows: Vec::new() };
        assert(out@ =~= Map::<(u64, K::V), V::V>::empty());
        out
    }

    /// The index of a row.
    fn search(&self, owner: u64, key: &K) -> (out: Option<usize>)
        requires
            self.well_formed(),
        ensures
            match out {
                Some(i) => i < self.rows@.len() && self.rows@[i as int].place() == (owner, key@),
                None => !holds(self.rows@, (owner, key@)),
            },
    {
        let mut i: usize = 0;
        while i < self.rows.len()
            invariant
                i <= self.rows@.len(),
                forall|j: int|
                    0 <= j < i ==> (#[trigger] self.rows@[j]).place() != (owner, key@),
            decreases self.rows@.len() - i,
        {
            if self.rows[i].owner == owner && self.rows[i].key.same(key) {
                return Some(i);
            }
            i = i + 1;
        }
        None
    }

    /// What the table says of a key of an owner.
    pub fn get(&self, owner: u64, key: &K) -> (out: Option<V>)
        requires
            self.well_formed(),
        ensures
            out is Some <==> self@.contains_key((owner, key@)),
            match out {
                Some(value) => value@ == self@[(owner, key@)],
                None => true,
            },
    {
        match self.search(owner, key) {
            Some(i) => {
                proof {
                    lemma_row(self.rows@, i as int);
                }
                Some(self.rows[i].value.copy())
            },
            None => None,
        }
    }

    /// Sets what the table says of a key of an owner.
    pub fn put(&mut self, owner: u64, key: K, value: V)
        requires
            old(self).well_formed(),
        ensures
            final(self).well_formed(),
            final(self)@ == old(self)@.insert((owner, key@), value@),
    {
        let found = self.search(owner, &key);
        let ghost before = self.rows@;
        let ghost place = (owner, key@);
        let ghost said = value@;
        match found {
            Some(i) => {
                let row = Row { owner, key, value };
                self.rows.set(i, row);
                proof {
                    let after = self.rows@;
                    assert(after == before.update(i as int, row));
                    assert forall|j: int, k: int| 0 <= j < k < after.len() implies (
                    #[trigger] after[j]).place() != (#[trigger] after[k]).place() by {
                        assert(before[j].place() != before[k].place());
                    }
                    assert forall|p: (u64, K::V)| #[trigger] holds(after, p) <==> holds(before, p) by {
                        if holds(after, p) {
                            let j = index_of(after, p);
                            assert(before[j].place() == p);
                        }
                        if holds(before, p) {
                            let j = index_of(before, p);
                            assert(after[j].place() == p);
                        }
                    }
                    lemma_row(before, i as int);
                    lemma_row(after, i as int);
                    assert forall|p: (u64, K::V)| holds(before, p) && p != place implies #[trigger]
                        contents(after)[p] == contents(before)[p] by {
                        let j = index_of(before, p);
                        lemma_row(before, j);
                        assert(after[j] == before[j]);
                        lemma_row(after, j);
                    }
                    assert(contents(after) =~= contents(before).insert(place, said));
                }
            },
            None => {
                let row = Row { owner, key, value };
                self.rows.push(row);
                proof {
                    let after = self.rows@;
                    assert(after == before.push(row));
                    assert forall|j: int, k: int| 0 <= j < k < after.len() implies (
                    #[trigger] after[j]).place() != (#[trigger] after[k]).place() by {
                        assert(after[j] == before[j]);
                        if k < before.len() {
                            assert(after[k] == before[k]);
                        }
                    }
                    let last = before.len() as int;
                    lemma_row(after, last);
                    assert forall|p: (u64, K::V)| #[trigger]
                        holds(after, p) <==> holds(before, p) || p == place by {
                        if holds(after, p) {
                            let j = index_of(after, p);
                            if j < before.len() {
                                assert(before[j].place() == p);
                            }
                        }
                        if holds(before, p) {
                            let j = index_of(before, p);
                            assert(after[j].place() == p);
                        }
                        if p == place {
                            assert(after[last].place() == p);
                        }
                    }
                    assert forall|p: (u64, K::V)| holds(before, p) implies #[trigger] contents(
                        after,
                    )[p] == contents(before)[p] by {
                        let j = index_of(before, p);
                        lemma_row(before, j);
                        assert(after[j] == before[j]);
                        lemma_row(after, j);
                    }
                    assert(contents(after) =~= contents(before).insert(place, said));
                }
            },
        }
    }

    /// Takes a row out. Says whether it was there.
    pub fn remove(&mut self, owner: u64, key: &K) -> (out: bool)
        requires
            old(self).well_formed(),
        ensures
            final(self).well_formed(),
            out == old(self)@.contains_key((owner, key@)),
            final(self)@ == old(self)@.remove((owner, key@)),
    {
        let found = self.search(owner, key);
        match found {
            Some(i) => {
                proof {
                    lemma_row(self.rows@, i as int);
                    lemma_removal(self.rows@, i as int);
                }
                self.rows.remove(i);
                true
            },
            None => {
                assert(self@.remove((owner, key@)) =~= self@);
                false
            },
        }
    }

    /// Takes out all rows of an owner.
    pub fn clear(&mut self, owner: u64)
        requires
            old(self).well_formed(),
        ensures
            final(self).well_formed(),
            final(self)@ == without(old(self)@, owner),
    {
        let mut i: usize = 0;
        while i < self.rows.len()
            invariant
                self.well_formed(),
                i <= self.rows@.len(),
                forall|j: int| 0 <= j < i ==> (#[trigger] self.rows@[j]).owner != owner,
                without(self@, owner) == without(old(self)@, owner),
            decreases self.rows@.len() - i,
        {
            if self.rows[i].owner == owner {
                let ghost before = self@;
                proof {
                    lemma_row(self.rows@, i as int);
                    lemma_removal(self.rows@, i as int);
                }
                self.rows.remove(i);
                assert(without(self@, owner) =~= without(before, owner));
            } else {
                i = i + 1;
            }
        }
        assert(self@ =~= without(self@, owner));
    }

    /// Takes out all rows. Says how many there were.
    pub fn clear_all(&mut self) -> (out: usize)
        requires
            old(self).well_formed(),
        ensures
            final(self).well_formed(),
            final(self)@ == Map::<(u64, K::V), V::V>::empty(),
            old(self)@.dom().finite(),
            out == old(self)@.dom().len(),
    {
        let count: usize = self.rows.len();
        proof {
            lemma_count(self.rows@);
        }
        self.rows = Vec::new();
        assert(self@ =~= Map::<(u64, K::V), V::V>::empty());
        count
    }

    /// Lists what the table says of an owner.
    pub fn list(&self, owner: u64) -> (out: Vec<(K, V)>)
        requires
            self.well_formed(),
        ensures
            pairs(out@) == self.listing(owner),
            lists(out@, of(self@, owner)),
    {
        let mut out: Vec<(K, V)> = Vec::new();
        let mut i: usize = 0;
        while i < self.rows.len()
            invariant
                self.well_formed(),
                i <= self.rows@.len(),
                pairs(out@) =~= rows_of(self.rows@.take(i as int), owner),
                forall|k: int|
                    0 <= k < out@.len() ==> listed(self.rows@, owner, i as int, #[trigger] out@[k]),
                forall|j: int, k: int|
                    0 <= j < k < out@.len() ==> (#[trigger] out@[j]).0@ != (#[trigger] out@[k]).0@,
                forall|j: int|
                    0 <= j < i && (#[trigger] self.rows@[j]).owner == owner ==> exists|k: int|
                        0 <= k < out@.len() && (#[trigger] out@[k]).0@ == self.rows@[j].key@,
            decreases self.rows@.len() - i,
        {
            let ghost before = out@;
            proof {
                assert(self.rows@.take(i + 1).drop_last() == self.rows@.take(i as int));
                assert(self.rows@.take(i + 1).last() == self.rows@[i as int]);
            }
            if self.rows[i].owner == owner {
                let entry = (self.rows[i].key.copy(), self.rows[i].value.copy());
                out.push(entry);
                proof {
                    let rows = self.rows@;
                    assert(listed(rows, owner, i + 1, out@[before.len() as int])) by {
                        assert(rows[i as int].key@ == entry.0@);
                    }
                    assert forall|k: int| 0 <= k < out@.len() implies listed(
                        rows,
                        owner,
                        i + 1,
                        #[trigger] out@[k],
                    ) by {
                        if k < before.len() {
                            assert(out@[k] == before[k]);
                            lemma_listed(rows, owner, i as int, before[k]);
                        }
                    }
                    assert forall|j: int, k: int| 0 <= j < k < out@.len() implies (
                    #[trigger] out@[j]).0@ != (#[trigger] out@[k]).0@ by {
                        assert(out@[j] == before[j]);
                        if k < before.len() {
                            assert(out@[k] == before[k]);
                        } else {
                            assert(listed(rows, owner, i as int, before[j]));
                            let m = choose|m: int|
                                0 <= m < i && (#[trigger] rows[m]).owner == owner && rows[m].key@
                                    == before[j].0@ && rows[m].value@ == before[j].1@;
                            assert(rows[m].place() != rows[i as int].place());
                        }
                    }
                    assert forall|j: int|
                        0 <= j < i + 1 && (#[trigger] rows[j]).owner == owner implies exists|k: int|
                        0 <= k < out@.len() && (#[trigger] out@[k]).0@ == rows[j].key@ by {
                        if j < i {
                            let k = choose|k: int|
                                0 <= k < before.len() && (#[trigger] before[k]).0@ == rows[j].key@;
                            assert(out@[k] == before[k]);
                        } else {
                            assert(out@[before.len() as int].0@ == rows[j].key@);
                        }
                    }
                }
            } else {
                assert forall|k: int| 0 <= k < out@.len() implies listed(
                    self.rows@,
                    owner,
                    i + 1,
                    #[trigger] out@[k],
                ) by {
                    lemma_listed(self.rows@, owner, i as int, out@[k]);
                }
            }
            i = i + 1;
        }
        proof {
            let rows = self.rows@;
            assert(rows.take(i as int) == rows);
            let said = of(self@, owner);
            assert forall|k: int| 0 <= k < out@.len() implies said.contains_key(
                (#[trigger] out@[k]).0@,
            ) && said[out@[k].0@] == out@[k].1@ by {
                assert(listed(rows, owner, i as int, out@[k]));
                let m = choose|m: int|
                    0 <= m < i && (#[trigger] rows[m]).owner == owner && rows[m].key@ == out@[k].0@
                        && rows[m].value@ == out@[k].1@;
                lemma_row(rows, m);
            }
            assert forall|key: K::V| #[trigger] said.contains_key(key) implies exists|k: int|
                0 <= k < out@.len() && (#[trigger] out@[k]).0@ == key by {
                let m = index_of(rows, (owner, key));
                assert(rows[m].owner == owner && rows[m].key@ == key);
            }
        }
        out
    }
}

} // verus!
