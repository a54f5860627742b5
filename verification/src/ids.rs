//! Sets of ids and maps from ids, where an id is the text by which tmux names a pane or a window.
use crate::text::{same_text, texts};
use vstd::prelude::*;

verus! {

/// A set of ids, in the order in which they were first added. Its view is the set of texts.
pub struct IdSet {
    items: Vec<String>,
}

impl View for IdSet {
    type V = Set<Seq<char>>;

    closed spec fn view(&self) -> Set<Seq<char>> {
        texts(self.items@).to_set()
    }
}

impl IdSet {
    /// No id occurs twice.
    pub closed spec fn wf(self) -> bool {
        texts(self.items@).no_duplicates()
    }

    /// The ids in the order in which they were first added.
    pub closed spec fn listed(self) -> Seq<Seq<char>> {
        texts(self.items@)
    }

    /// The empty set.
    pub fn new() -> (res: Self)
        ensures
            res.wf(),
            res@ == Set::<Seq<char>>::empty(),
            res.listed() == Seq::<Seq<char>>::empty(),
    {
        let res = IdSet { items: Vec::new() };
        assert(texts(res.items@) =~= Seq::empty());
        assert(res@ =~= Set::<Seq<char>>::empty());
        res
    }

    /// The index of `id`, if it is in the set.
    fn position(&self, id: &str) -> (res: Option<usize>)
        ensures
            match res {
                Some(i) => i < self.items@.len() && self.items@[i as int]@ == id@,
                None => !texts(self.items@).contains(id@),
            },
    {
        let mut i: usize = 0;
        while i < self.items.len()
            invariant
                i <= self.items@.len(),
                forall|j: int| 0 <= j < i ==> #[trigger] self.items@[j]@ != id@,
            decreases self.items@.len() - i,
        {
            if same_text(self.items[i].as_str(), id) {
                return Some(i);
            }
            i = i + 1;
        }
        None
    }

    /// Whether `id` is in the set.
    pub fn contains(&self, id: &str) -> (res: bool)
        ensures
            res == self@.contains(id@),
    {
        match self.position(id) {
            Some(i) => {
                assert(texts(self.items@)[i as int] == id@);
                true
            },
            None => false,
        }
    }

    /// Adds `id`. The result says whether it is new to the set.
    pub fn insert(&mut self, id: &str) -> (res: bool)
        requires
            old(self).wf(),
        ensures
            final(self).wf(),
            res == !old(self)@.contains(id@),
            final(self)@ == old(self)@.insert(id@),
            final(self).listed() == if res {
                old(self).listed().push(id@)
            } else {
                old(self).listed()
            },
    {
        if self.contains(id) {
            assert(self@ =~= old(self)@.insert(id@));
            false
        } else {
            self.items.push(id.to_owned());
            proof {
                let before = texts(old(self).items@);
                assert(texts(self.items@) =~= before.push(id@));
                before.lemma_push_to_set_commute(id@);
            }
            true
        }
    }

    /// Takes `id` out of the set.
    pub fn remove(&mut self, id: &str)
        requires
            old(self).wf(),
        ensures
            final(self).wf(),
            final(self)@ == old(self)@.remove(id@),
            final(self).listed() == old(self).listed().remove_value(id@),
    {
        proof {
            texts(self.items@).index_of_first_ensures(id@);
        }
        match self.position(id) {
            Some(i) => {
                let ghost before = texts(self.items@);
                let _ = self.items.remove(i);
                proof {
                    let after = texts(self.items@);
                    assert(after =~= before.remove(i as int));
                    assert(before[i as int] == id@);
                    assert forall|t: Seq<char>| self@.contains(t) == old(self)@.remove(
                        id@,
                    ).contains(t) by {
                        if after.contains(t) {
                            let k = after.index_of(t);
                            if k < i {
                                assert(before[k] == t);
                            } else {
                                assert(before[k + 1] == t);
                            }
                        }
                        if before.contains(t) && t != id@ {
                            let k = before.index_of(t);
                            if k < i {
                                assert(after[k] == t);
                            } else {
                                assert(after[k - 1] == t);
                            }
                        }
                    }
                    assert(self@ =~= old(self)@.remove(id@));
                }
            },
            None => {
                assert(self@ =~= old(self)@.remove(id@));
            },
        }
    }

    /// The ids in the order in which they were first added.
    pub fn to_vec(&self) -> (res: Vec<String>)
        ensures
            texts(res@) == self.listed(),
            texts(res@).to_set() == self@,
            self.wf() ==> texts(res@).no_duplicates(),
    {
        let mut out: Vec<String> = Vec::new();
        let mut i: usize = 0;
        while i < self.items.len()
            invariant
                i <= self.items@.len(),
                texts(out@) == texts(self.items@).take(i as int),
            decreases self.items@.len() - i,
        {
            let ghost before = texts(out@);
            out.push(self.items[i].clone());
            assert(texts(out@) =~= before.push(self.items@[i as int]@));
            assert(texts(self.items@).take(i + 1) =~= texts(self.items@).take(i as int).push(
                self.items@[i as int]@,
            ));
            i = i + 1;
        }
        assert(texts(self.items@).take(i as int) =~= texts(self.items@));
        out
    }
}

/// A map from ids to values. Its view maps each text to its value.
pub struct IdMap<V> {
    entries: Vec<(String, V)>,
}

/// The map that `entries` list.
spec fn map_of<V>(entries: Seq<(String, V)>) -> Map<Seq<char>, V> {
    Map::new(
        |id: Seq<char>| exists|i: int| 0 <= i < entries.len() && #[trigger] entries[i].0@ == id,
        |id: Seq<char>|
            entries[choose|i: int| 0 <= i < entries.len() && #[trigger] entries[i].0@ == id].1,
    )
}

/// Whether no two entries have the same id.
spec fn distinct<V>(entries: Seq<(String, V)>) -> bool {
    forall|i: int, j: int|
        0 <= i < j < entries.len() ==> #[trigger] entries[i].0@ != #[trigger] entries[j].0@
}

proof fn lemma_map_entry<V>(entries: Seq<(String, V)>, i: int)
    requires
        distinct(entries),
        0 <= i < entries.len(),
    ensures
        map_of(entries).contains_key(entries[i].0@),
        map_of(entries)[entries[i].0@] == entries[i].1,
{
    let id = entries[i].0@;
    assert(entries[i].0@ == id);
    let k = choose|k: int| 0 <= k < entries.len() && #[trigger] entries[k].0@ == id;
    assert(k == i);
}

proof fn lemma_map_key<V>(entries: Seq<(String, V)>, id: Seq<char>) -> (i: int)
    requires
        distinct(entries),
        map_of(entries).contains_key(id),
    ensures
        0 <= i < entries.len(),
        entries[i].0@ == id,
        map_of(entries)[id] == entries[i].1,
{
    let i = choose|i: int| 0 <= i < entries.len() && #[trigger] entries[i].0@ == id;
    lemma_map_entry(entries, i);
    i
}

impl<V> View for IdMap<V> {
    type V = Map<Seq<char>, V>;

    closed spec fn view(&self) -> Map<Seq<char>, V> {
        map_of(self.entries@)
    }
}

impl<V> IdMap<V> {
    /// No id occurs twice.
    pub closed spec fn wf(self) -> bool {
        distinct(self.entries@)
    }

    /// The empty map.
    pub fn new() -> (res: Self)
        ensures
            res.wf(),
            res@ == Map::<Seq<char>, V>::empty(),
    {
        let res = IdMap { entries: Vec::new() };
        assert(res@ =~= Map::<Seq<char>, V>::empty());
        res
    }

    /// The index of the entry of `id`, if there is one.
    fn position(&self, id: &str) -> (res: Option<usize>)
        ensures
            match res {
                Some(i) => i < self.entries@.len() && self.entries@[i as int].0@ == id@,
                None => !self@.contains_key(id@),
            },
    {
        let mut i: usize = 0;
        while i < self.entries.len()
            invariant
                i <= self.entries@.len(),
                forall|j: int| 0 <= j < i ==> #[trigger] self.entries@[j].0@ != id@,
            decreases self.entries@.len() - i,
        {
            if same_text(self.entries[i].0.as_str(), id) {
                return Some(i);
            }
            i = i + 1;
        }
        None
    }

    /// The value of `id`, if it has one.
    pub fn get(&self, id: &str) -> (res: Option<&V>)
        requires
            self.wf(),
        ensures
            match res {
                Some(v) => self@.contains_key(id@) && *v == self@[id@],
                None => !self@.contains_key(id@),
            },
    {
        match self.position(id) {
            Some(i) => {
                proof {
                    lemma_map_entry(self.entries@, i as int);
                }
                Some(&self.entries[i].1)
            },
            None => None,
        }
    }

    /// Gives `id` the value `value`, in place of the one it had.
    pub fn insert(&mut self, id: &str, value: V)
        requires
            old(self).wf(),
        ensures
            final(self).wf(),
            final(self)@ == old(self)@.insert(id@, value),
    {
        let ghost before = self.entries@;
        match self.position(id) {
            Some(i) => {
                self.entries[i] = (id.to_owned(), value);
                proof {
                    let after = self.entries@;
                    assert forall|a: int, b: int| 0 <= a < b < after.len() implies
                        #[trigger] after[a].0@ != #[trigger] after[b].0@ by {
                        assert(before[a].0@ != before[b].0@);
                    }
                    assert forall|k: Seq<char>| self@.contains_key(k) == old(self)@.insert(
                        id@,
                        value,
                    ).contains_key(k) by {
                        if self@.contains_key(k) {
                            let j = lemma_map_key(after, k);
                            lemma_map_entry(before, j);
                        }
                        if old(self)@.contains_key(k) {
                            let j = lemma_map_key(before, k);
                            lemma_map_entry(after, j);
                        }
                        lemma_map_entry(after, i as int);
                    }
                    assert forall|k: Seq<char>| self@.contains_key(k) implies self@[k] == old(
                        self,
                    )@.insert(id@, value)[k] by {
                        let j = lemma_map_key(after, k);
                        lemma_map_entry(before, j);
                    }
                    assert(self@ =~= old(self)@.insert(id@, value));
                }
            },
            None => {
                self.entries.push((id.to_owned(), value));
                proof {
                    let after = self.entries@;
                    let last = after.len() - 1;
                    assert forall|a: int, b: int| 0 <= a < b < after.len() implies
                        #[trigger] after[a].0@ != #[trigger] after[b].0@ by {
                        assert(after[a] == before[a]);
                        lemma_map_entry(before, a);
                        if b < last {
                            assert(after[b] == before[b]);
                        }
                    }
                    assert forall|k: Seq<char>| self@.contains_key(k) == old(self)@.insert(
                        id@,
                        value,
                    ).contains_key(k) by {
                        if self@.contains_key(k) {
                            let j = lemma_map_key(after, k);
                            if j < last {
                                lemma_map_entry(before, j);
                            }
                        }
                        if old(self)@.contains_key(k) {
                            let j = lemma_map_key(before, k);
                            assert(after[j] == before[j]);
                            lemma_map_entry(after, j);
                        }
                        lemma_map_entry(after, last);
                    }
                    assert forall|k: Seq<char>| self@.contains_key(k) implies self@[k] == old(
                        self,
                    )@.insert(id@, value)[k] by {
                        let j = lemma_map_key(after, k);
                        if j < last {
                            lemma_map_entry(before, j);
                        }
                    }
                    assert(self@ =~= old(self)@.insert(id@, value));
                }
            },
        }
    }

    /// Drops every entry whose id is not in `keep`.
    pub fn retain(&mut self, keep: &IdSet)
        requires
            old(self).wf(),
        ensures
            final(self).wf(),
            final(self)@ == old(self)@.restrict(keep@),
    {
        let mut i: usize = 0;
        assert forall|j: int| 0 <= j < self.entries@.len() implies #[trigger] self.entries@[j].1
            == old(self)@[self.entries@[j].0@] && old(self)@.contains_key(
            self.entries@[j].0@,
        ) by {
            lemma_map_entry(self.entries@, j);
        }
        while i < self.entries.len()
            invariant
                i <= self.entries@.len(),
                distinct(self.entries@),
                old(self).wf(),
                forall|j: int|
                    0 <= j < self.entries@.len() ==> old(self)@.contains_key(
                        (#[trigger] self.entries@[j]).0@,
                    ) && self.entries@[j].1 == old(self)@[self.entries@[j].0@],
                forall|j: int| 0 <= j < i ==> keep@.contains((#[trigger] self.entries@[j]).0@),
                forall|k: Seq<char>|
                    old(self)@.contains_key(k) && keep@.contains(k) ==> #[trigger] map_of(
                        self.entries@,
                    ).contains_key(k),
            decreases self.entries@.len() - i,
        {
            if keep.contains(self.entries[i].0.as_str()) {
                i = i + 1;
            } else {
                let ghost before = self.entries@;
                let _ = self.entries.remove(i);
                proof {
                    let after = self.entries@;
                    assert(after =~= before.remove(i as int));
                    assert forall|a: int, b: int| 0 <= a < b < after.len() implies
                        #[trigger] after[a].0@ != #[trigger] after[b].0@ by {
                        let x = if a < i { a } else { a + 1 };
                        let y = if b < i { b } else { b + 1 };
                        assert(before[x].0@ != before[y].0@);
                    }
                    assert forall|k: Seq<char>|
                        old(self)@.contains_key(k) && keep@.contains(k) implies #[trigger] map_of(
                        after,
                    ).contains_key(k) by {
                        assert(map_of(before).contains_key(k));
                        let j = lemma_map_key(before, k);
                        let x = if j < i { j } else { j - 1 };
                        assert(after[x] == before[j]);
                        lemma_map_entry(after, x);
                    }
                }
            }
        }
        proof {
            assert forall|k: Seq<char>| #[trigger] self@.contains_key(k) implies old(self)@.restrict(
                keep@,
            ).contains_key(k) && self@[k] == old(self)@[k] by {
                let j = lemma_map_key(self.entries@, k);
            }
            assert(self@ =~= old(self)@.restrict(keep@));
        }
    }

    /// The ids that have a value.
    pub fn keys(&self) -> (res: Vec<String>)
        requires
            self.wf(),
        ensures
            texts(res@).no_duplicates(),
            texts(res@).to_set() == self@.dom(),
    {
        let mut out: Vec<String> = Vec::new();
        let mut i: usize = 0;
        while i < self.entries.len()
            invariant
                i <= self.entries@.len(),
                out@.len() == i,
                forall|j: int| 0 <= j < i ==> (#[trigger] out@[j])@ == self.entries@[j].0@,
            decreases self.entries@.len() - i,
        {
            out.push(self.entries[i].0.clone());
            i = i + 1;
        }
        proof {
            let keys = texts(out@);
            assert forall|a: int, b: int| 0 <= a < keys.len() && 0 <= b < keys.len() && a
                != b implies keys[a] != keys[b] by {
                assert(keys[a] == self.entries@[a].0@);
                assert(keys[b] == self.entries@[b].0@);
            }
            assert forall|k: Seq<char>| keys.to_set().contains(k) == self@.dom().contains(k) by {
                if keys.contains(k) {
                    let j = keys.index_of(k);
                    assert(self.entries@[j].0@ == k);
                    lemma_map_entry(self.entries@, j);
                }
                if self@.contains_key(k) {
                    let j = lemma_map_key(self.entries@, k);
                    assert(keys[j] == k);
                }
            }
            assert(keys.to_set() =~= self@.dom());
        }
        out
    }
}

} // verus!
