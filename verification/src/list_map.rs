//! A small keyed collection: each key holds a list of strings in the order in
//! which they were filed, without repetition. A key is present exactly while
//! its list is non-empty.
use vstd::prelude::*;
use crate::lists::{
    lemma_push_fresh, lemma_texts_push, lemma_texts_remove, lemma_without_at, lemma_without_holds,
    list_of, texts, tidy, with_item, without, without_item, Lists, Text,
};

verus! {

struct Entry {
    key: String,
    items: Vec<String>,
}

/// Strings filed under string keys. Its view is a map from each key that is
/// present to the texts of its items, in filing order.
pub struct ListMap {
    entries: Vec<Entry>,
}

/// Where in `items` a string with the text of `item` stands, if one does.
fn position(items: &Vec<String>, item: &String) -> (at: Option<usize>)
    ensures
        match at {
            Some(i) => i < items.len() && items[i as int]@ == item@ && texts(items@).contains(
                item@,
            ),
            None => !texts(items@).contains(item@),
        },
{
    let mut i: usize = 0;
    while i < items.len()
        invariant
            i <= items.len(),
            forall|k: int| 0 <= k < i ==> items[k]@ != item@,
        decreases items.len() - i,
    {
        if items[i] == *item {
            assert(texts(items@)[i as int] == item@);
            return Some(i);
        }
        i += 1;
    }
    None
}

/// A copy of `items`, string by string.
pub fn copy_strings(items: &Vec<String>) -> (copy: Vec<String>)
    ensures
        texts(copy@) == texts(items@),
{
    let mut copy: Vec<String> = Vec::new();
    let mut i: usize = 0;
    while i < items.len()
        invariant
            i <= items.len(),
            texts(copy@) == texts(items@.take(i as int)),
        decreases items.len() - i,
    {
        proof {
            lemma_texts_push(copy@, items[i as int]);
            assert(items@.take(i + 1) =~= items@.take(i as int).push(items[i as int]));
        }
        copy.push(items[i].clone());
        i += 1;
    }
    assert(items@.take(items.len() as int) =~= items@);
    copy
}

impl ListMap {
    /// No key occurs twice, and every list is non-empty and free of
    /// repetition.
    pub closed spec fn wf(&self) -> bool {
        &&& forall|i: int, j: int|
            0 <= i < j < self.entries.len() ==> self.entries[i].key@ != self.entries[j].key@
        &&& forall|i: int|
            0 <= i < self.entries.len() ==> self.entries[i].items.len() > 0 && texts(
                #[trigger] self.entries[i].items@,
            ).no_duplicates()
    }

    spec fn has_key_at(&self, key: Text, i: int) -> bool {
        0 <= i < self.entries.len() && self.entries[i].key@ == key
    }

    spec fn slot(&self, key: Text) -> int {
        choose|i: int| self.has_key_at(key, i)
    }

    pub closed spec fn view(&self) -> Lists {
        Map::new(
            |key: Text| exists|i: int| self.has_key_at(key, i),
            |key: Text| texts(self.entries[self.slot(key)].items@),
        )
    }

    /// The entry at `i` is the one that the view shows for its key.
    proof fn lemma_entry(&self, i: int)
        requires
            self.wf(),
            0 <= i < self.entries.len(),
        ensures
            self@.dom().contains(self.entries[i].key@),
            self@[self.entries[i].key@] == texts(self.entries[i].items@),
            self.slot(self.entries[i].key@) == i,
    {
        let key = self.entries[i].key@;
        assert(self.has_key_at(key, i));
        let j = self.slot(key);
        assert(self.has_key_at(key, j));
        if j < i {
            assert(self.entries[j].key@ != self.entries[i].key@);
        }
        if i < j {
            assert(self.entries[i].key@ != self.entries[j].key@);
        }
    }

    /// A well-formed collection shows a tidy view.
    pub proof fn lemma_tidy(&self)
        requires
            self.wf(),
        ensures
            tidy(self@),
    {
        assert forall|key: Text| #[trigger] self@.dom().contains(key) implies self@[key].len() > 0
            && self@[key].no_duplicates() by {
            let i = choose|i: int| self.has_key_at(key, i);
            self.lemma_entry(i);
        }
    }

    /// The list at `i` was replaced by a non-empty list without repetition,
    /// and nothing else changed.
    proof fn lemma_replaced(&self, before: &ListMap, i: int)
        requires
            before.wf(),
            0 <= i < before.entries.len(),
            self.entries.len() == before.entries.len(),
            self.entries[i].key@ == before.entries[i].key@,
            self.entries[i].items.len() > 0,
            texts(self.entries[i].items@).no_duplicates(),
            forall|k: int|
                0 <= k < before.entries.len() && k != i ==> self.entries[k] == before.entries[k],
        ensures
            self.wf(),
            self@ == before@.insert(before.entries[i].key@, texts(self.entries[i].items@)),
    {
        let key = before.entries[i].key@;
        assert(self.wf());
        self.lemma_entry(i);
        assert forall|other: Text| self@.dom().contains(other) <==> before@.dom().contains(
            other,
        ) by {
            if self@.dom().contains(other) {
                let k = choose|k: int| self.has_key_at(other, k);
                assert(before.has_key_at(other, k));
            }
            if before@.dom().contains(other) {
                let k = choose|k: int| before.has_key_at(other, k);
                assert(self.has_key_at(other, k));
            }
        }
        before.lemma_entry(i);
        assert forall|other: Text| self@.dom().contains(other) && other != key implies self@[other]
            == before@[other] by {
            let k = choose|k: int| self.has_key_at(other, k);
            self.lemma_entry(k);
            before.lemma_entry(k);
        }
        assert(self@ =~= before@.insert(key, texts(self.entries[i].items@)));
    }

    /// An entry for a key that was absent was put behind the others.
    proof fn lemma_appended(&self, before: &ListMap)
        requires
            before.wf(),
            self.entries.len() == before.entries.len() + 1,
            forall|k: int| 0 <= k < before.entries.len() ==> self.entries[k] == before.entries[k],
            !before@.dom().contains(self.entries[before.entries.len() as int].key@),
            self.entries[before.entries.len() as int].items.len() > 0,
            texts(self.entries[before.entries.len() as int].items@).no_duplicates(),
        ensures
            self.wf(),
            self@ == before@.insert(
                self.entries[before.entries.len() as int].key@,
                texts(self.entries[before.entries.len() as int].items@),
            ),
    {
        let last = before.entries.len() as int;
        let key = self.entries[last].key@;
        assert forall|a: int, b: int| 0 <= a < b < self.entries.len() implies self.entries[a].key@
            != self.entries[b].key@ by {
            if b == last {
                assert(before.has_key_at(self.entries[a].key@, a));
            }
        }
        assert(self.wf());
        self.lemma_entry(last);
        assert forall|other: Text| other != key implies (self@.dom().contains(other)
            <==> before@.dom().contains(other)) by {
            if self@.dom().contains(other) {
                let k = choose|k: int| self.has_key_at(other, k);
                assert(before.has_key_at(other, k));
            }
            if before@.dom().contains(other) {
                let k = choose|k: int| before.has_key_at(other, k);
                assert(self.has_key_at(other, k));
            }
        }
        assert forall|other: Text| self@.dom().contains(other) && other != key implies self@[other]
            == before@[other] by {
            let k = choose|k: int| self.has_key_at(other, k);
            self.lemma_entry(k);
            before.lemma_entry(k);
        }
        assert(self@ =~= before@.insert(key, texts(self.entries[last].items@)));
    }

    /// The entry at `i` was taken out, and the others moved up.
    proof fn lemma_dropped(&self, before: &ListMap, i: int)
        requires
            before.wf(),
            0 <= i < before.entries.len(),
            self.entries@ == before.entries@.remove(i),
        ensures
            self.wf(),
            self@ == before@.remove(before.entries[i].key@),
    {
        let key = before.entries[i].key@;
        assert forall|k: int| 0 <= k < self.entries.len() implies self.entries[k]
            == before.entries[if k < i {
            k
        } else {
            k + 1
        }] by {}
        assert forall|a: int, b: int| 0 <= a < b < self.entries.len() implies self.entries[a].key@
            != self.entries[b].key@ by {
            let a2 = if a < i { a } else { a + 1 };
            let b2 = if b < i { b } else { b + 1 };
            assert(self.entries[a] == before.entries[a2]);
            assert(self.entries[b] == before.entries[b2]);
        }
        assert forall|k: int| 0 <= k < self.entries.len() implies self.entries[k].items.len() > 0
            && texts(#[trigger] self.entries[k].items@).no_duplicates() by {
            let k2 = if k < i { k } else { k + 1 };
            assert(self.entries[k] == before.entries[k2]);
        }
        assert(self.wf());
        before.lemma_entry(i);
        assert forall|other: Text| self@.dom().contains(other) <==> (before@.dom().contains(other)
            && other != key) by {
            if self@.dom().contains(other) {
                let k = choose|k: int| self.has_key_at(other, k);
                let k2 = if k < i { k } else { k + 1 };
                assert(self.entries[k] == before.entries[k2]);
                assert(before.has_key_at(other, k2));
                before.lemma_entry(k2);
            }
            if before@.dom().contains(other) && other != key {
                let k = choose|k: int| before.has_key_at(other, k);
                let k2 = if k < i { k } else { k - 1 };
                assert(self.entries[k2] == before.entries[k]);
                assert(self.has_key_at(other, k2));
            }
        }
        assert forall|other: Text| self@.dom().contains(other) implies self@[other]
            == before@[other] by {
            let k = choose|k: int| self.has_key_at(other, k);
            let k2 = if k < i { k } else { k + 1 };
            assert(self.entries[k] == before.entries[k2]);
            self.lemma_entry(k);
            before.lemma_entry(k2);
        }
        assert(self@ =~= before@.remove(key));
    }

    pub fn new() -> (made: ListMap)
        ensures
            made.wf(),
            made@ == Map::<Text, Seq<Text>>::empty(),
    {
        let made = ListMap { entries: Vec::new() };
        assert(made@ =~= Map::<Text, Seq<Text>>::empty());
        made
    }

    fn find(&self, key: &String) -> (at: Option<usize>)
        requires
            self.wf(),
        ensures
            match at {
                Some(i) => self.has_key_at(key@, i as int) && self@.dom().contains(key@)
                    && self@[key@] == texts(self.entries[i as int].items@),
                None => !self@.dom().contains(key@),
            },
    {
        let mut i: usize = 0;
        while i < self.entries.len()
            invariant
                self.wf(),
                i <= self.entries.len(),
                forall|k: int| 0 <= k < i ==> !self.has_key_at(key@, k),
            decreases self.entries.len() - i,
        {
            if self.entries[i].key == *key {
                proof {
                    self.lemma_entry(i as int);
                }
                return Some(i);
            }
            i += 1;
        }
        None
    }

    /// Files `item` under `key`, behind the items already there. Says whether
    /// it was new.
    pub fn add(&mut self, key: &String, item: &String) -> (added: bool)
        requires
            old(self).wf(),
        ensures
            final(self).wf(),
            final(self)@ == with_item(old(self)@, key@, item@),
            added == !list_of(old(self)@, key@).contains(item@),
    {
        let ghost before = *self;
        match self.find(key) {
            Some(i) => {
                let found = position(&self.entries[i].items, item);
                if found.is_some() {
                    false
                } else {
                    self.entries[i].items.push(item.clone());
                    proof {
                        lemma_texts_push(before.entries[i as int].items@, *item);
                        lemma_push_fresh(texts(before.entries[i as int].items@), item@);
                        self.lemma_replaced(&before, i as int);
                    }
                    true
                }
            },
            None => {
                let mut items: Vec<String> = Vec::new();
                items.push(item.clone());
                self.entries.push(Entry { key: key.clone(), items });
                proof {
                    let last = before.entries.len() as int;
                    assert(texts(self.entries[last].items@) =~= Seq::<Text>::empty().push(item@));
                    self.lemma_appended(&before);
                }
                true
            },
        }
    }

    /// Takes `item` from under `key`, and drops the key when nothing is left
    /// under it. Says whether the item was there.
    pub fn remove(&mut self, key: &String, item: &String) -> (removed: bool)
        requires
            old(self).wf(),
        ensures
            final(self).wf(),
            final(self)@ == without_item(old(self)@, key@, item@),
            removed == list_of(old(self)@, key@).contains(item@),
    {
        let ghost before = *self;
        match self.find(key) {
            Some(i) => {
                let found = position(&self.entries[i].items, item);
                match found {
                    Some(j) => {
                        let ghost list = texts(before.entries[i as int].items@);
                        proof {
                            lemma_texts_remove(before.entries[i as int].items@, j as int);
                            lemma_without_at(list, j as int);
                            lemma_without_holds(list, item@);
                        }
                        if self.entries[i].items.len() == 1 {
                            self.entries.remove(i);
                            proof {
                                self.lemma_dropped(&before, i as int);
                            }
                        } else {
                            self.entries[i].items.remove(j);
                            proof {
                                self.lemma_replaced(&before, i as int);
                            }
                        }
                        true
                    },
                    None => {
                        proof {
                            assert(before@.insert(key@, list_of(before@, key@)) =~= before@);
                        }
                        false
                    },
                }
            },
            None => {
                proof {
                    assert(before@.remove(key@) =~= before@);
                }
                false
            },
        }
    }

    /// A copy of the items under `key`, in filing order: empty when the key
    /// is absent.
    pub fn get(&self, key: &String) -> (items: Vec<String>)
        requires
            self.wf(),
        ensures
            texts(items@) == list_of(self@, key@),
    {
        match self.find(key) {
            Some(i) => copy_strings(&self.entries[i].items),
            None => {
                let items: Vec<String> = Vec::new();
                assert(texts(items@) =~= Seq::<Text>::empty());
                items
            },
        }
    }

    /// Whether anything is filed under `key`.
    pub fn has_key(&self, key: &String) -> (found: bool)
        requires
            self.wf(),
        ensures
            found == self@.dom().contains(key@),
    {
        self.find(key).is_some()
    }

    /// Whether `item` is filed under `key`.
    pub fn has(&self, key: &String, item: &String) -> (found: bool)
        requires
            self.wf(),
        ensures
            found == list_of(self@, key@).contains(item@),
    {
        match self.find(key) {
            Some(i) => position(&self.entries[i].items, item).is_some(),
            None => false,
        }
    }

    /// Drops `key` and hands out what was filed under it.
    pub fn take(&mut self, key: &String) -> (items: Vec<String>)
        requires
            old(self).wf(),
        ensures
            final(self).wf(),
            final(self)@ == old(self)@.remove(key@),
            texts(items@) == list_of(old(self)@, key@),
    {
        let ghost before = *self;
        match self.find(key) {
            Some(i) => {
                let entry = self.entries.remove(i);
                proof {
                    self.lemma_dropped(&before, i as int);
                }
                entry.items
            },
            None => {
                let items: Vec<String> = Vec::new();
                proof {
                    assert(texts(items@) =~= Seq::<Text>::empty());
                    assert(before@.remove(key@) =~= before@);
                }
                items
            },
        }
    }
}

} // verus!
