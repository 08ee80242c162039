//! Ordered lists of texts without repetition, and maps from a text to such a
//! list. These are the mathematical models that the contracts of the room
//! index are written over, together with the facts about them that the
//! proofs need.
use vstd::prelude::*;

verus! {

/// A text as contracts see it: the characters of a string.
pub type Text = Seq<char>;

/// The model of a keyed collection of lists: each key that is present maps to
/// the items filed under it, in the order in which they were added.
pub type Lists = Map<Seq<char>, Seq<Seq<char>>>;

/// The texts of a sequence of strings, in order.
pub open spec fn texts(strings: Seq<String>) -> Seq<Text> {
    strings.map_values(|s: String| s@)
}

/// `list` with `item` taken out. On a list without repetition this leaves no
/// occurrence of `item` and keeps the order of the others.
pub open spec fn without(list: Seq<Text>, item: Text) -> Seq<Text> {
    if list.contains(item) {
        list.remove(list.index_of(item))
    } else {
        list
    }
}

/// The items filed under `key`: empty when the key is absent.
pub open spec fn list_of(lists: Lists, key: Text) -> Seq<Text> {
    if lists.dom().contains(key) {
        lists[key]
    } else {
        Seq::empty()
    }
}

/// `lists` after `item` was filed under `key`, at the end of the key's list
/// unless it was already there.
pub open spec fn with_item(lists: Lists, key: Text, item: Text) -> Lists {
    if list_of(lists, key).contains(item) {
        lists
    } else {
        lists.insert(key, list_of(lists, key).push(item))
    }
}

/// `lists` after `item` was taken from under `key`. A key whose list becomes
/// empty is dropped.
pub open spec fn without_item(lists: Lists, key: Text, item: Text) -> Lists {
    let rest = without(list_of(lists, key), item);
    if rest.len() == 0 {
        lists.remove(key)
    } else {
        lists.insert(key, rest)
    }
}

/// Every list that is present is non-empty and holds no item twice.
pub open spec fn tidy(lists: Lists) -> bool {
    forall|key: Text| #[trigger]
        lists.dom().contains(key) ==> lists[key].len() > 0 && lists[key].no_duplicates()
}

pub proof fn lemma_texts_push(strings: Seq<String>, s: String)
    ensures
        texts(strings.push(s)) == texts(strings).push(s@),
{
    assert(texts(strings.push(s)) =~= texts(strings).push(s@));
}

pub proof fn lemma_texts_remove(strings: Seq<String>, i: int)
    requires
        0 <= i < strings.len(),
    ensures
        texts(strings.remove(i)) == texts(strings).remove(i),
{
    assert(texts(strings.remove(i)) =~= texts(strings).remove(i));
}

/// On a list without repetition, taking out the item at `i` is removing
/// position `i`.
pub proof fn lemma_without_at(list: Seq<Text>, i: int)
    requires
        list.no_duplicates(),
        0 <= i < list.len(),
    ensures
        without(list, list[i]) == list.remove(i),
{
    assert(list.contains(list[i]));
    let j = list.index_of(list[i]);
    assert(list[j] == list[i]);
}

/// What `without` leaves: every other item, still without repetition.
pub proof fn lemma_without_holds(list: Seq<Text>, item: Text)
    requires
        list.no_duplicates(),
    ensures
        without(list, item).no_duplicates(),
        !without(list, item).contains(item),
        forall|x: Text| #[trigger]
            without(list, item).contains(x) <==> list.contains(x) && x != item,
        list.contains(item) ==> without(list, item).len() + 1 == list.len(),
        !list.contains(item) ==> without(list, item) == list,
{
    if list.contains(item) {
        let i = list.index_of(item);
        let rest = list.remove(i);
        assert forall|x: Text| #[trigger] rest.contains(x) <==> list.contains(x) && x != item by {
            if rest.contains(x) {
                let k = choose|k: int| 0 <= k < rest.len() && rest[k] == x;
                if k < i {
                    assert(list[k] == x);
                } else {
                    assert(list[k + 1] == x);
                }
            }
            if list.contains(x) && x != item {
                let k = choose|k: int| 0 <= k < list.len() && list[k] == x;
                if k < i {
                    assert(rest[k] == x);
                } else {
                    assert(rest[k - 1] == x);
                }
            }
        }
        assert(rest.no_duplicates()) by {
            assert forall|a: int, b: int| 0 <= a < rest.len() && 0 <= b < rest.len() && a != b
                implies rest[a] != rest[b] by {
                let a2 = if a < i { a } else { a + 1 };
                let b2 = if b < i { b } else { b + 1 };
                assert(rest[a] == list[a2]);
                assert(rest[b] == list[b2]);
            }
        }
    }
}

/// Pushing an item that is not yet there keeps a list free of repetition.
pub proof fn lemma_push_fresh(list: Seq<Text>, item: Text)
    requires
        list.no_duplicates(),
        !list.contains(item),
    ensures
        list.push(item).no_duplicates(),
        forall|x: Text| #[trigger] list.push(item).contains(x) <==> list.contains(x) || x == item,
{
    let longer = list.push(item);
    assert forall|x: Text| #[trigger] longer.contains(x) <==> list.contains(x) || x == item by {
        if longer.contains(x) {
            let k = choose|k: int| 0 <= k < longer.len() && longer[k] == x;
            if k < list.len() {
                assert(list[k] == x);
            }
        }
        if list.contains(x) {
            let k = choose|k: int| 0 <= k < list.len() && list[k] == x;
            assert(longer[k] == x);
        }
        if x == item {
            assert(longer[list.len() as int] == x);
        }
    }
    assert forall|a: int, b: int| 0 <= a < longer.len() && 0 <= b < longer.len() && a != b
        implies longer[a] != longer[b] by {
        if a < list.len() {
            assert(list.contains(list[a]));
        }
        if b < list.len() {
            assert(list.contains(list[b]));
        }
    }
}

/// The first `i + 1` items are the first `i` and the one at `i`.
pub proof fn lemma_take_next(list: Seq<Text>, i: int)
    requires
        0 <= i < list.len(),
    ensures
        forall|x: Text| #[trigger]
            list.take(i + 1).contains(x) <==> list.take(i).contains(x) || x == list[i],
        list.no_duplicates() ==> !list.take(i).contains(list[i]),
{
    let shorter = list.take(i);
    let longer = list.take(i + 1);
    assert forall|x: Text| #[trigger] longer.contains(x) <==> shorter.contains(x) || x == list[i] by {
        if longer.contains(x) {
            let k = choose|k: int| 0 <= k < longer.len() && longer[k] == x;
            if k < i {
                assert(shorter[k] == x);
            }
        }
        if shorter.contains(x) {
            let k = choose|k: int| 0 <= k < shorter.len() && shorter[k] == x;
            assert(longer[k] == x);
        }
        if x == list[i] {
            assert(longer[i] == x);
        }
    }
    if list.no_duplicates() && shorter.contains(list[i]) {
        let k = choose|k: int| 0 <= k < shorter.len() && shorter[k] == list[i];
        assert(list[k] == list[i]);
    }
}

/// Filing an item keeps a tidy collection tidy, and changes one list only.
pub proof fn lemma_with_item(lists: Lists, key: Text, item: Text)
    requires
        tidy(lists),
    ensures
        tidy(with_item(lists, key, item)),
        forall|x: Text| #[trigger]
            list_of(with_item(lists, key, item), key).contains(x) <==> list_of(lists, key).contains(
                x,
            ) || x == item,
        forall|other: Text|
            other != key ==> #[trigger] list_of(with_item(lists, key, item), other) == list_of(
                lists,
                other,
            ),
{
    let list = list_of(lists, key);
    if !list.contains(item) {
        if lists.dom().contains(key) {
            assert(list.no_duplicates());
        }
        lemma_push_fresh(list, item);
    }
}

/// Taking an item out keeps a tidy collection tidy, and changes one list only.
pub proof fn lemma_without_item(lists: Lists, key: Text, item: Text)
    requires
        tidy(lists),
    ensures
        tidy(without_item(lists, key, item)),
        list_of(without_item(lists, key, item), key) == without(list_of(lists, key), item),
        forall|x: Text| #[trigger]
            list_of(without_item(lists, key, item), key).contains(x) <==> list_of(
                lists,
                key,
            ).contains(x) && x != item,
        forall|other: Text|
            other != key ==> #[trigger] list_of(without_item(lists, key, item), other) == list_of(
                lists,
                other,
            ),
{
    let list = list_of(lists, key);
    if lists.dom().contains(key) {
        assert(list.no_duplicates());
    }
    lemma_without_holds(list, item);
    let rest = without(list, item);
    if rest.len() == 0 {
        assert(rest =~= Seq::<Text>::empty());
    }
}

} // verus!
