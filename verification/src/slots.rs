//! Values filed under small numbers.

use crate::text;
use vstd::prelude::*;

verus! {

/// A map from small numbers to values.
pub struct Slots<T> {
    slots: Vec<Option<T>>,
}

impl<T> View for Slots<T> {
    type V = Map<nat, T>;

    closed spec fn view(&self) -> Map<nat, T> {
        Map::new(
            |k: nat| k < self.slots@.len() && self.slots@[k as int] is Some,
            |k: nat| self.slots@[k as int]->0,
        )
    }
}

impl<T: DeepView> DeepView for Slots<T> {
    type V = Map<nat, T::V>;

    open spec fn deep_view(&self) -> Map<nat, T::V> {
        Map::new(|k: nat| self@.contains_key(k), |k: nat| self@[k].deep_view())
    }
}

impl<T> Slots<T> {
    /// No values.
    pub fn new() -> (r: Slots<T>)
        ensures
            r@ == Map::<nat, T>::empty(),
    {
        let r = Slots { slots: Vec::new() };
        assert(r@ =~= Map::<nat, T>::empty());
        r
    }

    /// Files `value` under `key`.
    pub fn put(&mut self, key: usize, value: T)
        requires
            key < usize::MAX,
        ensures
            final(self)@ == old(self)@.insert(key as nat, value),
    {
        while self.slots.len() <= key
            invariant
                key < usize::MAX,
                self@ == old(self)@,
            decreases key + 1 - self.slots@.len(),
        {
            let ghost before = self@;
            self.slots.push(None);
            assert(self@ =~= before);
        }
        let ghost before = self@;
        self.slots.set(key, Some(value));
        assert(self@ =~= before.insert(key as nat, value));
    }

    /// The value filed under `key`.
    pub fn get(&self, key: usize) -> (r: Option<&T>)
        ensures
            match r {
                Some(v) => key < usize::MAX && self@.contains_key(key as nat) && self@[key as nat]
                    == *v,
                None => !self@.contains_key(key as nat),
            },
    {
        if key < self.slots.len() {
            match &self.slots[key] {
                Some(v) => Some(v),
                None => None,
            }
        } else {
            None
        }
    }

    /// Takes out the value filed under `key`.
    pub fn take(&mut self, key: usize) -> (r: Option<T>)
        ensures
            final(self)@ == old(self)@.remove(key as nat),
            match r {
                Some(v) => key < usize::MAX && old(self)@.contains_key(key as nat) && old(self)@[key as nat] == v,
                None => !old(self)@.contains_key(key as nat),
            },
    {
        let ghost before = self@;
        if key < self.slots.len() {
            let ghost slots_before = self.slots@;
            self.slots.push(None);
            let slot = self.slots.swap_remove(key);
            assert(self.slots@ =~= slots_before.update(key as int, None));
            assert(self@ =~= before.remove(key as nat));
            slot
        } else {
            assert(self@ =~= before.remove(key as nat));
            None
        }
    }

    /// Whether some value is filed under `key` or a larger number.
    pub fn any_from(&self, key: usize) -> (r: bool)
        ensures
            r == exists|k: nat| key <= k && self@.contains_key(k),
    {
        let mut i: usize = key;
        while i < self.slots.len()
            invariant
                key <= i,
                forall|k: nat| key <= k < i ==> !self@.contains_key(k),
            decreases self.slots@.len() - i,
        {
            if self.slots[i].is_some() {
                assert(self@.contains_key(i as nat));
                return true;
            }
            i += 1;
        }
        false
    }
}

/// A map from texts to texts. Of two entries with one key the later counts.
#[derive(Debug)]
pub struct TextMap {
    entries: Vec<(String, String)>,
}

spec fn text_entries(entries: Seq<(String, String)>) -> Map<Seq<char>, Seq<char>>
    decreases entries.len(),
{
    if entries.len() == 0 {
        Map::empty()
    } else {
        text_entries(entries.drop_last()).insert(entries.last().0@, entries.last().1@)
    }
}

impl DeepView for TextMap {
    type V = Map<Seq<char>, Seq<char>>;

    closed spec fn deep_view(&self) -> Map<Seq<char>, Seq<char>> {
        text_entries(self.entries@)
    }
}

impl TextMap {
    /// No entries.
    pub fn new() -> (r: TextMap)
        ensures
            r.deep_view() == Map::<Seq<char>, Seq<char>>::empty(),
    {
        TextMap { entries: Vec::new() }
    }

    /// Files `value` under `key`.
    pub fn insert(&mut self, key: &str, value: &str)
        ensures
            final(self).deep_view() == old(self).deep_view().insert(key@, value@),
    {
        let ghost before = self.entries@;
        self.entries.push((key.to_owned(), value.to_owned()));
        assert(self.entries@.drop_last() =~= before);
    }

    /// The text filed under `key`.
    pub fn get(&self, key: &str) -> (r: Option<&str>)
        ensures
            match r {
                Some(v) => self.deep_view().contains_key(key@) && self.deep_view()[key@] == v@,
                None => !self.deep_view().contains_key(key@),
            },
    {
        let mut i: usize = self.entries.len();
        assert(self.entries@.take(i as int) =~= self.entries@);
        while i > 0
            invariant
                i <= self.entries@.len(),
                text_entries(self.entries@.take(i as int)).contains_key(key@)
                    == self.deep_view().contains_key(key@),
                self.deep_view().contains_key(key@) ==> text_entries(
                    self.entries@.take(i as int),
                )[key@] == self.deep_view()[key@],
            decreases i,
        {
            i -= 1;
            assert(self.entries@.take(i as int + 1).drop_last() =~= self.entries@.take(i as int));
            let entry = &self.entries[i];
            if text::same(entry.0.as_str(), key) {
                return Some(entry.1.as_str());
            }
        }
        None
    }
}

/// Whether `s` is among `texts`.
pub fn holds_text(texts: &Vec<String>, s: &str) -> (r: bool)
    ensures
        r == texts.deep_view().contains(s@),
{
    let ghost all = texts.deep_view();
    let mut i: usize = 0;
    while i < texts.len()
        invariant
            i <= texts@.len(),
            all == texts.deep_view(),
            all.len() == texts@.len(),
            forall|k: int| 0 <= k < i ==> all[k] != s@,
        decreases texts@.len() - i,
    {
        assert(all[i as int] == texts@[i as int]@);
        if text::same(texts[i].as_str(), s) {
            return true;
        }
        i += 1;
    }
    false
}

} // verus!
