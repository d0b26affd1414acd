use vstd::prelude::*;
use vstd::laws_eq::obeys_concrete_eq;
use vstd::std_specs::cmp::PartialEqSpec;

verus! {

#[derive(Copy, Clone, Debug, PartialEq, Eq, Structural)]
pub enum DictionaryErr {
    Overflow,
    UndefinedAccess,
}

/// The position of an entry in a dictionary.
pub type Addr = usize;

/// The position of the first entry at or after `i` that is named `key`.
pub open spec fn index_from<Key, Value>(
    entries: Seq<(Option<Key>, Value)>,
    key: Key,
    i: int,
) -> Option<int>
    decreases entries.len() - i,
{
    if i < 0 || i >= entries.len() {
        None
    } else if entries[i].0 == Some(key) {
        Some(i)
    } else {
        index_from(entries, key, i + 1)
    }
}

/// The address of the first entry named `key`, if any.
pub open spec fn find<Key, Value>(entries: Seq<(Option<Key>, Value)>, key: Key) -> Option<int> {
    index_from(entries, key, 0)
}

/// The entries left once the first one named `key` (if any) is removed.
pub open spec fn without<Key, Value>(
    entries: Seq<(Option<Key>, Value)>,
    key: Option<Key>,
) -> Seq<(Option<Key>, Value)> {
    match key {
        Some(k) => match find(entries, k) {
            Some(i) => entries.remove(i),
            None => entries,
        },
        None => entries,
    }
}

/// What inserting `value` under `key` leaves in a dictionary holding
/// `entries` with room for `capacity`, and what the insert returns: the
/// first entry named `key` goes, the new one is appended and its address
/// returned; when that leaves no room, nothing changes and `Overflow` is
/// returned.
pub open spec fn inserted<Key, Value>(
    entries: Seq<(Option<Key>, Value)>,
    capacity: nat,
    key: Option<Key>,
    value: Value,
) -> (Seq<(Option<Key>, Value)>, Result<Addr, DictionaryErr>) {
    let rest = without(entries, key);
    if rest.len() < capacity {
        (rest.push((key, value)), Ok(rest.len() as Addr))
    } else {
        (entries, Err(DictionaryErr::Overflow))
    }
}

/// What `find` returns: the first matching position, or none at all.
pub proof fn lemma_find<Key, Value>(entries: Seq<(Option<Key>, Value)>, key: Key)
    ensures
        find(entries, key) matches Some(i) ==> 0 <= i < entries.len() && entries[i].0 == Some(
            key,
        ) && forall|j: int| 0 <= j < i ==> entries[j].0 != Some(key),
        find(entries, key) is None ==> forall|j: int|
            0 <= j < entries.len() ==> entries[j].0 != Some(key),
{
    lemma_index_from(entries, key, 0);
}

proof fn lemma_index_from<Key, Value>(entries: Seq<(Option<Key>, Value)>, key: Key, i: int)
    requires
        0 <= i,
    ensures
        index_from(entries, key, i) matches Some(p) ==> i <= p < entries.len() && entries[p].0
            == Some(key) && forall|j: int| i <= j < p ==> entries[j].0 != Some(key),
        index_from(entries, key, i) is None ==> forall|j: int|
            i <= j < entries.len() ==> entries[j].0 != Some(key),
    decreases entries.len() - i,
{
    if i < entries.len() && entries[i].0 != Some(key) {
        lemma_index_from(entries, key, i + 1);
    }
}

/// No two entries carry the same name.
pub open spec fn unique_names<Key, Value>(entries: Seq<(Option<Key>, Value)>) -> bool {
    forall|p: int, q: int|
        0 <= p < q < entries.len() && (#[trigger] entries[p]).0 is Some ==> entries[p].0 != (
        #[trigger] entries[q]).0
}

/// Inserting keeps names unique.
pub proof fn lemma_inserted_unique<Key, Value>(
    entries: Seq<(Option<Key>, Value)>,
    capacity: nat,
    key: Option<Key>,
    value: Value,
)
    requires
        unique_names(entries),
    ensures
        unique_names(inserted(entries, capacity, key, value).0),
{
    let rest = without(entries, key);
    if let Some(k) = key {
        lemma_find(entries, k);
        if let Some(i) = find(entries, k) {
            assert forall|p: int, q: int|
                0 <= p < q < rest.len() && (#[trigger] rest[p]).0 is Some implies rest[p].0 != (
                #[trigger] rest[q]).0 by {
                let pp = if p < i { p } else { p + 1 };
                let qq = if q < i { q } else { q + 1 };
                assert(rest[p] == entries[pp]);
                assert(rest[q] == entries[qq]);
            }
            assert forall|p: int| 0 <= p < rest.len() implies (#[trigger] rest[p]).0 != Some(k) by {
                let pp = if p < i { p } else { p + 1 };
                assert(rest[p] == entries[pp]);
                assert(entries[i].0 == Some(k));
                if pp < i {
                } else {
                    assert(entries[i].0 != entries[pp].0);
                }
            }
        }
    }
    let after = rest.push((key, value));
    if rest.len() < capacity {
        assert forall|p: int, q: int|
            0 <= p < q < after.len() && (#[trigger] after[p]).0 is Some implies after[p].0 != (
            #[trigger] after[q]).0 by {
            assert(after[p] == rest[p]);
            if q < rest.len() {
                assert(after[q] == rest[q]);
            }
        }
    }
}

/// Inserting under a name already present: the entry with that name now
/// sits at the end, and the first entry of any other name that came after
/// the old one has moved down by one address; those before it stay.
pub proof fn lemma_rename_shifts<Key, Value>(
    entries: Seq<(Option<Key>, Value)>,
    capacity: nat,
    key: Key,
    value: Value,
    other: Key,
)
    requires
        entries.len() <= capacity,
        unique_names(entries),
        find(entries, key) is Some,
        other != key,
        find(entries, other) is Some,
    ensures
        ({
            let (after, r) = inserted(entries, capacity, Some(key), value);
            let i = find(entries, key)->0;
            let j = find(entries, other)->0;
            &&& r == Ok::<Addr, DictionaryErr>((entries.len() - 1) as Addr)
            &&& find(after, key) == Some(after.len() - 1)
            &&& j > i ==> find(after, other) == Some(j - 1)
            &&& j < i ==> find(after, other) == Some(j)
        }),
{
    lemma_find(entries, key);
    lemma_find(entries, other);
    let i = find(entries, key)->0;
    let j = find(entries, other)->0;
    let rest = entries.remove(i);
    let after = rest.push((Some(key), value));
    assert(without(entries, Some(key)) == rest);
    lemma_find(after, key);
    lemma_find(after, other);
    assert(after[after.len() - 1].0 == Some(key));
    if j > i {
        assert(after[j - 1] == entries[j]);
        assert forall|p: int| 0 <= p < j - 1 implies after[p].0 != Some(other) by {
            if p < i {
                assert(after[p] == entries[p]);
            } else {
                assert(after[p] == entries[p + 1]);
            }
        }
    } else {
        assert(after[j] == entries[j]);
        assert forall|p: int| 0 <= p < j implies after[p].0 != Some(other) by {
            assert(after[p] == entries[p]);
        }
    }
    assert forall|p: int| 0 <= p < after.len() - 1 implies after[p].0 != Some(key) by {
        if p < i {
            assert(after[p] == entries[p]);
        } else {
            assert(after[p] == entries[p + 1]);
            assert(entries[i].0 != entries[p + 1].0);
        }
    }
}

/// An ordered, bounded collection of entries, each an optional name with a
/// value. An entry's address is its position.
#[derive(Debug, Clone)]
pub struct Dictionary<Key, Value> where Key: PartialEq {
    capacity: usize,
    data: Vec<(Option<Key>, Value)>,
}

impl<Key: PartialEq, Value> View for Dictionary<Key, Value> {
    /// The entries, by address.
    type V = Seq<(Option<Key>, Value)>;

    closed spec fn view(&self) -> Seq<(Option<Key>, Value)> {
        self.data@
    }
}

impl<Key, Value> Dictionary<Key, Value> where Key: PartialEq {
    /// The most entries the dictionary holds at once.
    pub closed spec fn spec_capacity(&self) -> nat {
        self.capacity as nat
    }

    /// The entries never exceed the capacity.
    pub open spec fn wf(&self) -> bool {
        &&& self@.len() <= self.spec_capacity()
        &&& unique_names(self@)
    }

    /// Creates a new, empty dictionary with the given capacity.
    pub fn new(capacity: usize) -> (r: Self)
        ensures
            r.wf(),
            r@ == Seq::<(Option<Key>, Value)>::empty(),
            r.spec_capacity() == capacity,
    {
        Self { capacity, data: Vec::new() }
    }

    /// The most entries the dictionary holds at once.
    pub fn capacity(&self) -> (r: usize)
        ensures
            r == self.spec_capacity(),
    {
        self.capacity
    }

    /// The entries, by address.
    pub fn dictionary(&self) -> (r: &[(Option<Key>, Value)])
        ensures
            r@ == self@,
    {
        self.data.as_slice()
    }

    /// Inserts `value` under `key`. A named insert first removes the first
    /// entry with the same name, which moves every later entry down one
    /// address; the new entry then goes at the end, and its address is
    /// returned. Fails with `Overflow`, changing nothing, when the dictionary
    /// is full after that removal.
    pub fn insert(&mut self, key: Option<Key>, value: Value) -> (r: Result<Addr, DictionaryErr>)
        requires
            old(self).wf(),
            obeys_concrete_eq::<Key>(),
        ensures
            final(self).wf(),
            final(self).spec_capacity() == old(self).spec_capacity(),
            (final(self)@, r) == inserted(old(self)@, old(self).spec_capacity(), key, value),
            r is Err ==> r == Err::<Addr, DictionaryErr>(DictionaryErr::Overflow) && final(self)@
                == old(self)@,
    {
        proof {
            reveal(obeys_concrete_eq);
        }
        proof {
            lemma_inserted_unique(self@, self.spec_capacity(), key, value);
        }
        if let Some(ref k) = key {
            let mut found_at: Option<usize> = None;
            let mut i: usize = 0;
            while found_at.is_none() && i < self.data.len()
                invariant
                    0 <= i <= self.data@.len(),
                    Key::obeys_eq_spec(),
                    forall|x: Key, y: Key| x.eq_spec(&y) <==> (x == y),
                    found_at matches Some(p) ==> find(self.data@, *k) == Some(p as int) && p
                        < self.data@.len(),
                    found_at is None ==> find(self.data@, *k) == index_from(
                        self.data@,
                        *k,
                        i as int,
                    ),
                decreases self.data@.len() - i + (if found_at is None { 1int } else { 0int }),
            {
                let matched = match &self.data[i].0 {
                    Some(stored_key) => *stored_key == *k,
                    None => false,
                };
                if matched {
                    found_at = Some(i);
                } else {
                    i = i + 1;
                }
            }
            if let Some(p) = found_at {
                self.data.remove(p);
            }
        }
        let addr = self.data.len();
        if addr >= self.capacity {
            return Err(DictionaryErr::Overflow);
        }
        self.data.push((key, value));
        Ok(addr)
    }

    /// The address of the first entry named `key`, if any.
    pub fn get_addr(&self, key: Key) -> (r: Option<Addr>)
        requires
            obeys_concrete_eq::<Key>(),
        ensures
            r matches Some(a) ==> find(self@, key) == Some(a as int),
            r is None ==> find(self@, key) is None,
    {
        proof {
            reveal(obeys_concrete_eq);
        }
        let mut i: usize = 0;
        while i < self.data.len()
            invariant
                0 <= i <= self.data@.len(),
                Key::obeys_eq_spec(),
                forall|x: Key, y: Key| x.eq_spec(&y) <==> (x == y),
                find(self.data@, key) == index_from(self.data@, key, i as int),
            decreases self.data@.len() - i,
        {
            let found = match &self.data[i].0 {
                Some(stored_key) => key == *stored_key,
                None => false,
            };
            if found {
                return Some(i);
            }
            i = i + 1;
        }
        None
    }

    /// Overwrites the value at `addr`, keeping its name; fails with
    /// `UndefinedAccess`, changing nothing, when no entry is there.
    pub fn set_from_addr(&mut self, addr: usize, value: Value) -> (r: Result<(), DictionaryErr>)
        requires
            old(self).wf(),
        ensures
            final(self).wf(),
            final(self).spec_capacity() == old(self).spec_capacity(),
            addr < old(self)@.len() ==> r == Ok::<(), DictionaryErr>(()) && final(self)@ == old(
                self,
            )@.update(addr as int, (old(self)@[addr as int].0, value)),
            addr >= old(self)@.len() ==> r == Err::<(), DictionaryErr>(
                DictionaryErr::UndefinedAccess,
            ) && final(self)@ == old(self)@,
    {
        if addr < self.data.len() {
            let (key, _previous) = self.data.remove(addr);
            self.data.insert(addr, (key, value));
            assert(self.data@ =~= old(self).data@.update(
                addr as int,
                (old(self).data@[addr as int].0, value),
            ));
            return Ok(());
        }
        Err(DictionaryErr::UndefinedAccess)
    }

    /// The entry at `addr`, if any.
    pub fn get_from_addr(&self, addr: usize) -> (r: Option<&(Option<Key>, Value)>)
        ensures
            addr < self@.len() ==> r == Some(&self@[addr as int]),
            addr >= self@.len() ==> r is None,
    {
        if addr < self.data.len() {
            return Some(&self.data[addr]);
        }
        None
    }

    /// The value of the first entry named `key`, if any.
    pub fn get(&self, key: Key) -> (r: Option<&Value>)
        requires
            obeys_concrete_eq::<Key>(),
        ensures
            r matches Some(v) ==> (find(self@, key) matches Some(i) && *v == self@[i].1),
            r is None ==> find(self@, key) is None,
    {
        proof {
            reveal(obeys_concrete_eq);
        }
        let mut i: usize = 0;
        while i < self.data.len()
            invariant
                0 <= i <= self.data@.len(),
                Key::obeys_eq_spec(),
                forall|x: Key, y: Key| x.eq_spec(&y) <==> (x == y),
                find(self.data@, key) == index_from(self.data@, key, i as int),
            decreases self.data@.len() - i,
        {
            let entry = &self.data[i];
            let found = match &entry.0 {
                Some(stored_key) => key == *stored_key,
                None => false,
            };
            if found {
                return Some(&entry.1);
            }
            i = i + 1;
        }
        None
    }

    /// Removes every entry.
    pub fn clear(&mut self)
        ensures
            final(self).wf(),
            final(self)@ == Seq::<(Option<Key>, Value)>::empty(),
            final(self).spec_capacity() == old(self).spec_capacity(),
    {
        self.data.clear();
    }
}

} // verus!
