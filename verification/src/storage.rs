//! What a key can hold, and the store of all keys.

use crate::text::text_eq;
use vstd::hash_map::StringHashMap;
use vstd::prelude::*;

verus! {

/// The fields of a hash, each with its value, in the order in which they
/// were first set.
pub type Fields = Seq<(Seq<char>, Seq<char>)>;

/// The index of the first field called `name` at `from` or later; the number
/// of fields if there is none.
pub open spec fn field_index(fields: Fields, name: Seq<char>, from: int) -> int
    decreases fields.len() - from,
{
    if from >= fields.len() {
        fields.len() as int
    } else if fields[from].0 == name {
        from
    } else {
        field_index(fields, name, from + 1)
    }
}

/// Whether a field is called `name`.
pub open spec fn has_field(fields: Fields, name: Seq<char>) -> bool {
    field_index(fields, name, 0) < fields.len()
}

/// The value of the field called `name`, if there is one.
pub open spec fn field_value(fields: Fields, name: Seq<char>) -> Option<Seq<char>> {
    if has_field(fields, name) {
        Some(fields[field_index(fields, name, 0)].1)
    } else {
        None
    }
}

/// `fields` after `name` is set to `value`: an existing field keeps its
/// place and takes the value, a new one goes to the end.
pub open spec fn with_field(fields: Fields, name: Seq<char>, value: Seq<char>) -> Fields {
    if has_field(fields, name) {
        fields.update(field_index(fields, name, 0), (name, value))
    } else {
        fields.push((name, value))
    }
}

/// `fields` without the field called `name`.
pub open spec fn without_field(fields: Fields, name: Seq<char>) -> Fields {
    if has_field(fields, name) {
        fields.remove(field_index(fields, name, 0))
    } else {
        fields
    }
}

/// Whether no two fields have the same name.
pub open spec fn distinct_names(fields: Fields) -> bool {
    forall|i: int, j: int| 0 <= i < j < fields.len() ==> fields[i].0 != fields[j].0
}

/// Where `field_index` points: at the first field of that name, with none
/// before it, or at the end.
pub proof fn lemma_field_index(fields: Fields, name: Seq<char>, from: int)
    requires
        0 <= from <= fields.len(),
    ensures
        from <= field_index(fields, name, from) <= fields.len(),
        field_index(fields, name, from) < fields.len() ==> fields[field_index(
            fields,
            name,
            from,
        )].0 == name,
        forall|j: int| from <= j < field_index(fields, name, from) ==> fields[j].0 != name,
    decreases fields.len() - from,
{
    if from < fields.len() && fields[from].0 != name {
        lemma_field_index(fields, name, from + 1);
    }
}

/// The index of a field that is the first of its name.
pub proof fn lemma_field_index_is(fields: Fields, name: Seq<char>, at: int)
    requires
        0 <= at < fields.len(),
        fields[at].0 == name,
        forall|j: int| 0 <= j < at ==> fields[j].0 != name,
    ensures
        field_index(fields, name, 0) == at,
{
    lemma_field_index(fields, name, 0);
}

/// Setting a field keeps the names distinct, and the field then has the
/// value.
pub proof fn lemma_with_field(fields: Fields, name: Seq<char>, value: Seq<char>)
    requires
        distinct_names(fields),
    ensures
        distinct_names(with_field(fields, name, value)),
        field_value(with_field(fields, name, value), name) == Some(value),
        forall|other: Seq<char>|
            other != name ==> field_value(with_field(fields, name, value), other) == field_value(
                fields,
                other,
            ),
{
    let after = with_field(fields, name, value);
    lemma_field_index(fields, name, 0);
    let at = field_index(fields, name, 0);
    lemma_field_index_is(after, name, at);
    assert forall|other: Seq<char>| other != name implies field_value(after, other)
        == field_value(fields, other) by {
        lemma_field_index(fields, other, 0);
        lemma_field_index(after, other, 0);
        let before_at = field_index(fields, other, 0);
        if before_at < fields.len() {
            lemma_field_index_is(after, other, before_at);
        }
    }
}

/// Removing a field keeps the names distinct, and the field is then gone.
pub proof fn lemma_without_field(fields: Fields, name: Seq<char>)
    requires
        distinct_names(fields),
    ensures
        distinct_names(without_field(fields, name)),
        !has_field(without_field(fields, name), name),
        forall|other: Seq<char>|
            other != name ==> field_value(without_field(fields, name), other) == field_value(
                fields,
                other,
            ),
{
    let after = without_field(fields, name);
    lemma_field_index(fields, name, 0);
    lemma_field_index(after, name, 0);
    let at = field_index(fields, name, 0);
    assert forall|other: Seq<char>| other != name implies field_value(after, other)
        == field_value(fields, other) by {
        lemma_field_index(fields, other, 0);
        lemma_field_index(after, other, 0);
        let before_at = field_index(fields, other, 0);
        if at < fields.len() && before_at < fields.len() {
            let moved = if before_at < at {
                before_at
            } else {
                before_at - 1
            };
            lemma_field_index_is(after, other, moved);
        }
    }
}

/// The fields of a hash. No two fields have the same name; the fields keep
/// the order in which they were first set.
#[derive(Debug)]
pub struct FieldMap {
    pairs: Vec<(String, String)>,
}

impl View for FieldMap {
    type V = Fields;

    closed spec fn view(&self) -> Fields {
        Seq::new(self.pairs@.len(), |i: int| (self.pairs@[i].0@, self.pairs@[i].1@))
    }
}

impl FieldMap {
    #[verifier::type_invariant]
    spec fn names_are_distinct(&self) -> bool {
        distinct_names(self@)
    }

    /// A hash without fields.
    pub fn new() -> (fields: FieldMap)
        ensures
            fields@ == Seq::<(Seq<char>, Seq<char>)>::empty(),
    {
        let fields = FieldMap { pairs: Vec::new() };
        fields
    }

    /// The number of fields.
    pub fn len(&self) -> (count: usize)
        ensures
            count == self@.len(),
            distinct_names(self@),
    {
        proof {
            use_type_invariant(self);
        }
        self.pairs.len()
    }

    /// Whether there is no field.
    pub fn is_empty(&self) -> (empty: bool)
        ensures
            empty == (self@.len() == 0),
    {
        self.pairs.len() == 0
    }

    /// The name of the field at `index`.
    pub fn name_at(&self, index: usize) -> (name: &String)
        requires
            index < self@.len(),
        ensures
            name@ == self@[index as int].0,
    {
        &self.pairs[index].0
    }

    /// The value of the field at `index`.
    pub fn value_at(&self, index: usize) -> (value: &String)
        requires
            index < self@.len(),
        ensures
            value@ == self@[index as int].1,
    {
        &self.pairs[index].1
    }

    /// The index of the field called `name`; the number of fields if there
    /// is none.
    fn find(&self, name: &str) -> (index: usize)
        ensures
            index == field_index(self@, name@, 0),
            index <= self@.len(),
    {
        let mut i: usize = 0;
        while i < self.pairs.len()
            invariant
                i <= self.pairs@.len(),
                field_index(self@, name@, 0) == field_index(self@, name@, i as int),
            decreases self.pairs@.len() - i,
        {
            if text_eq(self.pairs[i].0.as_str(), name) {
                return i;
            }
            i = i + 1;
        }
        i
    }

    /// The value of the field called `name`, if there is one.
    pub fn get(&self, name: &str) -> (value: Option<&String>)
        ensures
            match value {
                Some(text) => field_value(self@, name@) == Some(text@),
                None => field_value(self@, name@) is None,
            },
    {
        let index = self.find(name);
        if index < self.pairs.len() {
            Some(&self.pairs[index].1)
        } else {
            None
        }
    }

    /// Sets the field called `name` to `value`.
    pub fn insert(&mut self, name: String, value: String)
        ensures
            final(self)@ == with_field(old(self)@, name@, value@),
    {
        proof {
            use_type_invariant(&*self);
            lemma_with_field(self@, name@, value@);
        }
        let index = self.find(name.as_str());
        let ghost wanted = with_field(self@, name@, value@);
        let mut pairs: Vec<(String, String)> = Vec::new();
        std::mem::swap(&mut pairs, &mut self.pairs);
        if index < pairs.len() {
            pairs.set(index, (name, value));
        } else {
            pairs.push((name, value));
        }
        assert(Seq::new(pairs@.len(), |i: int| (pairs@[i].0@, pairs@[i].1@)) =~= wanted);
        self.pairs = pairs;
    }

    /// Removes the field called `name`; says whether there was one.
    pub fn remove(&mut self, name: &str) -> (removed: bool)
        ensures
            removed == has_field(old(self)@, name@),
            final(self)@ == without_field(old(self)@, name@),
    {
        proof {
            use_type_invariant(&*self);
        }
        let index = self.find(name);
        if index < self.pairs.len() {
            let ghost wanted = without_field(self@, name@);
            let mut pairs: Vec<(String, String)> = Vec::new();
            std::mem::swap(&mut pairs, &mut self.pairs);
            pairs.remove(index);
            assert(Seq::new(pairs@.len(), |i: int| (pairs@[i].0@, pairs@[i].1@)) =~= wanted);
            self.pairs = pairs;
            true
        } else {
            false
        }
    }
}

impl Clone for FieldMap {
    fn clone(&self) -> (copy: FieldMap)
        ensures
            copy@ == self@,
    {
        proof {
            use_type_invariant(self);
        }
        let mut pairs: Vec<(String, String)> = Vec::new();
        let mut i: usize = 0;
        while i < self.pairs.len()
            invariant
                i <= self.pairs@.len(),
                pairs@.len() == i,
                forall|j: int|
                    0 <= j < i ==> pairs@[j].0@ == self.pairs@[j].0@ && pairs@[j].1@
                        == self.pairs@[j].1@,
            decreases self.pairs@.len() - i,
        {
            pairs.push((self.pairs[i].0.clone(), self.pairs[i].1.clone()));
            i = i + 1;
        }
        let ghost copied = Seq::new(pairs@.len(), |i: int| (pairs@[i].0@, pairs@[i].1@));
        assert(copied =~= self@);
        FieldMap { pairs }
    }
}

/// What one key holds.
#[derive(Debug)]
pub enum StorageType {
    /// A string
    String(String),
    /// A hash: fields with their values
    HashMap(FieldMap),
}

/// The mathematical content of a [`StorageType`].
pub enum Entry {
    StringVal(Seq<char>),
    HashVal(Fields),
}

impl View for StorageType {
    type V = Entry;

    open spec fn view(&self) -> Entry {
        match self {
            StorageType::String(text) => Entry::StringVal(text@),
            StorageType::HashMap(fields) => Entry::HashVal(fields@),
        }
    }
}

impl Clone for StorageType {
    fn clone(&self) -> (copy: StorageType)
        ensures
            copy@ == self@,
    {
        match self {
            StorageType::String(text) => StorageType::String(text.clone()),
            StorageType::HashMap(fields) => StorageType::HashMap(fields.clone()),
        }
    }
}

/// Whether `entry` is in order: a hash has no two fields of one name.
pub open spec fn valid_entry(entry: Entry) -> bool {
    entry matches Entry::HashVal(fields) ==> distinct_names(fields)
}

/// Whether everything that `store` holds is in order.
pub open spec fn valid_store(store: Map<Seq<char>, Entry>) -> bool {
    forall|key: Seq<char>| store.contains_key(key) ==> valid_entry(#[trigger] store[key])
}

/// The store: what each key holds. No hash in it has two fields of one
/// name.
pub struct Keyspace {
    entries: StringHashMap<StorageType>,
}

impl View for Keyspace {
    type V = Map<Seq<char>, Entry>;

    closed spec fn view(&self) -> Map<Seq<char>, Entry> {
        self.entries@.map_values(|entry: StorageType| entry@)
    }
}

impl Keyspace {
    #[verifier::type_invariant]
    spec fn entries_are_valid(&self) -> bool {
        valid_store(self@)
    }

    /// A store without keys.
    pub fn new() -> (keyspace: Keyspace)
        ensures
            keyspace@ == Map::<Seq<char>, Entry>::empty(),
    {
        let entries: StringHashMap<StorageType> = StringHashMap::new();
        Keyspace { entries }
    }

    /// What `key` holds, if it holds anything.
    pub fn get(&self, key: &str) -> (found: Option<&StorageType>)
        ensures
            valid_store(self@),
            match found {
                Some(entry) => self@.contains_key(key@) && self@[key@] == entry@,
                None => !self@.contains_key(key@),
            },
    {
        proof {
            use_type_invariant(self);
        }
        self.entries.get(key)
    }

    /// Lets `key` hold `entry`, in place of what it held.
    pub fn insert(&mut self, key: String, entry: StorageType)
        ensures
            final(self)@ == old(self)@.insert(key@, entry@),
    {
        proof {
            use_type_invariant(&*self);
            if let StorageType::HashMap(fields) = &entry {
                use_type_invariant(fields);
            }
        }
        let ghost wanted = self@.insert(key@, entry@);
        let mut entries: StringHashMap<StorageType> = StringHashMap::new();
        std::mem::swap(&mut entries, &mut self.entries);
        entries.insert(key, entry);
        assert(entries@.map_values(|entry: StorageType| entry@) =~= wanted);
        self.entries = entries;
    }

    /// Removes `key` and what it holds; says whether it held anything.
    pub fn remove(&mut self, key: &str) -> (removed: bool)
        ensures
            removed == old(self)@.contains_key(key@),
            final(self)@ == old(self)@.remove(key@),
    {
        proof {
            use_type_invariant(&*self);
        }
        let ghost wanted = self@.remove(key@);
        let removed = self.entries.contains_key(key);
        let mut entries: StringHashMap<StorageType> = StringHashMap::new();
        std::mem::swap(&mut entries, &mut self.entries);
        entries.remove(key);
        assert(entries@.map_values(|entry: StorageType| entry@) =~= wanted);
        self.entries = entries;
        removed
    }
}

} // verus!
