//! The records of a vault and the container that is kept on disk.

use vstd::prelude::*;
use crate::keys::{name_before, rank_names, Rank};
use crate::keys::{lemma_before_irreflexive, lemma_before_transitive};

verus! {

/// One credential: a login, its password and an optional note.
#[derive(Debug, PartialEq, Eq)]
pub struct Entry {
    /// Account login or user name.
    pub login: String,
    /// Account password.
    pub password: String,
    /// A note, if the record has one.
    pub notes: Option<String>,
}

/// What an [`Entry`] holds, as text.
pub struct EntryView {
    pub login: Seq<char>,
    pub password: Seq<char>,
    pub notes: Option<Seq<char>>,
}

impl View for Entry {
    type V = EntryView;

    open spec fn view(&self) -> EntryView {
        EntryView {
            login: self.login@,
            password: self.password@,
            notes: match self.notes {
                Some(text) => Some(text@),
                None => None,
            },
        }
    }
}

impl Clone for Entry {
    fn clone(&self) -> (copy: Entry)
        ensures
            copy@ == self@,
    {
        let notes = match &self.notes {
            Some(text) => Some(text.clone()),
            None => None,
        };
        Entry { login: self.login.clone(), password: self.password.clone(), notes }
    }
}

/// The records of a vault, each with its name, in the order of the names.
pub type Records = Seq<(Seq<char>, EntryView)>;

/// The names stand in strictly rising order, so none occurs twice.
pub open spec fn sorted(records: Records) -> bool {
    forall|i: int, j: int|
        0 <= i < j < records.len() ==> name_before(
            #[trigger] records[i].0,
            #[trigger] records[j].0,
        )
}

/// The record at index `i` is the one named `name`.
pub open spec fn named_at(records: Records, i: int, name: Seq<char>) -> bool {
    0 <= i < records.len() && records[i].0 == name
}

/// The mapping from names to entries that a list of records stands for.
pub open spec fn records_map(records: Records) -> Map<Seq<char>, EntryView> {
    Map::new(
        |name: Seq<char>| exists|i: int| named_at(records, i, name),
        |name: Seq<char>| records[choose|i: int| named_at(records, i, name)].1,
    )
}

/// In a sorted list a name stands at one index only.
pub proof fn lemma_named_once(records: Records, i: int, j: int, name: Seq<char>)
    requires
        sorted(records),
        named_at(records, i, name),
        named_at(records, j, name),
    ensures
        i == j,
{
    lemma_before_irreflexive(vstd::utf8::encode_utf8(name));
    if i < j {
        assert(name_before(records[i].0, records[j].0));
    } else if j < i {
        assert(name_before(records[j].0, records[i].0));
    }
}

/// The mapping of a sorted list gives each of its names the entry beside it.
pub proof fn lemma_map_holds(records: Records, i: int)
    requires
        sorted(records),
        0 <= i < records.len(),
    ensures
        records_map(records).contains_key(records[i].0),
        records_map(records)[records[i].0] == records[i].1,
{
    let name = records[i].0;
    assert(named_at(records, i, name));
    let j = choose|j: int| named_at(records, j, name);
    lemma_named_once(records, i, j, name);
}

/// Two sorted lists that stand for the same mapping are the same list.
pub proof fn lemma_map_determines_records(a: Records, b: Records)
    requires
        sorted(a),
        sorted(b),
        records_map(a) == records_map(b),
    ensures
        a == b,
    decreases a.len(),
{
    if a.len() == 0 {
        if b.len() > 0 {
            lemma_map_holds(b, 0);
            assert(records_map(a).contains_key(b[0].0));
            let i = choose|i: int| named_at(a, i, b[0].0);
            assert(named_at(a, i, b[0].0));
        }
        assert(a =~= b);
    } else if b.len() == 0 {
        lemma_map_holds(a, 0);
        assert(records_map(b).contains_key(a[0].0));
        let i = choose|i: int| named_at(b, i, a[0].0);
        assert(named_at(b, i, a[0].0));
    } else {
        // The first name of each list is the least of the common names.
        lemma_map_holds(a, 0);
        lemma_map_holds(b, 0);
        assert(records_map(b).contains_key(a[0].0));
        let ib = choose|i: int| named_at(b, i, a[0].0);
        assert(named_at(b, ib, a[0].0));
        assert(records_map(a).contains_key(b[0].0));
        let ia = choose|i: int| named_at(a, i, b[0].0);
        assert(named_at(a, ia, b[0].0));
        if ib > 0 {
            assert(name_before(b[0].0, b[ib].0));
            if ia > 0 {
                assert(name_before(a[0].0, a[ia].0));
                lemma_before_transitive(
                    vstd::utf8::encode_utf8(a[0].0),
                    vstd::utf8::encode_utf8(b[0].0),
                    vstd::utf8::encode_utf8(a[0].0),
                );
                lemma_before_irreflexive(vstd::utf8::encode_utf8(a[0].0));
            }
        }
        assert(a[0].0 == b[0].0);
        assert(a[0].1 == b[0].1);
        let ta = a.skip(1);
        let tb = b.skip(1);
        assert(sorted(ta)) by {
            assert forall|i: int, j: int| 0 <= i < j < ta.len() implies name_before(
                #[trigger] ta[i].0,
                #[trigger] ta[j].0,
            ) by {
                assert(name_before(a[i + 1].0, a[j + 1].0));
            }
        }
        assert(sorted(tb)) by {
            assert forall|i: int, j: int| 0 <= i < j < tb.len() implies name_before(
                #[trigger] tb[i].0,
                #[trigger] tb[j].0,
            ) by {
                assert(name_before(b[i + 1].0, b[j + 1].0));
            }
        }
        assert(records_map(ta) =~= records_map(tb)) by {
            lemma_tail_map(a);
            lemma_tail_map(b);
        }
        lemma_map_determines_records(ta, tb);
        assert(a =~= b) by {
            assert forall|i: int| 0 <= i < a.len() implies a[i] == b[i] by {
                if i > 0 {
                    assert(ta[i - 1] == tb[i - 1]);
                }
            }
            assert(a.len() == ta.len() + 1);
            assert(b.len() == tb.len() + 1);
        }
    }
}

/// The sorted list of records that stands for a mapping.
pub open spec fn sorted_records(map: Map<Seq<char>, EntryView>) -> Records {
    choose|records: Records| sorted(records) && records_map(records) == map
}

/// A sorted list is the sorted list of its own mapping.
pub proof fn lemma_sorted_records(records: Records)
    requires
        sorted(records),
    ensures
        sorted_records(records_map(records)) == records,
{
    let found = sorted_records(records_map(records));
    lemma_map_determines_records(found, records);
}

/// Without its first record, a sorted list stands for its mapping without
/// the first name.
proof fn lemma_tail_map(records: Records)
    requires
        sorted(records),
        records.len() > 0,
    ensures
        records_map(records.skip(1)) =~= records_map(records).remove(records[0].0),
{
    let tail = records.skip(1);
    let whole = records_map(records);
    let rest = records_map(tail);
    assert forall|name: Seq<char>| rest.contains_key(name) <==> whole.remove(
        records[0].0,
    ).contains_key(name) by {
        if rest.contains_key(name) {
            let i = choose|i: int| named_at(tail, i, name);
            assert(named_at(records, i + 1, name));
            if name == records[0].0 {
                lemma_named_once(records, 0, i + 1, name);
            }
        }
        if whole.remove(records[0].0).contains_key(name) {
            let i = choose|i: int| named_at(records, i, name);
            assert(named_at(tail, i - 1, name));
        }
    }
    assert forall|name: Seq<char>| rest.contains_key(name) implies rest[name] == whole.remove(
        records[0].0,
    )[name] by {
        let i = choose|i: int| named_at(tail, i, name);
        let j = choose|j: int| named_at(records, j, name);
        assert(named_at(records, i + 1, name));
        assert(named_at(records, j, name));
        lemma_named_once(records, i + 1, j, name);
    }
}

/// The records that a list of named entries holds.
pub(crate) open spec fn listed(entries: Seq<(String, Entry)>) -> Records {
    Seq::new(entries.len(), |i: int| (entries[i].0@, entries[i].1@))
}

/// The decrypted contents of a vault: entries under unique names, kept in
/// the order of the names.
#[derive(Debug, PartialEq, Eq)]
pub struct Vault {
    pub(crate) entries: Vec<(String, Entry)>,
}

impl View for Vault {
    type V = Map<Seq<char>, EntryView>;

    open spec fn view(&self) -> Map<Seq<char>, EntryView> {
        records_map(self.records())
    }
}

impl Vault {
    /// The records in the order in which the vault keeps and writes them.
    pub closed spec fn records(&self) -> Records {
        listed(self.entries@)
    }

    /// Every vault keeps its records sorted by name.
    #[verifier::type_invariant]
    pub open spec fn well_formed(&self) -> bool {
        sorted(self.records())
    }

    /// A vault without records.
    pub fn new() -> (vault: Vault)
        ensures
            vault.records() == Seq::<(Seq<char>, EntryView)>::empty(),
            vault@ == Map::<Seq<char>, EntryView>::empty(),
    {
        let entries: Vec<(String, Entry)> = Vec::new();
        assert(listed(entries@) =~= Seq::empty());
        let vault = Vault { entries };
        assert(vault@ =~= Map::empty());
        vault
    }

    /// The number of records.
    pub fn len(&self) -> (n: usize)
        ensures
            n == self.records().len(),
    {
        self.entries.len()
    }

    /// Whether the vault has no record.
    pub fn is_empty(&self) -> (empty: bool)
        ensures
            empty == (self.records().len() == 0),
    {
        self.entries.len() == 0
    }

    /// The record at index `i` of the sorted listing, if there is one.
    pub fn record(&self, i: usize) -> (r: Option<(&String, &Entry)>)
        ensures
            match r {
                Some((name, entry)) => i < self.records().len() && self.records()[i as int] == (
                    name@,
                    entry@,
                ),
                None => i >= self.records().len(),
            },
    {
        if i < self.entries.len() {
            let pair = &self.entries[i];
            Some((&pair.0, &pair.1))
        } else {
            None
        }
    }

    /// The index at which `name` stands, or at which it would have to be
    /// put in.
    fn locate(&self, name: &str) -> (r: (usize, bool))
        ensures
            r.0 <= self.records().len(),
            forall|j: int| 0 <= j < r.0 ==> name_before(#[trigger] self.records()[j].0, name@),
            r.1 ==> named_at(self.records(), r.0 as int, name@),
            !r.1 ==> forall|j: int|
                r.0 <= j < self.records().len() ==> name_before(
                    name@,
                    #[trigger] self.records()[j].0,
                ),
    {
        proof {
            use_type_invariant(self);
        }
        let mut i: usize = 0;
        while i < self.entries.len()
            invariant
                i <= self.entries.len(),
                self.entries@.len() == self.records().len(),
                sorted(self.records()),
                forall|j: int| 0 <= j < i ==> name_before(#[trigger] self.records()[j].0, name@),
            decreases self.entries.len() - i,
        {
            let rank = rank_names(self.entries[i].0.as_str(), name);
            assert(self.records()[i as int].0 == self.entries@[i as int].0@);
            match rank {
                Rank::Before => {
                    i += 1;
                },
                Rank::Same => {
                    return (i, true);
                },
                Rank::After => {
                    proof {
                        assert forall|j: int| i <= j < self.records().len() implies name_before(
                            name@,
                            #[trigger] self.records()[j].0,
                        ) by {
                            if j > i {
                                assert(name_before(self.records()[i as int].0, self.records()[j].0));
                                lemma_before_transitive(
                                    vstd::utf8::encode_utf8(name@),
                                    vstd::utf8::encode_utf8(self.records()[i as int].0),
                                    vstd::utf8::encode_utf8(self.records()[j].0),
                                );
                            }
                        }
                    }
                    return (i, false);
                },
            }
        }
        (i, false)
    }

    /// The entry that stands under `name`, if there is one.
    pub fn get(&self, name: &str) -> (found: Option<&Entry>)
        ensures
            match found {
                Some(entry) => self@.contains_key(name@) && self@[name@] == entry@,
                None => !self@.contains_key(name@),
            },
    {
        proof {
            use_type_invariant(self);
        }
        let (i, present) = self.locate(name);
        if present {
            proof {
                lemma_map_holds(self.records(), i as int);
            }
            Some(&self.entries[i].1)
        } else {
            proof {
                lemma_absent(self.records(), i as int, name@);
            }
            None
        }
    }

    /// The names of all records, in rising order.
    pub fn keys(&self) -> (names: Vec<String>)
        ensures
            names@.len() == self.records().len(),
            forall|i: int| 0 <= i < names@.len() ==> (#[trigger] names@[i])@ == self.records()[i].0,
    {
        let mut names: Vec<String> = Vec::new();
        let mut i: usize = 0;
        while i < self.entries.len()
            invariant
                i <= self.entries.len(),
                self.entries@.len() == self.records().len(),
                names@.len() == i,
                forall|j: int| 0 <= j < i ==> (#[trigger] names@[j])@ == self.records()[j].0,
            decreases self.entries.len() - i,
        {
            names.push(self.entries[i].0.clone());
            i += 1;
        }
        names
    }

    /// Puts `entry` under `name`, in place of what stood there, and returns
    /// what stood there.
    pub fn insert(&mut self, name: String, entry: Entry) -> (previous: Option<Entry>)
        ensures
            final(self)@ == old(self)@.insert(name@, entry@),
            match previous {
                Some(before) => old(self)@.contains_key(name@) && old(self)@[name@] == before@,
                None => !old(self)@.contains_key(name@),
            },
    {
        let mut current = Vault::new();
        std::mem::swap(self, &mut current);
        let (next, previous) = current.with_inserted(name, entry);
        *self = next;
        previous
    }

    /// Takes the record named `name` out, and returns its entry.
    pub fn remove(&mut self, name: &str) -> (removed: Option<Entry>)
        ensures
            final(self)@ == old(self)@.remove(name@),
            match removed {
                Some(before) => old(self)@.contains_key(name@) && old(self)@[name@] == before@,
                None => !old(self)@.contains_key(name@),
            },
    {
        let mut current = Vault::new();
        std::mem::swap(self, &mut current);
        let (next, removed) = current.with_removed(name);
        *self = next;
        removed
    }

    /// Adds a record behind all others, if its name comes after theirs.
    pub(crate) fn append(&mut self, name: String, entry: Entry) -> (added: bool)
        ensures
            added == (old(self).records().len() == 0 || name_before(
                old(self).records().last().0,
                name@,
            )),
            added ==> final(self).records() == old(self).records().push((name@, entry@)),
            !added ==> final(self).records() == old(self).records(),
    {
        let mut current = Vault::new();
        std::mem::swap(self, &mut current);
        let (next, added) = current.with_appended(name, entry);
        *self = next;
        added
    }

    fn with_inserted(self, name: String, entry: Entry) -> (r: (Vault, Option<Entry>))
        ensures
            r.0@ == self@.insert(name@, entry@),
            match r.1 {
                Some(before) => self@.contains_key(name@) && self@[name@] == before@,
                None => !self@.contains_key(name@),
            },
    {
        proof {
            use_type_invariant(&self);
        }
        let (i, present) = self.locate(name.as_str());
        let ghost before = self.records();
        let Vault { entries } = self;
        let mut entries = entries;
        let previous = if present {
            proof {
                lemma_map_holds(before, i as int);
            }
            let (_, old_entry) = entries.remove(i);
            Some(old_entry)
        } else {
            proof {
                lemma_absent(before, i as int, name@);
            }
            None
        };
        let ghost lower = before.take(i as int);
        let ghost upper = if present {
            before.skip(i as int + 1)
        } else {
            before.skip(i as int)
        };
        entries.insert(i, (name, entry));
        proof {
            assert(listed(entries@) =~= lower.push((name@, entry@)) + upper);
            lemma_spliced(before, i as int, present, (name@, entry@));
        }
        (Vault { entries }, previous)
    }

    fn with_removed(self, name: &str) -> (r: (Vault, Option<Entry>))
        ensures
            r.0@ == self@.remove(name@),
            match r.1 {
                Some(before) => self@.contains_key(name@) && self@[name@] == before@,
                None => !self@.contains_key(name@),
            },
    {
        proof {
            use_type_invariant(&self);
        }
        let (i, present) = self.locate(name);
        let ghost before = self.records();
        if !present {
            proof {
                lemma_absent(before, i as int, name@);
                assert(self@ =~= self@.remove(name@));
            }
            return (self, None);
        }
        let Vault { entries } = self;
        let mut entries = entries;
        proof {
            lemma_map_holds(before, i as int);
        }
        let (_, old_entry) = entries.remove(i);
        proof {
            assert(listed(entries@) =~= before.take(i as int) + before.skip(i as int + 1));
            lemma_cut(before, i as int);
        }
        (Vault { entries }, Some(old_entry))
    }

    fn with_appended(self, name: String, entry: Entry) -> (r: (Vault, bool))
        ensures
            r.1 == (self.records().len() == 0 || name_before(self.records().last().0, name@)),
            r.1 ==> r.0.records() == self.records().push((name@, entry@)),
            !r.1 ==> r.0.records() == self.records(),
    {
        proof {
            use_type_invariant(&self);
        }
        let n = self.entries.len();
        let ghost before = self.records();
        if n > 0 {
            let rank = rank_names(self.entries[n - 1].0.as_str(), name.as_str());
            assert(before.last().0 == self.entries@[n - 1].0@);
            if rank != Rank::Before {
                return (self, false);
            }
        }
        let Vault { entries } = self;
        let mut entries = entries;
        entries.push((name, entry));
        proof {
            let after = before.push((name@, entry@));
            assert(listed(entries@) =~= after);
            assert forall|i: int, j: int| 0 <= i < j < after.len() implies name_before(
                #[trigger] after[i].0,
                #[trigger] after[j].0,
            ) by {
                if j == n {
                    if i < n - 1 {
                        assert(name_before(before[i].0, before[n - 1].0));
                        lemma_before_transitive(
                            vstd::utf8::encode_utf8(before[i].0),
                            vstd::utf8::encode_utf8(before[n - 1].0),
                            vstd::utf8::encode_utf8(name@),
                        );
                    }
                } else {
                    assert(name_before(before[i].0, before[j].0));
                }
            }
        }
        (Vault { entries }, true)
    }
}

impl Default for Vault {
    fn default() -> (vault: Vault)
        ensures
            vault.records() == Seq::<(Seq<char>, EntryView)>::empty(),
    {
        Vault::new()
    }
}

impl Clone for Vault {
    fn clone(&self) -> (copy: Vault)
        ensures
            copy.records() == self.records(),
    {
        proof {
            use_type_invariant(self);
        }
        let mut entries: Vec<(String, Entry)> = Vec::new();
        let mut i: usize = 0;
        while i < self.entries.len()
            invariant
                i <= self.entries.len(),
                entries@.len() == i,
                forall|j: int|
                    0 <= j < i ==> (#[trigger] entries@[j]).0@ == self.entries@[j].0@
                        && entries@[j].1@ == self.entries@[j].1@,
            decreases self.entries.len() - i,
        {
            entries.push((self.entries[i].0.clone(), self.entries[i].1.clone()));
            i += 1;
        }
        assert(listed(entries@) =~= self.records());
        Vault { entries }
    }
}

/// A name that sorts between the records below index `i` and those from `i`
/// on stands in the list nowhere.
proof fn lemma_absent(records: Records, i: int, name: Seq<char>)
    requires
        0 <= i <= records.len(),
        forall|j: int| 0 <= j < i ==> name_before(#[trigger] records[j].0, name),
        forall|j: int| i <= j < records.len() ==> name_before(name, #[trigger] records[j].0),
    ensures
        !records_map(records).contains_key(name),
{
    lemma_before_irreflexive(vstd::utf8::encode_utf8(name));
    if records_map(records).contains_key(name) {
        let j = choose|j: int| named_at(records, j, name);
        assert(named_at(records, j, name));
        if j < i {
            assert(name_before(records[j].0, name));
        } else {
            assert(name_before(name, records[j].0));
        }
    }
}

/// Putting a record at its place in a sorted list, over the one of its name
/// if there is one, gives a sorted list that stands for the mapping with
/// that record put in.
proof fn lemma_spliced(
    records: Records,
    i: int,
    present: bool,
    record: (Seq<char>, EntryView),
)
    requires
        sorted(records),
        0 <= i <= records.len(),
        forall|j: int| 0 <= j < i ==> name_before(#[trigger] records[j].0, record.0),
        present ==> named_at(records, i, record.0),
        !present ==> forall|j: int|
            i <= j < records.len() ==> name_before(record.0, #[trigger] records[j].0),
    ensures
        ({
            let upper = if present {
                records.skip(i + 1)
            } else {
                records.skip(i)
            };
            let after = records.take(i).push(record) + upper;
            sorted(after) && records_map(after) == records_map(records).insert(record.0, record.1)
        }),
{
    let shift: int = if present {
        1
    } else {
        0
    };
    let upper = records.skip(i + shift);
    let after = records.take(i).push(record) + upper;
    assert(after.len() == records.len() + 1 - shift);
    assert(after[i] == record);
    assert forall|j: int| 0 <= j < i implies #[trigger] after[j] == records[j] by {}
    assert forall|j: int| i < j < after.len() implies #[trigger] after[j] == records[j - 1
        + shift] by {}
    assert forall|j: int| i + shift <= j < records.len() implies name_before(
        record.0,
        #[trigger] records[j].0,
    ) by {
        if present {
            assert(name_before(records[i].0, records[j].0));
        }
    }
    assert forall|a: int, b: int| 0 <= a < b < after.len() implies name_before(
        #[trigger] after[a].0,
        #[trigger] after[b].0,
    ) by {
        if b < i {
            assert(name_before(records[a].0, records[b].0));
        } else if b == i {
            assert(name_before(records[a].0, record.0));
        } else if a < i {
            assert(name_before(records[a].0, records[b - 1 + shift].0));
        } else if a == i {
            assert(name_before(record.0, records[b - 1 + shift].0));
        } else {
            assert(name_before(records[a - 1 + shift].0, records[b - 1 + shift].0));
        }
    }
    let old_map = records_map(records);
    let new_map = records_map(after);
    assert forall|name: Seq<char>| new_map.contains_key(name) <==> old_map.insert(
        record.0,
        record.1,
    ).contains_key(name) by {
        if new_map.contains_key(name) && name != record.0 {
            let j = choose|j: int| named_at(after, j, name);
            assert(named_at(after, j, name));
            if j < i {
                assert(named_at(records, j, name));
            } else {
                assert(named_at(records, j - 1 + shift, name));
            }
        }
        if old_map.contains_key(name) && name != record.0 {
            let j = choose|j: int| named_at(records, j, name);
            assert(named_at(records, j, name));
            if j < i {
                assert(named_at(after, j, name));
            } else {
                assert(named_at(after, j + 1 - shift, name));
            }
        }
        if name == record.0 {
            assert(named_at(after, i, name));
        }
    }
    assert forall|name: Seq<char>| new_map.contains_key(name) implies new_map[name]
        == old_map.insert(record.0, record.1)[name] by {
        let j = choose|j: int| named_at(after, j, name);
        assert(named_at(after, j, name));
        if name == record.0 {
            assert(named_at(after, i, name));
            lemma_named_once(after, i, j, name);
        } else {
            let k = if j < i {
                j
            } else {
                j - 1 + shift
            };
            assert(named_at(records, k, name));
            lemma_map_holds(records, k);
        }
    }
    assert(new_map =~= old_map.insert(record.0, record.1));
}

/// Cutting the record at index `i` out of a sorted list gives a sorted list
/// that stands for the mapping without that name.
proof fn lemma_cut(records: Records, i: int)
    requires
        sorted(records),
        0 <= i < records.len(),
    ensures
        ({
            let after = records.take(i) + records.skip(i + 1);
            sorted(after) && records_map(after) == records_map(records).remove(records[i].0)
        }),
{
    let after = records.take(i) + records.skip(i + 1);
    let gone = records[i].0;
    assert forall|j: int| 0 <= j < i implies #[trigger] after[j] == records[j] by {}
    assert forall|j: int| i <= j < after.len() implies #[trigger] after[j] == records[j + 1] by {}
    assert forall|a: int, b: int| 0 <= a < b < after.len() implies name_before(
        #[trigger] after[a].0,
        #[trigger] after[b].0,
    ) by {
        let ka = if a < i {
            a
        } else {
            a + 1
        };
        let kb = if b < i {
            b
        } else {
            b + 1
        };
        assert(name_before(records[ka].0, records[kb].0));
    }
    let old_map = records_map(records);
    let new_map = records_map(after);
    assert forall|name: Seq<char>| new_map.contains_key(name) <==> old_map.remove(
        gone,
    ).contains_key(name) by {
        if new_map.contains_key(name) {
            let j = choose|j: int| named_at(after, j, name);
            assert(named_at(after, j, name));
            let k = if j < i {
                j
            } else {
                j + 1
            };
            assert(named_at(records, k, name));
            if name == gone {
                lemma_named_once(records, k, i, name);
            }
        }
        if old_map.remove(gone).contains_key(name) {
            let j = choose|j: int| named_at(records, j, name);
            assert(named_at(records, j, name));
            if j < i {
                assert(named_at(after, j, name));
            } else {
                assert(named_at(after, j - 1, name));
            }
        }
    }
    assert forall|name: Seq<char>| new_map.contains_key(name) implies new_map[name]
        == old_map.remove(gone)[name] by {
        let j = choose|j: int| named_at(after, j, name);
        assert(named_at(after, j, name));
        let k = if j < i {
            j
        } else {
            j + 1
        };
        assert(named_at(records, k, name));
        lemma_map_holds(records, k);
    }
    assert(new_map =~= old_map.remove(gone));
}

/// The container that is kept on disk: a format version, and the salt and
/// the envelope as base64 text.
#[derive(Debug, PartialEq, Eq)]
pub struct FileFormat {
    /// Format version.
    pub version: u8,
    /// Base64 text of the salt.
    pub salt: String,
    /// Base64 text of the envelope.
    pub blob: String,
}

impl Clone for FileFormat {
    fn clone(&self) -> (copy: FileFormat)
        ensures
            copy.version == self.version,
            copy.salt@ == self.salt@,
            copy.blob@ == self.blob@,
    {
        FileFormat { version: self.version, salt: self.salt.clone(), blob: self.blob.clone() }
    }
}

} // verus!
