//! The dictionary: every entry ever defined, oldest first.
//!
//! A name is looked up from the newest entry back, so a later definition
//! shadows an earlier one of the same name. The earlier entry stays where it
//! is: code compiled against it keeps running it.

use vstd::prelude::*;
use vstd::string::*;
use vstd::pervasive::unreached;
use crate::primitive::Primitive;
use crate::types::{ForthCell, Statement};
use crate::word::{code_below, ForthWord, WordModel};

verus! {

/// A name bound to its code.
#[derive(Clone, Debug)]
pub struct Entry {
    pub name: String,
    pub code: ForthWord,
}

/// An `Entry` as contracts see it.
pub struct EntryModel {
    pub name: Seq<char>,
    pub code: WordModel,
}

impl View for Entry {
    type V = EntryModel;

    open spec fn view(&self) -> EntryModel {
        EntryModel { name: self.name@, code: self.code@ }
    }
}

/// Two entries are the same entry where they have the same name, whatever
/// their code.
impl PartialEq for Entry {
    fn eq(&self, other: &Self) -> (r: bool) {
        self.name == other.name
    }
}

impl vstd::std_specs::cmp::PartialEqSpecImpl for Entry {
    open spec fn obeys_eq_spec() -> bool {
        true
    }

    open spec fn eq_spec(&self, other: &Self) -> bool {
        self.name@ == other.name@
    }
}

impl Eq for Entry {}

impl Entry {
    /// An entry that binds `name` to `code`.
    pub fn new(name: &str, code: ForthWord) -> (entry: Entry)
        ensures
            entry@ == (EntryModel { name: name@, code: code@ }),
    {
        Entry { name: name.to_owned(), code }
    }

    /// A compiled entry: `name` bound to the cells of `stmt`.
    pub fn from_statement(name: &str, stmt: Statement) -> (entry: Entry)
        ensures
            entry@ == (EntryModel { name: name@, code: WordModel::Forth(stmt@) }),
    {
        Entry { name: name.to_owned(), code: ForthWord::Forth(stmt) }
    }
}

/// A compiled entry refers only to entries that are older than itself. This
/// is what lets every run of a word end.
pub open spec fn dictionary_wf(d: Seq<EntryModel>) -> bool {
    forall|h: int| 0 <= h < d.len() ==> code_below(#[trigger] d[h].code, h)
}

/// The handle that `name` stands for: that of the newest entry of that name.
pub open spec fn lookup(d: Seq<EntryModel>, name: Seq<char>) -> Option<int>
    decreases d.len(),
{
    if d.len() == 0 {
        None
    } else if d.last().name == name {
        Some(d.len() - 1)
    } else {
        lookup(d.drop_last(), name)
    }
}

/// `lookup` finds an entry of the name, and no newer entry has it; it finds
/// none only where no entry has the name.
pub proof fn lemma_lookup(d: Seq<EntryModel>, name: Seq<char>)
    ensures
        match lookup(d, name) {
            Some(h) => 0 <= h < d.len() && d[h].name == name && forall|k: int|
                h < k < d.len() ==> (#[trigger] d[k]).name != name,
            None => forall|k: int| 0 <= k < d.len() ==> (#[trigger] d[k]).name != name,
        },
    decreases d.len(),
{
    if d.len() > 0 && d.last().name != name {
        lemma_lookup(d.drop_last(), name);
        let shorter = d.drop_last();
        match lookup(shorter, name) {
            Some(h) => {
                assert forall|k: int| h < k < d.len() implies (#[trigger] d[k]).name != name by {
                    if k < shorter.len() {
                        assert(shorter[k] == d[k]);
                    }
                }
            },
            None => {
                assert forall|k: int| 0 <= k < d.len() implies (#[trigger] d[k]).name != name by {
                    if k < shorter.len() {
                        assert(shorter[k] == d[k]);
                    }
                }
            },
        }
    }
}

/// `name` stands for the entry with handle `h`, and that entry is the native word `p`.
pub open spec fn bound_to(d: Seq<EntryModel>, name: Seq<char>, h: int, p: Primitive) -> bool {
    &&& lookup(d, name) == Some(h)
    &&& 0 <= h < d.len()
    &&& d[h].code == WordModel::Native(p)
}

/// Looking a name up in a dictionary with one more entry: the new entry
/// where it has that name, else what the name stood for before.
pub proof fn lemma_lookup_push()
    ensures
        forall|d: Seq<EntryModel>, e: EntryModel, name: Seq<char>| #[trigger]
            lookup(d.push(e), name) == if e.name == name {
                Some(d.len() as int)
            } else {
                lookup(d, name)
            },
{
    assert forall|d: Seq<EntryModel>, e: EntryModel, name: Seq<char>| #[trigger]
        lookup(d.push(e), name) == if e.name == name {
            Some(d.len() as int)
        } else {
            lookup(d, name)
        } by {
        assert(d.push(e).drop_last() =~= d);
    }
}

/// `a` is the beginning of `b`: `b` is `a` with entries added.
pub open spec fn extends(a: Seq<EntryModel>, b: Seq<EntryModel>) -> bool {
    a.len() <= b.len() && forall|h: int| 0 <= h < a.len() ==> #[trigger] b[h] == a[h]
}

/// The entries in the order in which they were defined. An entry is never
/// changed or removed, so its position is a handle that stays good.
#[derive(Debug)]
pub struct Dictionary {
    entries: Vec<Entry>,
}

impl View for Dictionary {
    type V = Seq<EntryModel>;

    closed spec fn view(&self) -> Seq<EntryModel> {
        Seq::new(self.entries@.len(), |h: int| self.entries@[h]@)
    }
}

/// What can be done to a dictionary: an entry can be added.
pub trait DictionaryExt: Sized {
    /// The entries, oldest first.
    spec fn entries(&self) -> Seq<EntryModel>;

    /// Adds an entry. An entry of the same name that is already there is
    /// shadowed, not replaced.
    fn insert_entry(&mut self, entry: Entry)
        requires
            dictionary_wf(old(self).entries()),
            code_below(entry@.code, old(self).entries().len() as int),
        ensures
            final(self).entries() == old(self).entries().push(entry@),
            dictionary_wf(final(self).entries()),
    ;
}

impl DictionaryExt for Dictionary {
    open spec fn entries(&self) -> Seq<EntryModel> {
        self@
    }

    fn insert_entry(&mut self, entry: Entry) {
        self.entries.push(entry);
        assert(self@ =~= old(self)@.push(entry@));
    }
}

impl Dictionary {
    /// A dictionary without entries.
    pub fn new() -> (d: Dictionary)
        ensures
            d@ == Seq::<EntryModel>::empty(),
            dictionary_wf(d@),
    {
        let d = Dictionary { entries: Vec::new() };
        assert(d@ =~= Seq::<EntryModel>::empty());
        d
    }

    /// A machine word can count the entries.
    pub proof fn lemma_fits(&self)
        ensures
            self@.len() <= usize::MAX,
    {
        assert(self@.len() == self.entries.len());
    }

    /// The number of entries, shadowed ones included.
    pub fn len(&self) -> (n: usize)
        ensures
            n == self@.len(),
    {
        self.entries.len()
    }

    /// The entry with handle `h`.
    pub fn entry(&self, h: usize) -> (e: &Entry)
        requires
            h < self@.len(),
        ensures
            e@ == self@[h as int],
    {
        &self.entries[h]
    }

    /// The operation of the entry with handle `h`, where it is a native word.
    pub fn native(&self, h: usize) -> (r: Option<Primitive>)
        requires
            h < self@.len(),
        ensures
            match r {
                Some(p) => self@[h as int].code == WordModel::Native(p),
                None => self@[h as int].code is Forth,
            },
    {
        match &self.entries[h].code {
            ForthWord::Native(p) => Some(*p),
            ForthWord::Forth(_) => None,
        }
    }

    /// The cells of the entry with handle `h`, a compiled word.
    pub fn body(&self, h: usize) -> (cells: &Vec<ForthCell>)
        requires
            h < self@.len(),
            self@[h as int].code is Forth,
        ensures
            self@[h as int].code == WordModel::Forth(cells@),
    {
        match &self.entries[h].code {
            ForthWord::Forth(cells) => cells,
            ForthWord::Native(_) => unreached(),
        }
    }

    /// The newest entry called `name`.
    pub fn lookup(&self, name: &str) -> (r: Option<&Entry>)
        ensures
            match r {
                Some(e) => lookup(self@, name@) matches Some(h) && 0 <= h < self@.len() && e@
                    == self@[h],
                None => lookup(self@, name@) is None,
            },
    {
        match self.get(name) {
            Some(h) => Some(self.entry(h)),
            None => None,
        }
    }

    /// The handle of the newest entry called `name`.
    pub fn get(&self, name: &str) -> (r: Option<usize>)
        ensures
            match r {
                Some(h) => h < self@.len() && lookup(self@, name@) == Some(h as int),
                None => lookup(self@, name@) is None,
            },
    {
        let key: String = name.to_owned();
        let mut h: usize = self.entries.len();
        proof {
            assert(self@.subrange(0, h as int) =~= self@);
        }
        while h > 0
            invariant
                h <= self.entries@.len(),
                key@ == name@,
                lookup(self@, name@) == lookup(self@.subrange(0, h as int), name@),
            decreases h,
        {
            h = h - 1;
            proof {
                let upto = self@.subrange(0, h + 1);
                assert(upto.last() == self@[h as int]);
                assert(upto.drop_last() =~= self@.subrange(0, h as int));
            }
            if self.entries[h].name == key {
                return Some(h);
            }
        }
        None
    }
}

} // verus!
