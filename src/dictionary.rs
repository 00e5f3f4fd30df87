use vstd::prelude::*;
use vstd::string::*;
use crate::cell::{BlockRef, Cell};
use crate::primitives::Prim;

verus! {

/// A word implemented outside the tape.
#[derive(Clone, Copy, Debug, PartialEq, Eq, Structural)]
pub enum NativeFn {
    /// One of the engine's own primitives.
    Core(Prim),
    /// A function registered by the host under this number; the engine hands
    /// it back to the host to run.
    Host(u64),
}

/// What a word in the dictionary stands for.
#[derive(Debug)]
pub enum DictEntry {
    /// A native function.
    Native(NativeFn),
    /// A word defined as a block of the tape.
    Defined(BlockRef),
    /// A constant: executing the word pushes a copy of the cell.
    Data(Cell),
}

impl Clone for DictEntry {
    fn clone(&self) -> (r: Self)
        ensures
            r == *self,
    {
        match self {
            DictEntry::Native(f) => DictEntry::Native(*f),
            DictEntry::Defined(b) => DictEntry::Defined(*b),
            DictEntry::Data(c) => DictEntry::Data(c.clone()),
        }
    }
}

/// The word table: each name once, with the entry it was last given.
#[verifier::external_body]
pub struct WordTable {
    map: hashbrown::HashMap<String, DictEntry>,
}

/// What a word table holds, keyed by the characters of each name.
pub uninterp spec fn table_entries(t: WordTable) -> Map<Seq<char>, DictEntry>;

impl View for WordTable {
    type V = Map<Seq<char>, DictEntry>;

    open spec fn view(&self) -> Map<Seq<char>, DictEntry> {
        table_entries(*self)
    }
}

impl WordTable {
    /// Relies on `hashbrown::HashMap::new`: a new map holds nothing.
    #[verifier::external_body]
    pub fn new() -> (r: WordTable)
        ensures
            r@ =~= Map::empty(),
    {
        WordTable { map: hashbrown::HashMap::new() }
    }

    /// Relies on `hashbrown::HashMap::insert`: afterwards the key maps to the
    /// new value and every other key keeps its value. String keys hash and
    /// compare by their characters.
    #[verifier::external_body]
    pub fn insert(&mut self, key: String, entry: DictEntry)
        ensures
            table_entries(*final(self)) == old(self)@.insert(key@, entry),
    {
        self.map.insert(key, entry);
    }

    /// Relies on `hashbrown::HashMap::get`: the value stored under the key, if any.
    #[verifier::external_body]
    pub fn get(&self, key: &str) -> (r: Option<&DictEntry>)
        ensures
            self@.contains_key(key@) ==> r == Some(&self@[key@]),
            !self@.contains_key(key@) ==> r is None,
    {
        self.map.get(key)
    }

    /// Relies on `hashbrown::HashMap::contains_key`: whether the key is stored.
    #[verifier::external_body]
    pub fn contains_key(&self, key: &str) -> (r: bool)
        ensures
            r == self@.contains_key(key@),
    {
        self.map.contains_key(key)
    }
}

/// The dictionary: names to entries, and the prefix (`lex`) that is put in
/// front of every name defined while it is set.
pub struct Dictionary {
    pub dict: WordTable,
    pub lex: String,
}

impl Dictionary {
    /// The entries, keyed by full (prefixed) name.
    pub open spec fn entries(&self) -> Map<Seq<char>, DictEntry> {
        self.dict@
    }

    /// `after` is `before` with `word`, prefixed by the current lex, bound to `entry`.
    pub open spec fn defined(before: &Dictionary, after: &Dictionary, word: Seq<char>, entry: DictEntry) -> bool {
        &&& after.lex@ == before.lex@
        &&& after.entries() == before.entries().insert(before.lex@ + word, entry)
    }

    /// An empty dictionary with no prefix.
    pub fn new() -> (r: Dictionary)
        ensures
            r.entries() =~= Map::empty(),
            r.lex@ == Seq::<char>::empty(),
    {
        Dictionary { dict: WordTable::new(), lex: String::new() }
    }

    fn define(&mut self, word: &str, entry: DictEntry)
        ensures
            Dictionary::defined(old(self), final(self), word@, entry),
    {
        let name = self.lex.clone().concat(word);
        self.dict.insert(name, entry);
    }

    /// Defines a native word.
    pub fn native(&mut self, word: &str, func: NativeFn)
        ensures
            Dictionary::defined(old(self), final(self), word@, DictEntry::Native(func)),
    {
        self.define(word, DictEntry::Native(func))
    }

    /// Defines a word as a block of the tape.
    pub fn block(&mut self, word: &str, block: BlockRef)
        ensures
            Dictionary::defined(old(self), final(self), word@, DictEntry::Defined(block)),
    {
        self.define(word, DictEntry::Defined(block))
    }

    /// Defines a word as a constant.
    pub fn data(&mut self, word: &str, cell: Cell)
        ensures
            Dictionary::defined(old(self), final(self), word@, DictEntry::Data(cell)),
    {
        self.define(word, DictEntry::Data(cell))
    }

    /// The entry of a word, by its full name.
    pub fn get(&self, word: &str) -> (r: Option<&DictEntry>)
        ensures
            self.entries().contains_key(word@) ==> r == Some(&self.entries()[word@]),
            !self.entries().contains_key(word@) ==> r is None,
    {
        self.dict.get(word)
    }

    /// Whether a word, by its full name, is defined.
    pub fn is_defined(&self, word: &str) -> (r: bool)
        ensures
            r == self.entries().contains_key(word@),
    {
        self.dict.contains_key(word)
    }
}

} // verus!
