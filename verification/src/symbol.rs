//! Symbols, and the table of a session that hands them out.

use vstd::prelude::*;

verus! {

/// A symbol: a name, known by its number in the table that issued it.
pub type Symbol = u64;

/// The symbols of one session: the names that were interned, and the symbols
/// that were generated and bear no name. A symbol is the number of its entry.
pub struct SymbolTable {
    names: Vec<Option<String>>,
}

impl View for SymbolTable {
    type V = Seq<Option<Seq<char>>>;

    closed spec fn view(&self) -> Seq<Option<Seq<char>>> {
        Seq::new(
            self.names@.len(),
            |k: int|
                match self.names@[k] {
                    Some(name) => Some(name@),
                    None => None,
                },
        )
    }
}

/// Whether no name stands twice in `entries`.
pub open spec fn names_unique(entries: Seq<Option<Seq<char>>>) -> bool {
    forall|j: int, k: int|
        0 <= j < k < entries.len() && entries[j].is_some() ==> entries[j] != entries[k]
}

/// The number of the entry of `name` in `entries`, where it has one.
pub open spec fn symbol_of(entries: Seq<Option<Seq<char>>>, name: Seq<char>) -> int {
    choose|k: int| 0 <= k < entries.len() && entries[k] == Some(name)
}

/// A name has the symbol under which it stands in the table, and no other.
pub proof fn lemma_symbol_of(entries: Seq<Option<Seq<char>>>, name: Seq<char>, k: int)
    requires
        names_unique(entries),
        0 <= k < entries.len(),
        entries[k] == Some(name),
    ensures
        symbol_of(entries, name) == k,
{
    let found = symbol_of(entries, name);
    assert(0 <= found < entries.len() && entries[found] == Some(name));
    if found < k {
        assert(entries[found] != entries[k]);
    } else if k < found {
        assert(entries[k] != entries[found]);
    }
}

impl SymbolTable {
    /// The invariant of the table: no name has two symbols.
    pub open spec fn wf(&self) -> bool {
        names_unique(self@)
    }

    /// Whether the table has issued `symbol`.
    pub open spec fn issued(&self, symbol: Symbol) -> bool {
        symbol < self@.len()
    }

    /// A table that has issued no symbol.
    pub fn new() -> (table: SymbolTable)
        ensures
            table.wf(),
            table@ =~= Seq::<Option<Seq<char>>>::empty(),
    {
        SymbolTable { names: Vec::new() }
    }

    /// The number of symbols that the table has issued.
    pub fn len(&self) -> (n: usize)
        ensures
            n == self@.len(),
    {
        self.names.len()
    }

    /// The symbol of `name`: the one that the table issued for it before, or
    /// else a new one.
    pub fn intern(&mut self, name: &str) -> (symbol: Symbol)
        requires
            old(self).wf(),
        ensures
            final(self).wf(),
            final(self)@[symbol as int] == Some(name@),
            symbol < final(self)@.len(),
            symbol == symbol_of(final(self)@, name@),
            old(self)@.contains(Some(name@)) ==> final(self)@ == old(self)@,
            !old(self)@.contains(Some(name@)) ==> final(self)@ == old(self)@.push(Some(name@))
                && symbol == old(self)@.len(),
    {
        let wanted: String = name.to_owned();
        let mut k: usize = 0;
        while k < self.names.len()
            invariant
                k <= self.names@.len(),
                wanted@ == name@,
                self.names == old(self).names,
                self.wf(),
                forall|j: int| 0 <= j < k ==> self@[j] != Some(name@),
            decreases self.names@.len() - k,
        {
            let found: bool = match &self.names[k] {
                Some(known) => *known == wanted,
                None => false,
            };
            if found {
                proof {
                    assert(self@[k as int] == Some(name@));
                    lemma_symbol_of(self@, name@, k as int);
                }
                return k as u64;
            }
            k += 1;
        }
        let ghost before = self@;
        self.names.push(Some(wanted));
        proof {
            assert(self@ =~= before.push(Some(name@)));
            assert(!before.contains(Some(name@))) by {
                if before.contains(Some(name@)) {
                    let j = choose|j: int| 0 <= j < before.len() && before[j] == Some(name@);
                    assert(before[j] != Some(name@));
                }
            }
            lemma_symbol_of(self@, name@, k as int);
        }
        k as u64
    }

    /// A symbol that the table has not issued before. It bears no name.
    pub fn gensym(&mut self) -> (symbol: Symbol)
        requires
            old(self).wf(),
        ensures
            final(self).wf(),
            !old(self).issued(symbol),
            final(self).issued(symbol),
            symbol == old(self)@.len(),
            final(self)@ == old(self)@.push(None),
    {
        let ghost before = self@;
        let k: usize = self.names.len();
        self.names.push(None);
        proof {
            assert(self@ =~= before.push(None));
        }
        k as u64
    }

    /// The name of `symbol`, if the table issued it for a name.
    pub fn name(&self, symbol: Symbol) -> (name: Option<&String>)
        ensures
            match name {
                Some(text) => self.issued(symbol) && self@[symbol as int] == Some(text@),
                None => !self.issued(symbol) || self@[symbol as int].is_none(),
            },
    {
        if symbol >= self.names.len() as u64 {
            return None;
        }
        match &self.names[symbol as usize] {
            Some(text) => Some(text),
            None => None,
        }
    }
}

} // verus!
