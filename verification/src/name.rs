//! Symbol table: canonical identities for the names used throughout the IR.
use vstd::prelude::*;

verus! {

/// The namespace a name lives in.
#[derive(Clone, Copy, Debug, PartialEq, Eq, Structural, Hash)]
pub enum NameKind {
    /// A symbol visible at unit level: a function or a datum.
    Global,
    /// A function-local name: a parameter or a temporary.
    Local,
    /// A block label.
    Label,
}

/// The identity of an interned name.
///
/// Two names are the same identity exactly when they are equal as values;
/// the text behind a name is held by the table that issued it.
#[derive(Clone, Copy, Debug, PartialEq, Eq, Structural, Hash)]
pub struct Name {
    pub kind: NameKind,
    pub id: usize,
}

/// What a table holds for one name: its kind and its text.
pub type Entry = (NameKind, Seq<char>);

/// One stored symbol.
#[derive(Debug)]
pub struct Symbol {
    pub kind: NameKind,
    pub text: String,
}

/// Owner of all name identities of one compilation unit.
#[derive(Debug)]
pub struct SymbolTable {
    symbols: Vec<Symbol>,
}

impl View for SymbolTable {
    type V = Seq<Entry>;

    closed spec fn view(&self) -> Seq<Entry> {
        Seq::new(self.symbols@.len(), |i: int| (self.symbols@[i].kind, self.symbols@[i].text@))
    }
}

/// No (kind, text) pair is stored twice.
pub open spec fn distinct_entries(t: Seq<Entry>) -> bool {
    forall|i: int, j: int| 0 <= i < j < t.len() ==> t[i] != t[j]
}

/// Whether `name` was issued by a table whose contents are `t`.
pub open spec fn issued_by(t: Seq<Entry>, name: Name) -> bool {
    name.id < t.len() && t[name.id as int].0 == name.kind
}

/// Whether `i` is the first position of `t` that holds the pair (kind, text).
pub open spec fn first_at(t: Seq<Entry>, kind: NameKind, text: Seq<char>, i: int) -> bool {
    &&& 0 <= i < t.len()
    &&& t[i] == (kind, text)
    &&& forall|j: int| 0 <= j < i ==> t[j] != (kind, text)
}

/// The first position of the pair (kind, text) in `t`, if it is stored there.
pub open spec fn position_of(t: Seq<Entry>, kind: NameKind, text: Seq<char>) -> Option<int> {
    if exists|i: int| first_at(t, kind, text, i) {
        Some(choose|i: int| first_at(t, kind, text, i))
    } else {
        None
    }
}

/// The first position that holds a pair is the position of that pair.
pub proof fn lemma_position_of_first(t: Seq<Entry>, kind: NameKind, text: Seq<char>, i: int)
    requires
        first_at(t, kind, text, i),
    ensures
        position_of(t, kind, text) == Some(i),
{
    let c = choose|c: int| first_at(t, kind, text, c);
    assert(first_at(t, kind, text, c));
    if c < i {
        assert(t[c] != (kind, text));
    }
    if i < c {
        assert(t[i] != (kind, text));
    }
}

/// A pair that is stored nowhere has no position.
pub proof fn lemma_position_of_absent(t: Seq<Entry>, kind: NameKind, text: Seq<char>)
    requires
        forall|j: int| 0 <= j < t.len() ==> t[j] != (kind, text),
    ensures
        position_of(t, kind, text) is None,
{
}

/// The table contents after interning (kind, text) into `t`.
pub open spec fn table_after_intern(t: Seq<Entry>, kind: NameKind, text: Seq<char>) -> Seq<Entry> {
    match position_of(t, kind, text) {
        Some(_) => t,
        None => t.push((kind, text)),
    }
}

/// The identity that interning (kind, text) into `t` yields.
pub open spec fn name_after_intern(t: Seq<Entry>, kind: NameKind, text: Seq<char>) -> Name {
    match position_of(t, kind, text) {
        Some(i) => Name { kind, id: i as usize },
        None => Name { kind, id: t.len() as usize },
    }
}

/// A pair that is stored somewhere has a first position.
pub proof fn lemma_first_exists(t: Seq<Entry>, kind: NameKind, text: Seq<char>, j: int)
    requires
        0 <= j < t.len(),
        t[j] == (kind, text),
    ensures
        exists|i: int| first_at(t, kind, text, i),
    decreases j,
{
    if forall|k: int| 0 <= k < j ==> t[k] != (kind, text) {
        assert(first_at(t, kind, text, j));
    } else {
        let k = choose|k: int| 0 <= k < j && t[k] == (kind, text);
        lemma_first_exists(t, kind, text, k);
    }
}

/// Interning is canonical: interning a pair once more yields the identity
/// that the first call yielded and leaves the table as the first call left
/// it.
pub proof fn lemma_intern_twice(t: Seq<Entry>, kind: NameKind, text: Seq<char>)
    ensures
        name_after_intern(table_after_intern(t, kind, text), kind, text) == name_after_intern(
            t,
            kind,
            text,
        ),
        table_after_intern(table_after_intern(t, kind, text), kind, text) == table_after_intern(
            t,
            kind,
            text,
        ),
{
    let t1 = table_after_intern(t, kind, text);
    if position_of(t, kind, text) is None {
        assert forall|j: int| 0 <= j < t.len() implies t[j] != (kind, text) by {
            if t[j] == (kind, text) {
                lemma_first_exists(t, kind, text, j);
            }
        }
        assert(first_at(t1, kind, text, t.len() as int));
        lemma_position_of_first(t1, kind, text, t.len() as int);
    }
}

/// Interning the same text under two different kinds yields two different
/// identities, whatever else is interned in between.
pub proof fn lemma_intern_kinds_apart(
    t1: Seq<Entry>,
    t2: Seq<Entry>,
    k1: NameKind,
    k2: NameKind,
    text: Seq<char>,
)
    requires
        k1 != k2,
    ensures
        name_after_intern(t1, k1, text) != name_after_intern(t2, k2, text),
{
}

/// Two different pairs interned into one table, one after the other, get two
/// different identities; each identity resolves to its own pair afterwards.
pub proof fn lemma_intern_injective(
    t: Seq<Entry>,
    k1: NameKind,
    s1: Seq<char>,
    k2: NameKind,
    s2: Seq<char>,
)
    requires
        t.len() < usize::MAX,
        (k1, s1) != (k2, s2),
    ensures
        ({
            let t1 = table_after_intern(t, k1, s1);
            let t2 = table_after_intern(t1, k2, s2);
            let n1 = name_after_intern(t, k1, s1);
            let n2 = name_after_intern(t1, k2, s2);
            &&& n1 != n2
            &&& issued_by(t2, n1) && t2[n1.id as int] == (k1, s1)
            &&& issued_by(t2, n2) && t2[n2.id as int] == (k2, s2)
        }),
{
    let t1 = table_after_intern(t, k1, s1);
    let t2 = table_after_intern(t1, k2, s2);
    let n1 = name_after_intern(t, k1, s1);
    let n2 = name_after_intern(t1, k2, s2);
    match position_of(t, k1, s1) {
        Some(i) => {
            assert(first_at(t, k1, s1, i));
        },
        None => {},
    }
    assert(t1[n1.id as int] == (k1, s1));
    match position_of(t1, k2, s2) {
        Some(i) => {
            assert(first_at(t1, k2, s2, i));
        },
        None => {},
    }
    assert(t2[n2.id as int] == (k2, s2));
    assert(t2[n1.id as int] == t1[n1.id as int]);
}

impl SymbolTable {
    /// The table invariant: entries are pairwise distinct.
    pub open spec fn inv(&self) -> bool {
        distinct_entries(self@)
    }

    /// An empty table.
    pub fn new() -> (table: SymbolTable)
        ensures
            table@ == Seq::<Entry>::empty(),
            table.inv(),
    {
        SymbolTable { symbols: Vec::new() }
    }

    /// The number of names issued so far.
    pub fn len(&self) -> (n: usize)
        ensures
            n == self@.len(),
    {
        self.symbols.len()
    }

    /// Whether this table issued `name`.
    pub fn owns(&self, name: Name) -> (b: bool)
        ensures
            b == issued_by(self@, name),
    {
        name.id < self.symbols.len() && self.symbols[name.id].kind == name.kind
    }

    /// The identity of (kind, text) if it has been interned already.
    pub fn lookup(&self, kind: NameKind, text: &str) -> (found: Option<Name>)
        ensures
            found == match position_of(self@, kind, text@) {
                Some(i) => Some(Name { kind, id: i as usize }),
                None => None,
            },
            found matches Some(name) ==> first_at(self@, kind, text@, name.id as int),
            found is None ==> forall|j: int| 0 <= j < self@.len() ==> self@[j] != (kind, text@),
    {
        let wanted = text.to_owned();
        let n = self.symbols.len();
        let mut i: usize = 0;
        while i < n
            invariant
                i <= n,
                n == self.symbols@.len(),
                wanted@ == text@,
                forall|j: int| 0 <= j < i ==> self@[j] != (kind, text@),
            decreases n - i,
        {
            if self.symbols[i].kind == kind && self.symbols[i].text == wanted {
                proof {
                    lemma_position_of_first(self@, kind, text@, i as int);
                }
                return Some(Name { kind, id: i });
            }
            i += 1;
        }
        proof {
            lemma_position_of_absent(self@, kind, text@);
        }
        None
    }

    /// The canonical identity of (kind, text): the one issued before if there
    /// is one, else a new one.
    pub fn intern(&mut self, kind: NameKind, text: &str) -> (name: Name)
        requires
            old(self).inv(),
        ensures
            final(self).inv(),
            final(self)@ == table_after_intern(old(self)@, kind, text@),
            name == name_after_intern(old(self)@, kind, text@),
            issued_by(final(self)@, name),
            final(self)@[name.id as int] == (kind, text@),
    {
        match self.lookup(kind, text) {
            Some(name) => name,
            None => {
                let id = self.symbols.len();
                self.symbols.push(Symbol { kind, text: text.to_owned() });
                proof {
                    let before = old(self)@;
                    let after = self@;
                    assert(after =~= before.push((kind, text@)));
                    assert forall|i: int, j: int| 0 <= i < j < after.len() implies after[i]
                        != after[j] by {
                        if j < before.len() {
                            assert(before[i] != before[j]);
                        } else {
                            assert(before[i] != (kind, text@));
                        }
                    }
                }
                Name { kind, id }
            },
        }
    }

    /// The text that `name` was interned with.
    pub fn resolve(&self, name: Name) -> (text: &str)
        requires
            issued_by(self@, name),
        ensures
            text@ == self@[name.id as int].1,
    {
        self.symbols[name.id].text.as_str()
    }
}

} // verus!
