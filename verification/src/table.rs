//! In-memory tables and the store that holds them. A table is its
//! header and its data lines, exactly as they stand in its backing
//! file; the store maps table names to tables and stands for the
//! directory of table files.

use vstd::prelude::*;

verus! {

/// One table: the ordered column names of its first line, and its
/// data lines, each a comma-joined row.
pub struct Table {
    pub header: Vec<String>,
    pub lines: Vec<String>,
}

/// Mathematical image of a table.
pub struct TableView {
    pub header: Seq<Seq<char>>,
    pub lines: Seq<Seq<char>>,
}

impl View for Table {
    type V = TableView;

    open spec fn view(&self) -> TableView {
        TableView { header: self.header.deep_view(), lines: self.lines.deep_view() }
    }
}

/// What a store denotes: named tables, in insertion order.
pub type StoreView = Seq<(Seq<char>, TableView)>;

/// Index of the first table with the given name.
pub open spec fn store_find(sv: StoreView, name: Seq<char>) -> Option<int>
    decreases sv.len(),
{
    if sv.len() == 0 {
        None
    } else if sv[0].0 == name {
        Some(0)
    } else {
        match store_find(sv.skip(1), name) {
            Some(i) => Some(i + 1),
            None => None,
        }
    }
}

pub proof fn lemma_store_find(sv: StoreView, name: Seq<char>)
    ensures
        match store_find(sv, name) {
            Some(i) => 0 <= i < sv.len() && sv[i].0 == name && forall|j: int|
                0 <= j < i ==> (#[trigger] sv[j]).0 != name,
            None => forall|j: int| 0 <= j < sv.len() ==> (#[trigger] sv[j]).0 != name,
        },
    decreases sv.len(),
{
    if sv.len() > 0 && sv[0].0 != name {
        lemma_store_find(sv.skip(1), name);
        match store_find(sv.skip(1), name) {
            Some(i) => {
                assert(forall|j: int| 1 <= j < i + 1 ==> (#[trigger] sv[j]) == sv.skip(1)[j - 1]);
            },
            None => {
                assert(forall|j: int| 1 <= j < sv.len() ==> (#[trigger] sv[j]) == sv.skip(1)[j - 1]);
            },
        }
    }
}

/// The names of the store's tables, in order.
pub open spec fn store_names(sv: StoreView) -> Seq<Seq<char>> {
    Seq::new(sv.len(), |i: int| sv[i].0)
}

/// The collection of tables a statement runs against, keyed by name.
pub struct Store {
    tables: Vec<(String, Table)>,
}

impl View for Store {
    type V = StoreView;

    closed spec fn view(&self) -> StoreView {
        Seq::new(self.tables@.len(), |i: int| (self.tables@[i].0@, self.tables@[i].1@))
    }
}

impl Store {
    /// A store with no tables.
    pub fn new() -> (r: Store)
        ensures
            r@ == Seq::<(Seq<char>, TableView)>::empty(),
    {
        let s = Store { tables: Vec::new() };
        proof {
            assert(s@ =~= Seq::<(Seq<char>, TableView)>::empty());
        }
        s
    }

    /// Adds a table under a name not yet present.
    pub fn insert_table(&mut self, name: String, table: Table)
        requires
            store_find(old(self)@, name@) is None,
        ensures
            final(self)@ == old(self)@.push((name@, table@)),
    {
        let ghost before = self@;
        self.tables.push((name, table));
        proof {
            assert(self@ =~= before.push((self.tables@.last().0@, self.tables@.last().1@)));
        }
    }

    /// How many tables the store holds.
    pub fn len(&self) -> (r: usize)
        ensures
            r == self@.len(),
    {
        self.tables.len()
    }

    /// The names of all tables, in insertion order.
    pub fn table_names(&self) -> (r: Vec<String>)
        ensures
            r.deep_view() == store_names(self@),
    {
        let n = self.tables.len();
        let mut out: Vec<String> = Vec::new();
        let mut i: usize = 0;
        while i < n
            invariant
                0 <= i <= n,
                n == self.tables@.len(),
                out@.len() == i,
                forall|j: int| 0 <= j < i ==> (#[trigger] out@[j])@ == self@[j].0,
            decreases n - i,
        {
            let name = self.tables[i].0.clone();
            proof {
                assert(name@ == self@[i as int].0);
            }
            out.push(name);
            i = i + 1;
        }
        proof {
            assert forall|j: int| 0 <= j < n implies out.deep_view()[j] == store_names(self@)[j] by {
                assert(out.deep_view()[j] == out@[j]@);
            }
            assert(out.deep_view() =~= store_names(self@));
        }
        out
    }

    /// Position of the named table, if the store holds one.
    pub fn find_table(&self, name: &str) -> (r: Option<usize>)
        ensures
            match r {
                Some(i) => store_find(self@, name@) == Some(i as int) && i < self@.len()
                    && self@[i as int].0 == name@,
                None => store_find(self@, name@) is None,
            },
    {
        let n = self.tables.len();
        let mut i: usize = 0;
        while i < n
            invariant
                0 <= i <= n,
                n == self.tables@.len(),
                forall|j: int| 0 <= j < i ==> (#[trigger] self@[j]).0 != name@,
            decreases n - i,
        {
            if crate::scan::str_eq(self.tables[i].0.as_str(), name) {
                proof {
                    assert(self@[i as int].0 == name@);
                    lemma_store_find(self@, name@);
                    if store_find(self@, name@) is None {
                        assert(false);
                    }
                    let k = store_find(self@, name@).unwrap();
                    if k < i {
                        assert(self@[k].0 == name@);
                        assert(false);
                    }
                    if k > i {
                        assert(self@[i as int].0 != name@);
                        assert(false);
                    }
                }
                return Some(i);
            }
            i = i + 1;
        }
        proof {
            lemma_store_find(self@, name@);
        }
        None
    }

    /// The table at a known position.
    pub fn table_at(&self, i: usize) -> (r: &Table)
        requires
            i < self@.len(),
        ensures
            r@ == self@[i as int].1,
    {
        &self.tables[i].1
    }

    /// Replaces the table at a known position, keeping its name.
    pub fn set_table(&mut self, i: usize, table: Table)
        requires
            i < old(self)@.len(),
        ensures
            final(self)@ == old(self)@.update(i as int, (old(self)@[i as int].0, table@)),
    {
        let ghost before = self@;
        let name = self.tables[i].0.clone();
        self.tables[i] = (name, table);
        proof {
            assert(self@ =~= before.update(i as int, (before[i as int].0, self.tables@[i as int].1@)));
        }
    }
}

/// The items joined into one line with a comma between each pair.
pub open spec fn spec_join_commas(items: Seq<Seq<char>>) -> Seq<char>
    decreases items.len(),
{
    if items.len() == 0 {
        Seq::empty()
    } else if items.len() == 1 {
        items[0]
    } else {
        spec_join_commas(items.drop_last()) + ","@ + items.last()
    }
}

/// Joins items with commas.
pub fn join_commas(items: &Vec<String>) -> (r: String)
    ensures
        r@ == spec_join_commas(items.deep_view()),
{
    let n = items.len();
    let mut out = String::new();
    let mut i: usize = 0;
    while i < n
        invariant
            0 <= i <= n,
            n == items@.len(),
            out@ == spec_join_commas(items.deep_view().subrange(0, i as int)),
        decreases n - i,
    {
        if i > 0 {
            out.append(",");
        }
        out.append(items[i].as_str());
        proof {
            let pre = items.deep_view().subrange(0, i as int);
            let cur = items.deep_view().subrange(0, i + 1);
            assert(cur.drop_last() =~= pre);
            assert(cur.last() == items.deep_view()[i as int]);
            if i == 0 {
                assert(out@ =~= cur[0]);
            }
        }
        i = i + 1;
    }
    proof {
        assert(items.deep_view().subrange(0, n as int) =~= items.deep_view());
        if n == 0 {
            assert(out@ =~= Seq::<char>::empty());
        }
    }
    out
}

} // verus!
