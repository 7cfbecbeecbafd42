use vstd::prelude::*;

verus! {

/// One entry of a module's import table: a specifier as written in the
/// source and the identity of the module it resolved to.
#[derive(Debug, Clone)]
pub struct Entry {
    pub specifier: String,
    pub id: usize,
}

/// One transpiled module.
#[derive(Debug, Clone)]
pub struct Asset {
    /// Identity, unique per canonical path; the entry module has 0.
    pub id: usize,
    /// Canonical path of the module's file: the deduplication key.
    pub filename: String,
    /// Import specifiers in source order, duplicates kept.
    pub dependencies: Vec<String>,
    /// Body of the module's factory function.
    pub code: String,
    /// Import table: unique specifiers, in order of first resolution.
    pub mapping: Vec<Entry>,
}

/// Mathematical model of an [`Asset`].
pub struct AssetView {
    pub id: nat,
    pub filename: Seq<char>,
    pub dependencies: Seq<Seq<char>>,
    pub code: Seq<char>,
    pub mapping: Seq<(Seq<char>, nat)>,
}

pub open spec fn entries_view(m: Seq<Entry>) -> Seq<(Seq<char>, nat)> {
    m.map_values(|e: Entry| (e.specifier@, e.id as nat))
}

pub open spec fn strings_view(v: Seq<String>) -> Seq<Seq<char>> {
    v.map_values(|s: String| s@)
}

impl View for Asset {
    type V = AssetView;

    open spec fn view(&self) -> AssetView {
        AssetView {
            id: self.id as nat,
            filename: self.filename@,
            dependencies: strings_view(self.dependencies@),
            code: self.code@,
            mapping: entries_view(self.mapping@),
        }
    }
}

/// No specifier occurs twice in the table.
pub open spec fn keys_unique(m: Seq<(Seq<char>, nat)>) -> bool {
    forall|i: int, j: int| 0 <= i < m.len() && 0 <= j < m.len() && m[i].0 == m[j].0 ==> i == j
}

/// The specifier `k` has an entry in the table.
pub open spec fn has_key(m: Seq<(Seq<char>, nat)>, k: Seq<char>) -> bool {
    exists|i: int| 0 <= i < m.len() && m[i].0 == k
}

/// The table after `k` is bound to `v`: an existing entry for `k` is
/// overwritten in place, otherwise a new entry is appended.
pub open spec fn table_insert(m: Seq<(Seq<char>, nat)>, k: Seq<char>, v: nat) -> Seq<(Seq<char>, nat)> {
    if has_key(m, k) {
        let i = choose|i: int| 0 <= i < m.len() && m[i].0 == k;
        m.update(i, (k, v))
    } else {
        m.push((k, v))
    }
}

/// Binding a key keeps the keys unique and makes the key present.
pub proof fn lemma_table_insert(m: Seq<(Seq<char>, nat)>, k: Seq<char>, v: nat)
    requires
        keys_unique(m),
    ensures
        keys_unique(table_insert(m, k, v)),
        has_key(table_insert(m, k, v), k),
        forall|q: Seq<char>| has_key(m, q) ==> has_key(table_insert(m, k, v), q),
        forall|i: int| 0 <= i < table_insert(m, k, v).len() ==>
            (#[trigger] table_insert(m, k, v)[i]).1 == v || exists|j: int| 0 <= j < m.len() && m[j] == table_insert(m, k, v)[i],
{
    let r = table_insert(m, k, v);
    if has_key(m, k) {
        let i = choose|i: int| 0 <= i < m.len() && m[i].0 == k;
        assert(r[i].0 == k);
        assert forall|q: Seq<char>| has_key(m, q) implies has_key(r, q) by {
            let j = choose|j: int| 0 <= j < m.len() && m[j].0 == q;
            assert(r[j].0 == q);
        }
        assert forall|x: int| 0 <= x < r.len() implies (#[trigger] r[x]).1 == v || exists|j: int| 0 <= j < m.len() && m[j] == r[x] by {
            if x != i {
                assert(m[x] == r[x]);
            }
        }
    } else {
        assert(r[m.len() as int].0 == k);
        assert forall|q: Seq<char>| has_key(m, q) implies has_key(r, q) by {
            let j = choose|j: int| 0 <= j < m.len() && m[j].0 == q;
            assert(r[j].0 == q);
        }
        assert forall|x: int| 0 <= x < r.len() implies (#[trigger] r[x]).1 == v || exists|j: int| 0 <= j < m.len() && m[j] == r[x] by {
            if x < m.len() {
                assert(m[x] == r[x]);
            }
        }
    }
}

/// Binds `specifier` to `id` in the import table.
pub fn bind(mapping: &mut Vec<Entry>, specifier: &String, id: usize)
    requires
        keys_unique(entries_view(old(mapping)@)),
    ensures
        entries_view(final(mapping)@) == table_insert(entries_view(old(mapping)@), specifier@, id as nat),
{
    let ghost m = entries_view(mapping@);
    let mut i: usize = 0;
    while i < mapping.len()
        invariant
            0 <= i <= mapping@.len(),
            mapping@ == old(mapping)@,
            m == entries_view(mapping@),
            keys_unique(m),
            forall|j: int| 0 <= j < i ==> m[j].0 != specifier@,
        decreases mapping@.len() - i,
    {
        if mapping[i].specifier == *specifier {
            proof {
                assert(m[i as int].0 == specifier@);
                assert(has_key(m, specifier@));
                let c = choose|c: int| 0 <= c < m.len() && m[c].0 == specifier@;
                assert(c == i as int);
            }
            let e = Entry { specifier: specifier.clone(), id };
            mapping.set(i, e);
            assert(entries_view(mapping@) =~= table_insert(m, specifier@, id as nat));
            return;
        }
        i = i + 1;
    }
    assert(!has_key(m, specifier@));
    mapping.push(Entry { specifier: specifier.clone(), id });
    assert(entries_view(mapping@) =~= table_insert(m, specifier@, id as nat));
}

} // verus!
