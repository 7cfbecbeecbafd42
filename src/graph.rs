//! The graph builder, as a state machine. The builder owns an arena of
//! assets indexed by identity; the modules still to expand are exactly
//! those from the cursor on, in identity order, so the arena doubles as the
//! breadth-first work queue. The caller performs the file-system work that
//! the builder asks for (canonicalizing a path, reading a file) and hands
//! back the outcome.
use crate::asset::{bind, has_key, keys_unique, table_insert, lemma_table_insert, Asset, AssetView};
use crate::error::BuildError;
use crate::transpile::{accepts, create_asset, transpiled};
use vstd::prelude::*;

verus! {

/// What the caller must resolve next: `specifier`, written in the module
/// at `from`, relative to the directory `dir` that holds it.
#[derive(Debug, Clone)]
pub struct Request {
    pub from: String,
    pub dir: String,
    pub specifier: String,
}

/// The state of a build in progress.
pub struct Builder {
    assets: Vec<Asset>,
    cur: usize,
    dep: usize,
}

/// Model of a [`Builder`]: the arena, the module being expanded and the
/// position of the next specifier to resolve in it.
pub struct BuilderView {
    pub assets: Seq<AssetView>,
    pub cur: nat,
    pub dep: nat,
}

pub open spec fn assets_view(s: Seq<Asset>) -> Seq<AssetView> {
    s.map_values(|a: Asset| a@)
}

impl View for Builder {
    type V = BuilderView;

    closed spec fn view(&self) -> BuilderView {
        BuilderView { assets: assets_view(self.assets@), cur: self.cur as nat, dep: self.dep as nat }
    }
}

/// The directory part of a path, as std's `Path::parent` computes it.
pub uninterp spec fn parent_of(path: Seq<char>) -> Option<Seq<char>>;

/// Relies on std's `Path::parent`: the path without its final component, or
/// `None` for a root, a prefix or the empty path.
#[verifier::external_body]
fn parent_dir(path: &str) -> (r: Option<String>)
    ensures
        r matches Some(d) ==> parent_of(path@) == Some(d@),
        r is None ==> parent_of(path@) is None,
{
    match std::path::Path::new(path).parent() {
        Some(p) => Some(p.to_string_lossy().into_owned()),
        None => None,
    }
}

/// Identity equals position in the arena.
pub open spec fn ids_are_positions(s: Seq<AssetView>) -> bool {
    forall|i: int| 0 <= i < s.len() ==> (#[trigger] s[i]).id == i
}

/// At most one module per canonical path.
pub open spec fn paths_distinct(s: Seq<AssetView>) -> bool {
    forall|i: int, j: int| 0 <= i < s.len() && 0 <= j < s.len() && (#[trigger] s[i]).filename == (#[trigger] s[j]).filename ==> i == j
}

/// Every import table has unique keys and points into the arena.
pub open spec fn tables_closed(s: Seq<AssetView>) -> bool {
    forall|i: int| 0 <= i < s.len() ==> {
        &&& keys_unique((#[trigger] s[i]).mapping)
        &&& forall|k: int| 0 <= k < s[i].mapping.len() ==> (#[trigger] s[i].mapping[k]).1 < s.len()
    }
}

/// Every specifier of module `i` among its first `n` is bound.
pub open spec fn bound_upto(a: AssetView, n: nat) -> bool {
    forall|d: int| 0 <= d < n && d < a.dependencies.len() ==> has_key(a.mapping, #[trigger] a.dependencies[d])
}

/// The cursor rests on a specifier still to resolve, or past the arena.
pub open spec fn settled(s: Seq<AssetView>, cur: nat, dep: nat) -> bool {
    if cur < s.len() {
        dep < s[cur as int].dependencies.len()
    } else {
        cur == s.len() && dep == 0
    }
}

/// Moves the cursor past modules whose specifiers are all resolved.
pub open spec fn settle(s: Seq<AssetView>, cur: nat, dep: nat) -> (nat, nat)
    decreases s.len() - cur,
{
    if cur < s.len() && dep >= s[cur as int].dependencies.len() {
        settle(s, cur + 1, 0)
    } else {
        (cur, dep)
    }
}

impl BuilderView {
    /// A specifier awaits resolution.
    pub open spec fn pending(self) -> bool {
        self.cur < self.assets.len()
    }

    /// The identity of the module registered under `path`, if any.
    pub open spec fn index_of(self, path: Seq<char>) -> Option<nat> {
        if exists|i: int| 0 <= i < self.assets.len() && self.assets[i].filename == path {
            Some((choose|i: int| 0 <= i < self.assets.len() && self.assets[i].filename == path) as nat)
        } else {
            None
        }
    }

    /// The module being expanded.
    pub open spec fn current(self) -> AssetView {
        self.assets[self.cur as int]
    }

    /// The specifier awaiting resolution.
    pub open spec fn specifier(self) -> Seq<char> {
        self.current().dependencies[self.dep as int]
    }

    pub open spec fn wf(self) -> bool {
        &&& self.assets.len() >= 1
        &&& ids_are_positions(self.assets)
        &&& paths_distinct(self.assets)
        &&& tables_closed(self.assets)
        &&& settled(self.assets, self.cur, self.dep)
        &&& forall|i: int| 0 <= i < self.cur ==> bound_upto(#[trigger] self.assets[i], self.assets[i].dependencies.len())
        &&& self.pending() ==> bound_upto(self.current(), self.dep)
    }

    /// The state after the pending specifier is bound to `id`.
    pub open spec fn link(self, id: nat) -> BuilderView {
        let a = self.current();
        let a2 = AssetView { mapping: table_insert(a.mapping, self.specifier(), id), ..a };
        let s = self.assets.update(self.cur as int, a2);
        let p = settle(s, self.cur, self.dep + 1);
        BuilderView { assets: s, cur: p.0, dep: p.1 }
    }

    /// The state after module `a` joins the arena, at the end of the queue.
    pub open spec fn add(self, a: AssetView) -> BuilderView {
        let s = self.assets.push(a);
        let p = settle(s, self.cur, self.dep);
        BuilderView { assets: s, cur: p.0, dep: p.1 }
    }

    /// The build is complete: every module is expanded.
    pub open spec fn done(self) -> bool {
        self.wf() && !self.pending()
    }
}

proof fn lemma_settle(s: Seq<AssetView>, cur: nat, dep: nat)
    requires
        cur <= s.len(),
        cur == s.len() ==> dep == 0,
        cur < s.len() ==> bound_upto(s[cur as int], dep),
    ensures
        settled(s, settle(s, cur, dep).0, settle(s, cur, dep).1),
        cur <= settle(s, cur, dep).0,
        settle(s, cur, dep).0 == cur ==> settle(s, cur, dep).1 == dep,
        settle(s, cur, dep).0 != cur ==> settle(s, cur, dep).1 == 0,
        forall|i: int| cur <= i < settle(s, cur, dep).0 ==> bound_upto(#[trigger] s[i], s[i].dependencies.len()),
    decreases s.len() - cur,
{
    if cur < s.len() && dep >= s[cur as int].dependencies.len() {
        assert(bound_upto(s[cur as int], 0));
        lemma_settle(s, cur + 1, 0);
    }
}

/// Binding the pending specifier to a registered module keeps the builder
/// well formed, adds no module and moves the cursor strictly forward.
pub proof fn lemma_link(v: BuilderView, id: nat)
    requires
        v.wf(),
        v.pending(),
        id < v.assets.len(),
    ensures
        v.link(id).wf(),
        v.link(id).assets.len() == v.assets.len(),
        forall|i: int| 0 <= i < v.assets.len() ==> (#[trigger] v.link(id).assets[i]).filename == v.assets[i].filename,
        v.cur < v.link(id).cur || (v.cur == v.link(id).cur && v.dep < v.link(id).dep),
{
    let a = v.current();
    let k = v.specifier();
    let m2 = table_insert(a.mapping, k, id);
    lemma_table_insert(a.mapping, k, id);
    let a2 = AssetView { mapping: m2, ..a };
    let s = v.assets.update(v.cur as int, a2);
    assert(bound_upto(a2, v.dep + 1)) by {
        assert forall|d: int| 0 <= d < v.dep + 1 && d < a2.dependencies.len() implies has_key(a2.mapping, #[trigger] a2.dependencies[d]) by {
            if d < v.dep {
                assert(has_key(a.mapping, a.dependencies[d]));
            }
        }
    }
    lemma_settle(s, v.cur, v.dep + 1);
    let w = v.link(id);
    assert(ids_are_positions(s));
    assert(paths_distinct(s));
    assert(tables_closed(s)) by {
        assert forall|i: int| 0 <= i < s.len() implies {
            &&& keys_unique((#[trigger] s[i]).mapping)
            &&& forall|x: int| 0 <= x < s[i].mapping.len() ==> (#[trigger] s[i].mapping[x]).1 < s.len()
        } by {
            if i == v.cur {
                assert forall|x: int| 0 <= x < s[i].mapping.len() implies (#[trigger] s[i].mapping[x]).1 < s.len() by {
                    if m2[x].1 != id {
                        let j = choose|j: int| 0 <= j < a.mapping.len() && a.mapping[j] == m2[x];
                        assert(a.mapping[j].1 < s.len());
                    }
                }
            }
        }
    }
    assert forall|i: int| 0 <= i < w.cur implies bound_upto(#[trigger] w.assets[i], w.assets[i].dependencies.len()) by {
        if i < v.cur {
            assert(s[i] == v.assets[i]);
        }
    }
    if w.pending() {
        if w.cur == v.cur {
            assert(w.current() == a2);
            assert(w.dep == v.dep + 1);
            assert(bound_upto(w.current(), w.dep));
        } else {
            assert(bound_upto(w.current(), 0));
        }
    }
    assert(w.assets.len() >= 1);
    assert(ids_are_positions(w.assets));
    assert(paths_distinct(w.assets));
    assert(tables_closed(w.assets));
    assert(settled(w.assets, w.cur, w.dep));
}

proof fn lemma_add(v: BuilderView, a: AssetView)
    requires
        v.wf(),
        a.id == v.assets.len(),
        a.mapping.len() == 0,
        v.index_of(a.filename) is None,
    ensures
        v.add(a).wf(),
        v.add(a).assets.len() == v.assets.len() + 1,
        v.add(a).assets[v.assets.len() as int] == a,
        forall|i: int| 0 <= i < v.assets.len() ==> (#[trigger] v.add(a).assets[i]) == v.assets[i],
        v.pending() ==> v.add(a).cur == v.cur && v.add(a).dep == v.dep,
        v.add(a).index_of(a.filename) == Some(v.assets.len()),
{
    let s = v.assets.push(a);
    assert(s[v.assets.len() as int] == a);
    if v.cur < v.assets.len() {
        assert(s[v.cur as int] == v.assets[v.cur as int]);
    } else {
        assert(bound_upto(s[v.cur as int], 0));
    }
    lemma_settle(s, v.cur, v.dep);
    let w = v.add(a);
    assert(paths_distinct(s)) by {
        assert forall|i: int, j: int| 0 <= i < s.len() && 0 <= j < s.len() && (#[trigger] s[i]).filename == (#[trigger] s[j]).filename implies i == j by {
            if i < v.assets.len() && j == v.assets.len() {
                assert(v.assets[i].filename == a.filename);
            }
            if j < v.assets.len() && i == v.assets.len() {
                assert(v.assets[j].filename == a.filename);
            }
        }
    }
    assert(tables_closed(s)) by {
        assert forall|i: int| 0 <= i < s.len() implies {
            &&& keys_unique((#[trigger] s[i]).mapping)
            &&& forall|x: int| 0 <= x < s[i].mapping.len() ==> (#[trigger] s[i].mapping[x]).1 < s.len()
        } by {
            if i < v.assets.len() {
                assert(s[i] == v.assets[i]);
            }
        }
    }
    assert forall|i: int| 0 <= i < w.cur implies bound_upto(#[trigger] w.assets[i], w.assets[i].dependencies.len()) by {
        if i < v.cur {
            assert(s[i] == v.assets[i]);
        }
    }
    assert(w.assets[v.assets.len() as int].filename == a.filename);
}

impl Builder {
    /// Starts a build at the module whose canonical path is `filename` and
    /// whose source text is `source`; that module gets identity 0.
    ///
    /// Fails with [`BuildError::Transpile`] exactly when the transpiler
    /// does not take `source`.
    pub fn start(filename: &str, source: &str) -> (r: Result<Builder, BuildError>)
        ensures
            r is Ok == accepts(source),
            r matches Ok(b) ==> ({
                &&& b@.wf()
                &&& b@.assets == seq![transpiled(filename@, source@, 0)]
                &&& (b@.cur, b@.dep) == settle(b@.assets, 0, 0)
            }),
            r matches Err(e) ==> e matches BuildError::Transpile { path } && path@ == filename@,
    {
        let entry = match create_asset(filename, source, 0) {
            Ok(a) => a,
            Err(e) => return Err(e),
        };
        let mut assets: Vec<Asset> = Vec::new();
        assets.push(entry);
        let mut b = Builder { assets, cur: 0, dep: 0 };
        proof {
            let s = b@.assets;
            assert(s[0] == entry@);
            assert(s =~= seq![entry@]);
            assert(bound_upto(s[0], 0));
            lemma_settle(s, 0, 0);
        }
        b.settle_cursor();
        proof {
            assert(paths_distinct(b@.assets));
            assert(tables_closed(b@.assets));
            assert(b@.pending() ==> b@.cur == 0 && b@.dep == 0);
        }
        Ok(b)
    }

    /// Moves the cursor past modules with nothing left to resolve.
    fn settle_cursor(&mut self)
        requires
            old(self).cur <= old(self).assets@.len(),
            old(self).cur == old(self).assets@.len() ==> old(self).dep == 0,
        ensures
            final(self).assets == old(self).assets,
            (final(self)@.cur, final(self)@.dep) == settle(old(self)@.assets, old(self)@.cur, old(self)@.dep),
    {
        let ghost s = self@.assets;
        while self.cur < self.assets.len() && self.dep >= self.assets[self.cur].dependencies.len()
            invariant
                self.assets == old(self).assets,
                s == self@.assets,
                self.cur <= self.assets@.len(),
                self.cur == self.assets@.len() ==> self.dep == 0,
                settle(s, self.cur as nat, self.dep as nat) == settle(s, old(self).cur as nat, old(self).dep as nat),
            decreases self.assets@.len() - self.cur,
        {
            proof {
                assert(s[self.cur as int].dependencies.len() == self.assets@[self.cur as int].dependencies@.len());
            }
            self.cur = self.cur + 1;
            self.dep = 0;
        }
        proof {
            if self.cur < self.assets@.len() {
                assert(s[self.cur as int].dependencies.len() == self.assets@[self.cur as int].dependencies@.len());
            }
        }
    }

    /// The number of modules discovered so far.
    pub fn len(&self) -> (r: usize)
        ensures
            r == self@.assets.len(),
    {
        self.assets.len()
    }

    /// Whether every module has been expanded.
    pub fn is_done(&self) -> (r: bool)
        ensures
            r == !self@.pending(),
    {
        self.cur >= self.assets.len()
    }

    /// The identity of the module registered under the canonical path `path`.
    pub fn lookup(&self, path: &str) -> (r: Option<usize>)
        requires
            self@.wf(),
        ensures
            r matches Some(i) ==> self@.index_of(path@) == Some(i as nat),
            r is None ==> self@.index_of(path@) is None,
    {
        let mut i: usize = 0;
        while i < self.assets.len()
            invariant
                i <= self.assets@.len(),
                self@.wf(),
                forall|j: int| 0 <= j < i ==> self@.assets[j].filename != path@,
            decreases self.assets@.len() - i,
        {
            assert(self@.assets[i as int] == self.assets@[i as int]@);
            let name: &str = self.assets[i].filename.as_str();
            if str_eq(name, path) {
                proof {
                    let v = self@;
                    assert(v.assets[i as int] == self.assets@[i as int]@);
                    assert(v.assets[i as int].filename == path@);
                    let c = choose|c: int| 0 <= c < v.assets.len() && v.assets[c].filename == path@;
                    assert(v.assets[c].filename == v.assets[i as int].filename);
                    assert(c == i);
                    assert(v.index_of(path@) == Some(i as nat));
                }
                return Some(i);
            }
            i = i + 1;
        }
        None
    }
}

impl Builder {
    /// What must be resolved next, or `None` once every module is expanded.
    ///
    /// Fails with [`BuildError::Resolution`] when the module that wrote the
    /// pending specifier has no parent directory.
    pub fn next_request(&self) -> (r: Result<Option<Request>, BuildError>)
        requires
            self@.wf(),
        ensures
            !self@.pending() ==> r matches Ok(None),
            self@.pending() ==> match parent_of(self@.current().filename) {
                Some(d) => r matches Ok(Some(q)) && q.dir@ == d && q.from@ == self@.current().filename
                    && q.specifier@ == self@.specifier(),
                None => r matches Err(BuildError::Resolution { from, specifier })
                    && from@ == self@.current().filename && specifier@ == self@.specifier(),
            },
    {
        if self.cur >= self.assets.len() {
            return Ok(None);
        }
        let a = &self.assets[self.cur];
        proof {
            assert(self@.current() == a@);
            assert(a@.dependencies[self.dep as int] == a.dependencies@[self.dep as int]@);
        }
        let from = a.filename.clone();
        let specifier = a.dependencies[self.dep].clone();
        match parent_dir(a.filename.as_str()) {
            Some(dir) => Ok(Some(Request { from, dir, specifier })),
            None => Err(BuildError::Resolution { from, specifier }),
        }
    }

    /// Binds the pending specifier to `id` and moves the cursor on.
    fn link(&mut self, id: usize)
        requires
            old(self)@.wf(),
            old(self)@.pending(),
            id < old(self)@.assets.len(),
        ensures
            final(self)@ == old(self)@.link(id as nat),
    {
        let ghost v = self@;
        let mut a = self.assets.remove(self.cur);
        proof {
            assert(a@ == v.current());
            assert(keys_unique(a@.mapping));
            assert(a@.dependencies[self.dep as int] == a.dependencies@[self.dep as int]@);
        }
        let n = a.dependencies.len();
        bind(&mut a.mapping, &a.dependencies[self.dep], id);
        self.assets.insert(self.cur, a);
        assert(self.dep < n);
        self.dep = self.dep + 1;
        proof {
            let c = v.current();
            let a2 = AssetView { mapping: table_insert(c.mapping, v.specifier(), id as nat), ..c };
            assert(a@ == a2);
            assert(self@.assets =~= v.assets.update(v.cur as int, a2));
        }
        self.settle_cursor();
    }

    /// Reports that the pending specifier resolved to the canonical path
    /// `path`. When a module is registered under `path`, the specifier is
    /// bound to its identity and `true` comes back; otherwise nothing changes,
    /// and the caller reads the file and hands it to [`Builder::loaded`].
    pub fn resolved(&mut self, path: &str) -> (r: bool)
        requires
            old(self)@.wf(),
        ensures
            final(self)@.wf(),
            r == (old(self)@.pending() && old(self)@.index_of(path@) is Some),
            r ==> final(self)@ == old(self)@.link(old(self)@.index_of(path@).unwrap()),
            !r ==> final(self)@ == old(self)@,
    {
        if self.cur >= self.assets.len() {
            return false;
        }
        match self.lookup(path) {
            Some(i) => {
                proof {
                    lemma_link(self@, i as nat);
                }
                self.link(i);
                true
            },
            None => false,
        }
    }

    /// Registers the module at the canonical path `path`, whose source text
    /// is `source`, and binds the pending specifier to it. A module already
    /// registered under `path` is reused and `source` is ignored; a new one
    /// gets the next identity and joins the end of the work queue. Returns
    /// the identity.
    ///
    /// Fails with [`BuildError::Transpile`], changing nothing, exactly when
    /// `path` is new and the transpiler does not take `source`.
    pub fn loaded(&mut self, path: &str, source: &str) -> (r: Result<usize, BuildError>)
        requires
            old(self)@.wf(),
            old(self)@.pending(),
            old(self)@.assets.len() < usize::MAX,
        ensures
            final(self)@.wf(),
            old(self)@.index_of(path@) matches Some(i) ==> r == Ok::<usize, BuildError>(i as usize)
                && final(self)@ == old(self)@.link(i),
            old(self)@.index_of(path@) is None ==> (r is Ok == accepts(source)),
            old(self)@.index_of(path@) is None ==> (r matches Err(e) ==> (final(self)@ == old(self)@
                && (e matches BuildError::Transpile { path: p } && p@ == path@))),
            old(self)@.index_of(path@) is None ==> (r matches Ok(id) ==> (id == old(self)@.assets.len()
                && final(self)@ == old(self)@.add(transpiled(path@, source@, id as nat)).link(id as nat))),
    {
        let ghost v = self@;
        match self.lookup(path) {
            Some(i) => {
                proof {
                    lemma_link(self@, i as nat);
                }
                self.link(i);
                Ok(i)
            },
            None => {
                let id = self.assets.len();
                let a = match create_asset(path, source, id) {
                    Ok(a) => a,
                    Err(e) => return Err(e),
                };
                let ghost av = a@;
                self.assets.push(a);
                proof {
                    lemma_add(v, av);
                    assert(self.assets@ == old(self).assets@.push(a));
                    assert(assets_view(self.assets@) =~= v.assets.push(av));
                    lemma_settle(v.assets.push(av), v.cur, v.dep);
                }
                self.settle_cursor();
                proof {
                    assert(self@ == v.add(av));
                    lemma_link(self@, id as nat);
                }
                self.link(id);
                Ok(id)
            },
        }
    }

    /// The finished arena, in identity order.
    pub fn finish(self) -> (r: Vec<Asset>)
        requires
            self@.wf(),
        ensures
            assets_view(r@) == self@.assets,
            ids_are_positions(assets_view(r@)),
    {
        self.assets
    }
}

/// Character-wise equality of two strings.
fn str_eq(a: &str, b: &str) -> (r: bool)
    ensures
        r == (a@ == b@),
{
    let n = a.unicode_len();
    if n != b.unicode_len() {
        return false;
    }
    let mut i: usize = 0;
    while i < n
        invariant
            n == a@.len(),
            n == b@.len(),
            i <= n,
            forall|j: int| 0 <= j < i ==> a@[j] == b@[j],
        decreases n - i,
    {
        if a.get_char(i) != b.get_char(i) {
            return false;
        }
        i = i + 1;
    }
    assert(a@ =~= b@);
    true
}

} // verus!
