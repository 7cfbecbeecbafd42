//! The bundle emitter: one script that holds every module's factory and
//! import table, keyed by identity, behind a small runtime loader.
//!
//! The loader does not cache: each `require(id)` runs the module's factory
//! again and hands back a fresh exports object.
use crate::asset::{entries_view, strings_view, Asset, AssetView, Entry};
use crate::graph::{assets_view, ids_are_positions};
use vstd::prelude::*;

verus! {

/// The runtime loader, up to the opening brace of the module table.
pub const PRELUDE: &'static str = "(function (modules) {\n  function require(id) {\n    const [fn, mapping] = modules[id];\n    function localRequire(name) {\n      return require(mapping[name]);\n    }\n    const module = { exports: {} };\n    fn(localRequire, module, module.exports);\n    return module.exports;\n  }\n  require(0);\n})({\n";

/// Closes the module table and the call of the loader.
pub const EPILOGUE: &'static str = "});\n";

/// Between a module's identity and its code.
pub const FACTORY_OPEN: &'static str = ": [\nfunction (require, module, exports) {\n";

/// Between a module's code and its import table.
pub const FACTORY_CLOSE: &'static str = "\n},\n";

/// After a module's import table.
pub const ENTRY_CLOSE: &'static str = "\n],\n";

pub open spec fn digit_text(d: nat) -> Seq<char> {
    if d == 0 { "0"@ } else if d == 1 { "1"@ } else if d == 2 { "2"@ } else if d == 3 { "3"@ }
    else if d == 4 { "4"@ } else if d == 5 { "5"@ } else if d == 6 { "6"@ } else if d == 7 { "7"@ }
    else if d == 8 { "8"@ } else { "9"@ }
}

/// Decimal notation of `n`, without leading zeros.
pub open spec fn decimal(n: nat) -> Seq<char>
    decreases n,
{
    if n < 10 { digit_text(n) } else { decimal(n / 10) + digit_text(n % 10) }
}

pub open spec fn needs_escape(c: char) -> bool {
    c == '"' || c == '\\' || c == '\n' || c == '\r' || c == '\t'
}

/// How one character is written inside a double-quoted literal.
pub open spec fn escaped_char(c: char) -> Seq<char> {
    if c == '"' { "\\\""@ } else if c == '\\' { "\\\\"@ } else if c == '\n' { "\\n"@ }
    else if c == '\r' { "\\r"@ } else if c == '\t' { "\\t"@ } else { seq![c] }
}

pub open spec fn escaped(s: Seq<char>) -> Seq<char>
    decreases s.len(),
{
    if s.len() == 0 { Seq::empty() } else { escaped(s.drop_last()) + escaped_char(s.last()) }
}

/// `s` as a double-quoted string literal.
pub open spec fn quoted(s: Seq<char>) -> Seq<char> {
    "\""@ + escaped(s) + "\""@
}

pub open spec fn entry_text(e: (Seq<char>, nat)) -> Seq<char> {
    quoted(e.0) + ": "@ + decimal(e.1)
}

pub open spec fn entries_text(m: Seq<(Seq<char>, nat)>) -> Seq<char>
    decreases m.len(),
{
    if m.len() == 0 {
        Seq::empty()
    } else if m.len() == 1 {
        entry_text(m[0])
    } else {
        entries_text(m.drop_last()) + ", "@ + entry_text(m.last())
    }
}

/// An import table as an object literal, entries in table order.
pub open spec fn table_text(m: Seq<(Seq<char>, nat)>) -> Seq<char> {
    "{"@ + entries_text(m) + "}"@
}

/// One entry of the module table: identity, factory, import table.
pub open spec fn module_text(a: AssetView) -> Seq<char> {
    decimal(a.id) + FACTORY_OPEN@ + a.code + FACTORY_CLOSE@ + table_text(a.mapping) + ENTRY_CLOSE@
}

pub open spec fn modules_text(s: Seq<AssetView>) -> Seq<char>
    decreases s.len(),
{
    if s.len() == 0 { Seq::empty() } else { modules_text(s.drop_last()) + module_text(s.last()) }
}

/// The whole bundle for the modules `s`, in the order given.
pub open spec fn bundle_text(s: Seq<AssetView>) -> Seq<char> {
    PRELUDE@ + modules_text(s) + EPILOGUE@
}

fn digit_str(d: usize) -> (r: &'static str)
    requires
        d < 10,
    ensures
        r@ == digit_text(d as nat),
{
    if d == 0 { "0" } else if d == 1 { "1" } else if d == 2 { "2" } else if d == 3 { "3" }
    else if d == 4 { "4" } else if d == 5 { "5" } else if d == 6 { "6" } else if d == 7 { "7" }
    else if d == 8 { "8" } else { "9" }
}

pub(crate) fn push_decimal(out: &mut String, n: usize)
    ensures
        final(out)@ == old(out)@ + decimal(n as nat),
    decreases n,
{
    if n >= 10 {
        push_decimal(out, n / 10);
    }
    out.append(digit_str(n % 10));
    assert(final(out)@ =~= old(out)@ + decimal(n as nat));
}

fn escape_str(c: char) -> (r: &'static str)
    requires
        needs_escape(c),
    ensures
        r@ == escaped_char(c),
{
    if c == '"' { "\\\"" } else if c == '\\' { "\\\\" } else if c == '\n' { "\\n" }
    else if c == '\r' { "\\r" } else { "\\t" }
}

proof fn lemma_escaped_plain_run(s: Seq<char>, start: int, i: int)
    requires
        0 <= start <= i <= s.len(),
        forall|j: int| start <= j < i ==> !needs_escape(#[trigger] s[j]),
    ensures
        escaped(s.take(i)) == escaped(s.take(start)) + s.subrange(start, i),
    decreases i - start,
{
    if i > start {
        lemma_escaped_plain_run(s, start, i - 1);
        assert(s.take(i).drop_last() =~= s.take(i - 1));
        assert(s.subrange(start, i) =~= s.subrange(start, i - 1).push(s[i - 1]));
        assert(escaped(s.take(i)) =~= escaped(s.take(start)) + s.subrange(start, i));
    } else {
        assert(s.subrange(start, i) =~= Seq::<char>::empty());
        assert(escaped(s.take(i)) =~= escaped(s.take(start)) + s.subrange(start, i));
    }
}

pub(crate) fn push_quoted(out: &mut String, s: &str)
    ensures
        final(out)@ == old(out)@ + quoted(s@),
{
    let ghost base = out@;
    out.append("\"");
    let n = s.unicode_len();
    let mut start: usize = 0;
    let mut i: usize = 0;
    while i < n
        invariant
            n == s@.len(),
            start <= i <= n,
            out@ == base + "\""@ + escaped(s@.take(start as int)),
            forall|j: int| start <= j < i ==> !needs_escape(#[trigger] s@[j]),
        decreases n - i,
    {
        let c = s.get_char(i);
        if c == '"' || c == '\\' || c == '\n' || c == '\r' || c == '\t' {
            proof {
                lemma_escaped_plain_run(s@, start as int, i as int);
                assert(s@.take(i + 1).drop_last() =~= s@.take(i as int));
            }
            out.append(s.substring_char(start, i));
            out.append(escape_str(c));
            start = i + 1;
            assert(out@ =~= base + "\""@ + escaped(s@.take(start as int)));
        }
        i = i + 1;
    }
    proof {
        lemma_escaped_plain_run(s@, start as int, n as int);
        assert(s@.take(n as int) =~= s@);
    }
    out.append(s.substring_char(start, n));
    out.append("\"");
    assert(final(out)@ =~= old(out)@ + quoted(s@));
}

pub(crate) fn push_table(out: &mut String, m: &Vec<Entry>)
    ensures
        final(out)@ == old(out)@ + table_text(entries_view(m@)),
{
    let ghost base = out@;
    let ghost ev = entries_view(m@);
    out.append("{");
    let mut i: usize = 0;
    while i < m.len()
        invariant
            i <= m@.len(),
            ev == entries_view(m@),
            out@ == base + "{"@ + entries_text(ev.take(i as int)),
        decreases m@.len() - i,
    {
        proof {
            assert(ev.take(i + 1).drop_last() =~= ev.take(i as int));
            assert(ev[i as int] == (m@[i as int].specifier@, m@[i as int].id as nat));
        }
        if i > 0 {
            out.append(", ");
        }
        push_quoted(out, m[i].specifier.as_str());
        out.append(": ");
        push_decimal(out, m[i].id);
        proof {
            if i == 0 {
                assert(ev.take(1)[0] == ev[0]);
            }
        }
        assert(out@ =~= base + "{"@ + entries_text(ev.take(i + 1)));
        i = i + 1;
    }
    assert(ev.take(i as int) =~= ev);
    out.append("}");
    assert(final(out)@ =~= old(out)@ + table_text(entries_view(m@)));
}

/// Renders the bundle: the loader, then one module-table entry per asset in
/// increasing identity order (the graph is keyed by identity: the asset at
/// position `i` has identity `i`), each holding the
/// asset's code wrapped as `function (require, module, exports) { ... }`
/// and its import table as an object literal.
pub fn bundle(graph: Vec<Asset>) -> (r: String)
    requires
        ids_are_positions(assets_view(graph@)),
    ensures
        r@ == bundle_text(assets_view(graph@)),
{
    let ghost s = assets_view(graph@);
    let mut out = String::new();
    out.append(PRELUDE);
    let mut i: usize = 0;
    while i < graph.len()
        invariant
            i <= graph@.len(),
            s == assets_view(graph@),
            out@ == PRELUDE@ + modules_text(s.take(i as int)),
        decreases graph@.len() - i,
    {
        let a = &graph[i];
        proof {
            assert(s.take(i + 1).drop_last() =~= s.take(i as int));
            assert(s[i as int] == a@);
        }
        push_decimal(&mut out, a.id);
        out.append(FACTORY_OPEN);
        out.append(a.code.as_str());
        out.append(FACTORY_CLOSE);
        push_table(&mut out, &a.mapping);
        out.append(ENTRY_CLOSE);
        assert(out@ =~= PRELUDE@ + modules_text(s.take(i + 1)));
        i = i + 1;
    }
    assert(s.take(i as int) =~= s);
    out.append(EPILOGUE);
    out
}

} // verus!

verus! {

pub open spec fn list_items_text(s: Seq<Seq<char>>) -> Seq<char>
    decreases s.len(),
{
    if s.len() == 0 {
        Seq::empty()
    } else if s.len() == 1 {
        quoted(s[0])
    } else {
        list_items_text(s.drop_last()) + ", "@ + quoted(s.last())
    }
}

/// A list of strings as a bracketed, comma-separated list of literals.
pub open spec fn list_text(s: Seq<Seq<char>>) -> Seq<char> {
    "["@ + list_items_text(s) + "]"@
}

/// A readable account of a module: one line per field, between braces.
pub open spec fn description(a: AssetView) -> Seq<char> {
    "Asset {\nid: "@ + decimal(a.id) + "\nfilename: "@ + a.filename + "\ndependencies: "@
        + list_text(a.dependencies) + "\ncode: "@ + a.code + "\nmapping: "@ + table_text(a.mapping)
        + "\n}\n"@
}

fn push_list(out: &mut String, v: &Vec<String>)
    ensures
        final(out)@ == old(out)@ + list_text(strings_view(v@)),
{
    let ghost base = out@;
    let ghost sv = strings_view(v@);
    out.append("[");
    let mut i: usize = 0;
    while i < v.len()
        invariant
            i <= v@.len(),
            sv == strings_view(v@),
            out@ == base + "["@ + list_items_text(sv.take(i as int)),
        decreases v@.len() - i,
    {
        proof {
            assert(sv.take(i + 1).drop_last() =~= sv.take(i as int));
            assert(sv[i as int] == v@[i as int]@);
            if i == 0 {
                assert(sv.take(1)[0] == sv[0]);
            }
        }
        if i > 0 {
            out.append(", ");
        }
        push_quoted(out, v[i].as_str());
        assert(out@ =~= base + "["@ + list_items_text(sv.take(i + 1)));
        i = i + 1;
    }
    assert(sv.take(i as int) =~= sv);
    out.append("]");
    assert(final(out)@ =~= old(out)@ + list_text(strings_view(v@)));
}

impl Asset {
    /// A readable account of the module, field by field; lists and tables
    /// are written in the same literal notation as the bundle's tables.
    pub fn describe(&self) -> (r: String)
        ensures
            r@ == description(self@),
    {
        let mut out = String::new();
        out.append("Asset {\nid: ");
        push_decimal(&mut out, self.id);
        out.append("\nfilename: ");
        out.append(self.filename.as_str());
        out.append("\ndependencies: ");
        push_list(&mut out, &self.dependencies);
        out.append("\ncode: ");
        out.append(self.code.as_str());
        out.append("\nmapping: ");
        push_table(&mut out, &self.mapping);
        out.append("\n}\n");
        assert(out@ =~= description(self@));
        out
    }
}

} // verus!
