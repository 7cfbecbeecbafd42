//! The transpiler: source text in, import specifiers and a factory body out.
//! Parsing, the CommonJS rewrite and code generation are swc's; what this
//! module decides itself is which top-level items count as imports and how
//! a module becomes an [`Asset`].
use crate::asset::{strings_view, Asset, AssetView};
use crate::error::BuildError;
use swc_common::sync::Lrc;
use swc_common::{BytePos, Globals, Mark, SourceMap, GLOBALS};
use swc_ecma_ast::{Module, ModuleDecl, ModuleItem, Program};
use swc_ecma_codegen::text_writer::JsWriter;
use swc_ecma_codegen::Emitter;
use swc_ecma_parser::{EsSyntax, Parser, StringInput, Syntax};
use swc_ecma_transforms_module::common_js::common_js;
use swc_ecma_transforms_module::path::Resolver;
use swc_ecma_transforms_module::util::Config;
use vstd::prelude::*;
use vstd::string::StringSliceAdditionalSpecFns;

verus! {

#[verifier::external_type_specification]
#[verifier::external_body]
pub struct ExModule(swc_ecma_ast::Module);

#[verifier::external_type_specification]
#[verifier::external_body]
pub struct ExProgram(swc_ecma_ast::Program);

/// What swc's parser makes of `text` as an ECMAScript module, if it accepts it.
pub uninterp spec fn parsed(text: Seq<char>) -> Option<Module>;

/// The top-level items of a module: for each, the source string of an
/// import declaration, or `None` for any other item.
pub uninterp spec fn items_of(m: Module) -> Seq<Option<Seq<char>>>;

/// The module as swc's CommonJS pass rewrites it.
pub uninterp spec fn common_js_of(m: Module) -> Program;

/// The JavaScript text that swc's code generator writes for a program.
pub uninterp spec fn emitted(p: Program) -> Seq<char>;

/// Longest source text, in bytes, handed to the parser: swc numbers source
/// positions with `u32` and reserves the top of that range.
pub const MAX_SOURCE_BYTES: usize = 4_000_000_000;

/// Relies on swc_ecma_parser's `Parser::parse_module` (ES syntax, default
/// options, no comment store), over the text placed at positions `1..end`:
/// its result depends on the text alone.
#[verifier::external_body]
fn parse_module(text: &str, end: u32) -> (r: Option<Module>)
    requires
        text.spec_bytes().len() < MAX_SOURCE_BYTES,
        end == text.spec_bytes().len() + 1,
    ensures
        r == parsed(text@),
{
    let input = StringInput::new(text, BytePos(1), BytePos(end));
    let mut parser = Parser::new(Syntax::Es(EsSyntax::default()), input, None);
    parser.parse_module().ok()
}

/// Relies on swc_ecma_ast's `Module::body`: the number of top-level items.
#[verifier::external_body]
fn item_count(m: &Module) -> (r: usize)
    ensures
        r == items_of(*m).len(),
{
    m.body.len()
}

/// Relies on swc_ecma_ast's `ModuleItem` and `ImportDecl`: the source string
/// of the top-level item at `i` when that item is an import declaration.
#[verifier::external_body]
fn import_source_at(m: &Module, i: usize) -> (r: Option<String>)
    requires
        i < items_of(*m).len(),
    ensures
        r matches Some(s) ==> items_of(*m)[i as int] == Some(s@),
        r is None ==> items_of(*m)[i as int] is None,
{
    match m.body.get(i) {
        Some(ModuleItem::ModuleDecl(ModuleDecl::Import(d))) => Some(d.src.value.to_atom_lossy().to_string()),
        _ => None,
    }
}

/// Relies on swc_ecma_transforms_module's `common_js` pass (default
/// resolver, no interop helpers), run under fresh swc globals: the module
/// rewritten so that its imports call `require` and its exports fill
/// `exports`.
#[verifier::external_body]
fn to_common_js(m: Module) -> (r: Program)
    ensures
        r == common_js_of(m),
{
    GLOBALS.set(&Globals::new(), || {
        let config = Config { no_interop: true, ..Default::default() };
        let pass = common_js(Resolver::Default, Mark::fresh(Mark::root()), config, Default::default());
        Program::Module(m).apply(pass)
    })
}

/// Relies on swc_ecma_codegen's `Emitter::emit_program` with the default
/// configuration and a `JsWriter` over a byte buffer: it fails only when
/// writing fails, which a buffer never does, and the writer is handed
/// `&str` pieces only, so the bytes are UTF-8 and the lossy decoding keeps
/// them as they are.
#[verifier::external_body]
fn emit_program(p: &Program) -> (r: Option<String>)
    ensures
        r is Some,
        r matches Some(s) ==> s@ == emitted(*p),
{
    let mut out: Vec<u8> = Vec::new();
    let done = {
        let cm = Lrc::new(SourceMap::default());
        let wr = JsWriter::new(cm.clone(), "\n", &mut out, None);
        let mut emitter = Emitter { cfg: Default::default(), cm, comments: None, wr };
        emitter.emit_program(p)
    };
    match done {
        Ok(_) => Some(String::from_utf8_lossy(&out).into_owned()),
        Err(_) => None,
    }
}

/// The import sources among a module's top-level items, in order,
/// duplicates kept.
pub open spec fn import_list(items: Seq<Option<Seq<char>>>) -> Seq<Seq<char>>
    decreases items.len(),
{
    if items.len() == 0 {
        Seq::empty()
    } else {
        let rest = import_list(items.drop_last());
        match items.last() {
            Some(s) => rest.push(s),
            None => rest,
        }
    }
}

/// Whether the transpiler takes `source`: swc parses it as a module and it
/// is short enough for swc to number its positions.
pub open spec fn accepts(source: &str) -> bool {
    parsed(source@) is Some && source.spec_bytes().len() < MAX_SOURCE_BYTES
}

/// The module that the transpiler makes of the text `source` at the
/// canonical path `filename`, with identity `id` and an empty import table.
pub open spec fn transpiled(filename: Seq<char>, source: Seq<char>, id: nat) -> AssetView {
    let m = parsed(source).unwrap();
    AssetView {
        id,
        filename,
        dependencies: import_list(items_of(m)),
        code: emitted(common_js_of(m)),
        mapping: Seq::empty(),
    }
}

/// The import specifiers of a module, in source order, duplicates kept.
fn get_dependencies(m: &Module) -> (r: Vec<String>)
    ensures
        strings_view(r@) == import_list(items_of(*m)),
{
    let ghost items = items_of(*m);
    let n = item_count(m);
    let mut deps: Vec<String> = Vec::new();
    let mut i: usize = 0;
    while i < n
        invariant
            i <= n,
            n == items.len(),
            items == items_of(*m),
            strings_view(deps@) == import_list(items.take(i as int)),
        decreases n - i,
    {
        proof {
            assert(items.take(i + 1).drop_last() =~= items.take(i as int));
            assert(items.take(i + 1).last() == items[i as int]);
        }
        match import_source_at(m, i) {
            Some(s) => {
                deps.push(s);
                assert(strings_view(deps@) =~= import_list(items.take(i + 1)));
            },
            None => {},
        }
        i = i + 1;
    }
    assert(items.take(n as int) =~= items);
    deps
}

/// The module rewritten to CommonJS and rendered as the body of a factory
/// function.
fn emit_common_js(m: Module) -> (r: String)
    ensures
        r@ == emitted(common_js_of(m)),
{
    let program = to_common_js(m);
    match emit_program(&program) {
        Some(code) => code,
        None => String::new(),
    }
}

/// Turns the source text of the module at the canonical path `filename`
/// into an [`Asset`] with identity `id` and an empty import table: its
/// dependencies are the sources of the text's top-level imports, its code
/// the CommonJS rendering of the text.
///
/// Fails with [`BuildError::Transpile`] naming `filename` exactly when swc
/// does not accept the text as a module, or the text is too long for swc
/// to number its positions.
pub fn create_asset(filename: &str, source: &str, id: usize) -> (r: Result<Asset, BuildError>)
    ensures
        r is Ok == accepts(source),
        r matches Ok(a) ==> a@ == transpiled(filename@, source@, id as nat),
        r matches Err(e) ==> e matches BuildError::Transpile { path } && path@ == filename@,
{
    let n = source.as_bytes().len();
    if n >= MAX_SOURCE_BYTES {
        return Err(BuildError::Transpile { path: filename.to_owned() });
    }
    let ast = match parse_module(source, (n + 1) as u32) {
        Some(ast) => ast,
        None => return Err(BuildError::Transpile { path: filename.to_owned() }),
    };
    let dependencies = get_dependencies(&ast);
    let code = emit_common_js(ast);
    let a = Asset { id, filename: filename.to_owned(), dependencies, code, mapping: Vec::new() };
    assert(a@.mapping =~= Seq::<(Seq<char>, nat)>::empty());
    Ok(a)
}

} // verus!
