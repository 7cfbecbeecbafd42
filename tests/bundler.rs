use minipack::asset::Asset;
use minipack::emit::{bundle, PRELUDE};
use minipack::error::BuildError;
use minipack::graph::Builder;
use minipack::transpile::create_asset;

/// Runs a build over an in-memory tree: `files` maps canonical paths to
/// source text; a specifier `./x` written in directory `d` names `d/x`.
fn build(files: &[(&str, &str)], entry: &str) -> Result<Vec<Asset>, BuildError> {
    let find = |p: &str| files.iter().find(|(k, _)| *k == p).map(|(_, v)| v.to_string());
    let source = find(entry).expect("entry exists");
    let mut b = Builder::start(entry, &source)?;
    while let Some(req) = b.next_request()? {
        let name = req.specifier.trim_start_matches("./");
        let path = format!("{}/{}", req.dir, name);
        let text = match find(&path) {
            Some(t) => t,
            None => return Err(BuildError::Resolution { from: req.from, specifier: req.specifier }),
        };
        if !b.resolved(&path) {
            b.loaded(&path, &text)?;
        }
    }
    Ok(b.finish())
}

fn id_of(g: &[Asset], path: &str) -> usize {
    g.iter().find(|a| a.filename == path).expect("module present").id
}

fn bound(a: &Asset, spec: &str) -> Option<usize> {
    a.mapping.iter().find(|e| e.specifier == spec).map(|e| e.id)
}

#[test]
fn two_module_scenario() {
    let files = [
        ("/p/a.js", "import b from './b.js';\nconsole.log(b);\n"),
        ("/p/b.js", "export default 42;\n"),
    ];
    let g = build(&files, "/p/a.js").unwrap();
    assert_eq!(g.len(), 2);
    assert_eq!(id_of(&g, "/p/a.js"), 0);
    assert_eq!(id_of(&g, "/p/b.js"), 1);
    assert_eq!(g[0].mapping.len(), 1);
    assert_eq!(bound(&g[0], "./b.js"), Some(1));
    assert!(g[1].mapping.is_empty());
    let text = bundle(g.clone());
    assert!(text.starts_with(PRELUDE));
    assert!(text.contains("0: [\nfunction (require, module, exports) {\n"));
    assert!(text.contains("1: [\nfunction (require, module, exports) {\n"));
    assert!(text.contains("{\"./b.js\": 1}\n],\n"));
    assert!(text.contains("},\n{}\n],\n"));
    assert!(text.find("0: [").unwrap() < text.find("1: [").unwrap());
    assert!(text.ends_with("});\n"));
}

#[test]
fn factory_code_is_common_js() {
    let a = create_asset("/p/a.js", "import b from './b.js';\nconsole.log(b);\n", 7).unwrap();
    assert_eq!(a.id, 7);
    assert_eq!(a.filename, "/p/a.js");
    assert_eq!(a.dependencies, vec!["./b.js".to_string()]);
    assert!(a.code.contains("require(\"./b.js\")"));
    assert!(!a.code.contains("import "));
    assert!(a.mapping.is_empty());
}

#[test]
fn dependencies_keep_order_and_duplicates() {
    let src = "import x from './x.js';\nimport y from './y.js';\nimport './x.js';\n";
    let a = create_asset("/p/a.js", src, 0).unwrap();
    let want: Vec<String> = vec!["./x.js".into(), "./y.js".into(), "./x.js".into()];
    assert_eq!(a.dependencies, want);
}

#[test]
fn transpile_error_names_the_file() {
    let r = create_asset("/p/bad.js", "import {", 0);
    assert_eq!(r.unwrap_err(), BuildError::Transpile { path: "/p/bad.js".to_string() });
}

#[test]
fn acyclic_graph_counts_reachable_paths() {
    let files = [
        ("/p/a.js", "import './b.js';\nimport './c.js';\n"),
        ("/p/b.js", "import './d.js';\n"),
        ("/p/c.js", ""),
        ("/p/d.js", ""),
        ("/p/unused.js", ""),
    ];
    let g = build(&files, "/p/a.js").unwrap();
    assert_eq!(g.len(), 4);
    assert_eq!(g[0].filename, "/p/a.js");
    assert_eq!(g[0].id, 0);
    for (i, a) in g.iter().enumerate() {
        assert_eq!(a.id, i);
    }
    assert_eq!(id_of(&g, "/p/b.js"), 1);
    assert_eq!(id_of(&g, "/p/c.js"), 2);
    assert_eq!(id_of(&g, "/p/d.js"), 3);
}

#[test]
fn diamond_shares_one_identity() {
    let files = [
        ("/p/a.js", "import './b.js';\nimport './c.js';\n"),
        ("/p/b.js", "import './d.js';\n"),
        ("/p/c.js", "import './d.js';\n"),
        ("/p/d.js", "export const d = 1;\n"),
    ];
    let g = build(&files, "/p/a.js").unwrap();
    assert_eq!(g.len(), 4);
    let d = id_of(&g, "/p/d.js");
    assert_eq!(g.iter().filter(|a| a.filename == "/p/d.js").count(), 1);
    assert_eq!(bound(&g[id_of(&g, "/p/b.js")], "./d.js"), Some(d));
    assert_eq!(bound(&g[id_of(&g, "/p/c.js")], "./d.js"), Some(d));
}

#[test]
fn cycle_completes() {
    let files = [
        ("/p/A.js", "import './B.js';\n"),
        ("/p/B.js", "import './A.js';\n"),
    ];
    let g = build(&files, "/p/A.js").unwrap();
    assert_eq!(g.len(), 2);
    let a = id_of(&g, "/p/A.js");
    let b = id_of(&g, "/p/B.js");
    assert_eq!(bound(&g[a], "./B.js"), Some(b));
    assert_eq!(bound(&g[b], "./A.js"), Some(a));
}

#[test]
fn self_import_completes() {
    let files = [("/p/a.js", "import './a.js';\n")];
    let g = build(&files, "/p/a.js").unwrap();
    assert_eq!(g.len(), 1);
    assert_eq!(bound(&g[0], "./a.js"), Some(0));
}

#[test]
fn builds_are_deterministic() {
    let files = [
        ("/p/a.js", "import './b.js';\nimport './c.js';\n"),
        ("/p/b.js", "import './c.js';\nexport const b = 2;\n"),
        ("/p/c.js", "import './a.js';\nexport const c = 3;\n"),
    ];
    let one = bundle(build(&files, "/p/a.js").unwrap());
    let two = bundle(build(&files, "/p/a.js").unwrap());
    assert_eq!(one, two);
}

#[test]
fn missing_dependency_is_a_resolution_error() {
    let files = [("/p/a.js", "import './missing.js';\n")];
    let r = build(&files, "/p/a.js");
    assert_eq!(
        r.unwrap_err(),
        BuildError::Resolution { from: "/p/a.js".to_string(), specifier: "./missing.js".to_string() }
    );
}

#[test]
fn module_without_parent_is_a_resolution_error() {
    let mut b = Builder::start("/", "import './b.js';\n").unwrap();
    assert_eq!(b.len(), 1);
    let r = b.next_request();
    assert_eq!(
        r.unwrap_err(),
        BuildError::Resolution { from: "/".to_string(), specifier: "./b.js".to_string() }
    );
    assert!(!b.is_done());
    assert!(!b.resolved("/b.js"));
}

#[test]
fn request_names_the_directory() {
    let b = Builder::start("/p/q/a.js", "import './b.js';\n").unwrap();
    let req = b.next_request().unwrap().unwrap();
    assert_eq!(req.dir, "/p/q");
    assert_eq!(req.from, "/p/q/a.js");
    assert_eq!(req.specifier, "./b.js");
    assert_eq!(b.lookup("/p/q/a.js"), Some(0));
    assert_eq!(b.lookup("/p/q/b.js"), None);
}

#[test]
fn loaded_reuses_registered_module() {
    let mut b = Builder::start("/p/a.js", "import './a2.js';\nimport './b.js';\n").unwrap();
    assert_eq!(b.loaded("/p/a.js", "ignored {").unwrap(), 0);
    assert_eq!(b.len(), 1);
    assert_eq!(b.loaded("/p/b.js", "export const b = 1;\n").unwrap(), 1);
    assert!(b.is_done());
    let g = b.finish();
    assert_eq!(bound(&g[0], "./a2.js"), Some(0));
    assert_eq!(bound(&g[0], "./b.js"), Some(1));
}

#[test]
fn failed_load_leaves_builder_unchanged() {
    let mut b = Builder::start("/p/a.js", "import './b.js';\n").unwrap();
    let r = b.loaded("/p/b.js", "export {");
    assert_eq!(r.unwrap_err(), BuildError::Transpile { path: "/p/b.js".to_string() });
    assert_eq!(b.len(), 1);
    assert!(!b.is_done());
    assert_eq!(b.lookup("/p/b.js"), None);
}

#[test]
fn entry_without_imports_is_done() {
    let b = Builder::start("/p/a.js", "export const a = 1;\n").unwrap();
    assert!(b.is_done());
    assert!(b.next_request().unwrap().is_none());
}

#[test]
fn bundle_of_empty_graph_is_the_loader() {
    assert_eq!(bundle(Vec::new()), format!("{}{}", PRELUDE, "});\n"));
}

#[test]
fn identities_past_nine_print_in_decimal() {
    let mut entry = String::new();
    for i in 1..=11 {
        entry.push_str(&format!("import './m{}.js';\n", i));
    }
    let names: Vec<String> = (1..=11).map(|i| format!("/p/m{}.js", i)).collect();
    let mut files: Vec<(&str, &str)> = vec![("/p/a.js", entry.as_str())];
    for n in &names {
        files.push((n.as_str(), ""));
    }
    let g = build(&files, "/p/a.js").unwrap();
    assert_eq!(g.len(), 12);
    let text = bundle(g);
    assert!(text.contains("\n10: [\n"));
    assert!(text.contains("\n11: [\n"));
    assert!(text.contains("\"./m10.js\": 10, \"./m11.js\": 11}"));
}

#[test]
fn specifiers_are_escaped_in_tables() {
    let a = Asset {
        id: 0,
        filename: "/p/a.js".to_string(),
        dependencies: vec![],
        code: "f();".to_string(),
        mapping: vec![
            minipack::asset::Entry { specifier: "./q\"x\\y.js".to_string(), id: 4 },
            minipack::asset::Entry { specifier: "./z.js".to_string(), id: 25 },
        ],
    };
    let text = bundle(vec![a]);
    let want = "0: [\nfunction (require, module, exports) {\nf();\n},\n{\"./q\\\"x\\\\y.js\": 4, \"./z.js\": 25}\n],\n";
    assert_eq!(text, format!("{}{}{}", PRELUDE, want, "});\n"));
}

#[test]
fn require_is_not_memoized() {
    // Each call of the runtime `require` builds a new module object and runs
    // the factory again; there is no per-identity cache.
    let text = bundle(Vec::new());
    let body = &text[text.find("function require(id)").unwrap()..text.find("require(0);").unwrap()];
    assert!(body.contains("const module = { exports: {} };"));
    assert!(body.contains("fn(localRequire, module, module.exports);"));
    assert!(!body.contains("cache"));
    assert_eq!(text.matches("modules[id]").count(), 1);
}

#[test]
fn describe_lists_every_field() {
    let a = Asset {
        id: 12,
        filename: "/p/a.js".to_string(),
        dependencies: vec!["./b.js".to_string(), "./c.js".to_string()],
        code: "x();".to_string(),
        mapping: vec![minipack::asset::Entry { specifier: "./b.js".to_string(), id: 1 }],
    };
    let want = "Asset {\nid: 12\nfilename: /p/a.js\ndependencies: [\"./b.js\", \"./c.js\"]\ncode: x();\nmapping: {\"./b.js\": 1}\n}\n";
    assert_eq!(a.describe(), want);
}

#[test]
fn describe_empty_module() {
    let a = create_asset("/p/e.js", "", 0).unwrap();
    assert!(a.describe().starts_with("Asset {\nid: 0\nfilename: /p/e.js\ndependencies: []\ncode: "));
    assert!(a.describe().ends_with("\nmapping: {}\n}\n"));
}
