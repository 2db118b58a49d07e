use callgraph::file::analyse_files;
use callgraph::file::CodeFile;
use callgraph::file::SourceText;
use callgraph::function::analyse_functions;
use callgraph::graph::build;
use callgraph::graph::write_dot;
use callgraph::graph::Edge;

fn read(path: &str, code: &str) -> SourceText {
    SourceText { path: path.to_string(), code: code.to_string() }
}

fn run(sources: Vec<SourceText>) -> Vec<CodeFile> {
    let mut files = analyse_files(&sources).unwrap();
    analyse_functions(&mut files);
    files
}

fn calls(files: &Vec<CodeFile>, file: usize, name: &str) -> Vec<String> {
    let functions = files[file].get_functions();
    let function = functions.iter().find(|function| function.get_name() == name).unwrap();
    function.get_calls()
}

#[test]
fn directory_without_sources_gives_empty_graph() {
    let files = run(Vec::new());
    assert!(files.is_empty());
    assert_eq!(write_dot(&files), "digraph CallGraph {\ngraph [ranksep=1.5, nodesep=1.0];\n}\n");
}

#[test]
fn one_file_with_caller_and_callee() {
    let files = run(vec![read("project/src/a.rs", "fn foo() {}\nfn bar() { foo(); }")]);
    assert_eq!(files.len(), 1);
    assert_eq!(files[0].get_name(), "a.rs");
    assert_eq!(files[0].get_functions().len(), 2);
    assert_eq!(calls(&files, 0, "bar"), vec!["foo"]);
    assert_eq!(calls(&files, 0, "foo"), Vec::<String>::new());
    let text = write_dot(&files);
    assert!(text.contains("    \"a.rs::foo\";\n"));
    assert!(text.contains("    \"a.rs::bar\";\n"));
    assert!(text.contains("  \"a.rs::bar\" -> \"a.rs::foo\";\n"));
    let expected = [
        "digraph CallGraph {",
        "graph [ranksep=1.5, nodesep=1.0];",
        "  subgraph cluster_0 {",
        "    label = \"a.rs\";",
        "    style = filled;",
        "    color = lightgrey;",
        "    \"a.rs::foo\";",
        "    \"a.rs::bar\";",
        "  }",
        "  \"a.rs::bar\" -> \"a.rs::foo\";",
        "}",
        "",
    ]
    .join("\n");
    assert_eq!(text, expected);
}

#[test]
fn self_call_gives_a_loop() {
    let files = run(vec![read("r.rs", "fn baz() { baz(); }")]);
    assert_eq!(files[0].get_functions()[0].get_body(), "{ baz () ; }");
    assert_eq!(calls(&files, 0, "baz"), vec!["baz"]);
    assert_eq!(
        build(&files).edges,
        vec![Edge { from: "r.rs::baz".to_string(), to: "r.rs::baz".to_string() }]
    );
    assert!(write_dot(&files).contains("  \"r.rs::baz\" -> \"r.rs::baz\";\n"));
}

#[test]
fn shared_name_resolves_to_the_last_file() {
    let files = run(vec![
        read("x/fileA.rs", "pub fn run() {}"),
        read("x/fileB.rs", "pub fn run() {}"),
        read("x/main.rs", "fn main() { run(); }"),
    ]);
    assert_eq!(calls(&files, 2, "main"), vec!["run", "run"]);
    let graph = build(&files);
    let nodes: Vec<String> =
        graph.clusters.iter().flat_map(|cluster| cluster.nodes.clone()).collect();
    assert_eq!(nodes, vec!["fileA.rs::run", "fileB.rs::run", "main.rs::main"]);
    for edge in &graph.edges {
        assert_eq!(edge.from, "main.rs::main");
        assert_eq!(edge.to, "fileB.rs::run");
    }
    assert_eq!(graph.edges.len(), 2);
    let text = write_dot(&files);
    assert!(text.contains("  \"main.rs::main\" -> \"fileB.rs::run\";\n"));
    assert!(!text.contains("-> \"fileA.rs::run\""));
}

#[test]
fn mention_in_a_string_or_a_longer_name_counts() {
    let files = run(vec![read(
        "m.rs",
        "fn go() {}\nfn going() {}\nfn talk() { let s = \"let us go\"; }\nfn none() { let x = 1; }",
    )]);
    assert_eq!(calls(&files, 0, "go"), Vec::<String>::new());
    assert_eq!(calls(&files, 0, "going"), Vec::<String>::new());
    assert_eq!(calls(&files, 0, "talk"), vec!["go"]);
    assert_eq!(calls(&files, 0, "none"), Vec::<String>::new());
}

#[test]
fn one_bad_file_stops_the_run() {
    let sources = vec![
        read("ok.rs", "fn ok() {}"),
        read("bad.rs", "fn bad( {"),
        read("late.rs", "fn late() {}"),
    ];
    let error = analyse_files(&sources).unwrap_err();
    assert_eq!(error.path, "bad.rs");
    assert_eq!(error.message, "cannot parse string into token stream");
}
