//! The call graph of a collection of files and its text in the DOT language.

use crate::file::CodeFile;
use crate::file::CodeFileView;
use crate::function::FunctionView;
use crate::text::decimal;
use crate::text::decimal_string;
use vstd::hash_map::StringHashMap;
use vstd::prelude::*;

verus! {

/// The mathematical value of a [`Cluster`].
pub struct ClusterView {
    pub label: Seq<char>,
    pub nodes: Seq<Seq<char>>,
}

/// The nodes of one file, grouped under the file's name.
#[derive(PartialEq, Eq, Debug)]
pub struct Cluster {
    /// The base name of the file.
    pub label: String,
    /// The qualified names of the file's functions, in the order of declaration.
    pub nodes: Vec<String>,
}

impl View for Cluster {
    type V = ClusterView;

    open spec fn view(&self) -> ClusterView {
        ClusterView { label: self.label@, nodes: self.nodes.deep_view() }
    }
}

impl DeepView for Cluster {
    type V = ClusterView;

    open spec fn deep_view(&self) -> ClusterView {
        self.view()
    }
}

/// The mathematical value of an [`Edge`].
pub struct EdgeView {
    pub from: Seq<char>,
    pub to: Seq<char>,
}

/// A mention: the body of the function `from` mentions the name behind `to`.
#[derive(PartialEq, Eq, Debug)]
pub struct Edge {
    /// The qualified name of the mentioning function.
    pub from: String,
    /// The qualified name that the mentioned name stands for, or the bare name
    /// where no file declares it.
    pub to: String,
}

impl View for Edge {
    type V = EdgeView;

    open spec fn view(&self) -> EdgeView {
        EdgeView { from: self.from@, to: self.to@ }
    }
}

impl DeepView for Edge {
    type V = EdgeView;

    open spec fn deep_view(&self) -> EdgeView {
        self.view()
    }
}

/// The mathematical value of a [`Graph`].
pub struct GraphView {
    pub clusters: Seq<ClusterView>,
    pub edges: Seq<EdgeView>,
}

/// A call graph: one cluster of nodes per file, and the edges between nodes.
#[derive(PartialEq, Eq, Debug)]
pub struct Graph {
    /// One cluster per file, in the order of the files.
    pub clusters: Vec<Cluster>,
    /// One edge per mention: file by file, function by function, in the order
    /// of detection.
    pub edges: Vec<Edge>,
}

impl View for Graph {
    type V = GraphView;

    open spec fn view(&self) -> GraphView {
        GraphView { clusters: self.clusters.deep_view(), edges: self.edges.deep_view() }
    }
}

/// The name of the function `function` of the file `file` as a node of the graph.
pub open spec fn qualified_name(file: Seq<char>, function: Seq<char>) -> Seq<char> {
    file + "::"@ + function
}

/// Whether `file` declares a function named `name`.
pub open spec fn declares(file: CodeFileView, name: Seq<char>) -> bool {
    exists|j: int| 0 <= j < file.functions.len() && (#[trigger] file.functions[j]).name == name
}

/// The node that an edge to the mentioned name `callee` ends in: the function
/// of that name in the last file that declares one, and the bare name where no
/// file does.
pub open spec fn edge_target(files: Seq<CodeFileView>, callee: Seq<char>) -> Seq<char>
    decreases files.len(),
{
    if files.len() == 0 {
        callee
    } else if declares(files.last(), callee) {
        qualified_name(files.last().name, callee)
    } else {
        edge_target(files.drop_last(), callee)
    }
}

/// The cluster of `file`: one node per function.
pub open spec fn cluster_of(file: CodeFileView) -> ClusterView {
    ClusterView {
        label: file.name,
        nodes: file.functions.map_values(|f: FunctionView| qualified_name(file.name, f.name)),
    }
}

/// The edges that leave the function `f` of `file`: one per mention.
pub open spec fn edges_of_function(
    files: Seq<CodeFileView>,
    file: CodeFileView,
    f: FunctionView,
) -> Seq<EdgeView> {
    f.calls.map_values(
        |callee: Seq<char>|
            EdgeView { from: qualified_name(file.name, f.name), to: edge_target(files, callee) },
    )
}

/// The edges that leave the functions of `file`, function by function.
pub open spec fn edges_of_file(files: Seq<CodeFileView>, file: CodeFileView) -> Seq<EdgeView> {
    file.functions.map_values(|f: FunctionView| edges_of_function(files, file, f)).flatten()
}

/// The call graph of `files`.
pub open spec fn graph_of(files: Seq<CodeFileView>) -> GraphView {
    GraphView {
        clusters: files.map_values(|file: CodeFileView| cluster_of(file)),
        edges: files.map_values(|file: CodeFileView| edges_of_file(files, file)).flatten(),
    }
}

/// The line that declares `node` inside its cluster.
pub open spec fn node_line(node: Seq<char>) -> Seq<char> {
    "    \""@ + node + "\";\n"@
}

/// The lines that declare `nodes`, in order.
pub open spec fn node_lines(nodes: Seq<Seq<char>>) -> Seq<char> {
    nodes.map_values(|node: Seq<char>| node_line(node)).flatten()
}

/// The subgraph of the cluster at position `index`.
pub open spec fn cluster_text(index: nat, cluster: ClusterView) -> Seq<char> {
    "  subgraph cluster_"@ + decimal(index) + " {\n"@
        + "    label = \""@ + cluster.label + "\";\n"@
        + "    style = filled;\n"@
        + "    color = lightgrey;\n"@
        + node_lines(cluster.nodes)
        + "  }\n"@
}

/// The subgraphs of `clusters`, each numbered by its position.
pub open spec fn clusters_text(clusters: Seq<ClusterView>) -> Seq<char> {
    Seq::new(clusters.len(), |i: int| cluster_text(i as nat, clusters[i])).flatten()
}

/// The line that declares `edge`.
pub open spec fn edge_line(edge: EdgeView) -> Seq<char> {
    "  \""@ + edge.from + "\" -> \""@ + edge.to + "\";\n"@
}

/// The lines that declare `edges`, in order.
pub open spec fn edge_lines(edges: Seq<EdgeView>) -> Seq<char> {
    edges.map_values(|edge: EdgeView| edge_line(edge)).flatten()
}

/// The description of `graph` in the DOT language: the opening of a directed
/// graph, its layout attributes, the clusters, the edges and the closing brace.
pub open spec fn dot_text(graph: GraphView) -> Seq<char> {
    "digraph CallGraph {\n"@
        + "graph [ranksep=1.5, nodesep=1.0];\n"@
        + clusters_text(graph.clusters)
        + edge_lines(graph.edges)
        + "}\n"@
}

/// Writes the lines that declare `nodes`.
fn write_nodes(nodes: &Vec<String>) -> (text: String)
    ensures
        text@ == node_lines(nodes.deep_view()),
{
    let ghost lines = nodes.deep_view().map_values(|node: Seq<char>| node_line(node));
    let mut text = String::new();
    let mut i: usize = 0;
    assert(lines.take(0) =~= Seq::empty());
    while i < nodes.len()
        invariant
            i <= nodes.len(),
            lines == nodes.deep_view().map_values(|node: Seq<char>| node_line(node)),
            text@ == lines.take(i as int).flatten(),
        decreases nodes.len() - i,
    {
        proof {
            assert(lines.take(i + 1) =~= lines.take(i as int).push(lines[i as int]));
            lines.take(i as int).lemma_flatten_push(lines[i as int]);
        }
        text.append("    \"");
        text.append(nodes[i].as_str());
        text.append("\";\n");
        i += 1;
    }
    assert(lines.take(i as int) =~= lines);
    text
}

/// Writes the subgraph of the cluster at position `index`.
fn write_cluster(index: usize, cluster: &Cluster) -> (text: String)
    ensures
        text@ == cluster_text(index as nat, cluster@),
{
    let mut text = String::new();
    text.append("  subgraph cluster_");
    text.append(decimal_string(index).as_str());
    text.append(" {\n");
    text.append("    label = \"");
    text.append(cluster.label.as_str());
    text.append("\";\n");
    text.append("    style = filled;\n");
    text.append("    color = lightgrey;\n");
    text.append(write_nodes(&cluster.nodes).as_str());
    text.append("  }\n");
    assert(text@ =~= cluster_text(index as nat, cluster@));
    text
}

/// Writes `graph` in the DOT language.
pub fn serialize(graph: &Graph) -> (text: String)
    ensures
        text@ == dot_text(graph@),
{
    let ghost clusters = Seq::new(
        graph@.clusters.len(),
        |i: int| cluster_text(i as nat, graph@.clusters[i]),
    );
    let ghost edges = graph@.edges.map_values(|edge: EdgeView| edge_line(edge));
    let mut text = String::new();
    text.append("digraph CallGraph {\n");
    text.append("graph [ranksep=1.5, nodesep=1.0];\n");
    let ghost head = text@;
    assert(head =~= "digraph CallGraph {\n"@ + "graph [ranksep=1.5, nodesep=1.0];\n"@);

    let mut i: usize = 0;
    assert(clusters.take(0) =~= Seq::empty());
    while i < graph.clusters.len()
        invariant
            i <= graph.clusters.len(),
            clusters == Seq::new(
                graph@.clusters.len(),
                |i: int| cluster_text(i as nat, graph@.clusters[i]),
            ),
            text@ == head + clusters.take(i as int).flatten(),
        decreases graph.clusters.len() - i,
    {
        proof {
            assert(clusters.take(i + 1) =~= clusters.take(i as int).push(clusters[i as int]));
            clusters.take(i as int).lemma_flatten_push(clusters[i as int]);
        }
        text.append(write_cluster(i, &graph.clusters[i]).as_str());
        i += 1;
    }
    assert(clusters.take(i as int) =~= clusters);
    let ghost middle = text@;

    let mut k: usize = 0;
    assert(edges.take(0) =~= Seq::empty());
    while k < graph.edges.len()
        invariant
            k <= graph.edges.len(),
            edges == graph@.edges.map_values(|edge: EdgeView| edge_line(edge)),
            text@ == middle + edges.take(k as int).flatten(),
        decreases graph.edges.len() - k,
    {
        proof {
            assert(edges.take(k + 1) =~= edges.take(k as int).push(edges[k as int]));
            edges.take(k as int).lemma_flatten_push(edges[k as int]);
        }
        text.append("  \"");
        text.append(graph.edges[k].from.as_str());
        text.append("\" -> \"");
        text.append(graph.edges[k].to.as_str());
        text.append("\";\n");
        k += 1;
    }
    assert(edges.take(k as int) =~= edges);
    text.append("}\n");
    text
}

/// What `table` holds for `name`, and `name` itself where it holds nothing.
spec fn lookup(table: Map<Seq<char>, String>, name: Seq<char>) -> Seq<char> {
    if table.contains_key(name) {
        table[name]@
    } else {
        name
    }
}

/// Whether one of the first `upto` functions of `file` is named `name`.
spec fn declares_before(file: CodeFileView, upto: int, name: Seq<char>) -> bool {
    exists|j: int| 0 <= j < upto && (#[trigger] file.functions[j]).name == name
}

/// Joins the name of a file and the name of one of its functions.
fn qualify(file: &str, function: &str) -> (name: String)
    ensures
        name@ == qualified_name(file@, function@),
{
    let mut name = file.to_owned();
    name.append("::");
    name.append(function);
    name
}

/// Maps every declared function name to its qualified name; of two files
/// that declare the same name, the later one stays.
fn name_table(files: &Vec<CodeFile>) -> (table: StringHashMap<String>)
    ensures
        forall|name: Seq<char>|
            #[trigger] lookup(table@, name) == edge_target(files.deep_view(), name),
{
    let ghost all = files.deep_view();
    let mut table: StringHashMap<String> = StringHashMap::new();
    let mut i: usize = 0;
    while i < files.len()
        invariant
            i <= files.len(),
            all == files.deep_view(),
            forall|name: Seq<char>|
                #[trigger] lookup(table@, name) == edge_target(all.take(i as int), name),
        decreases files.len() - i,
    {
        let file_name = files[i].get_name();
        let functions = files[i].get_functions();
        let ghost file = all[i as int];
        let ghost before = all.take(i as int);
        let mut j: usize = 0;
        while j < functions.len()
            invariant
                j <= functions.len(),
                file_name@ == file.name,
                functions.deep_view() == file.functions,
                forall|name: Seq<char>|
                    #[trigger] lookup(table@, name) == if declares_before(file, j as int, name) {
                        qualified_name(file.name, name)
                    } else {
                        edge_target(before, name)
                    },
            decreases functions.len() - j,
        {
            let name = functions[j].get_name();
            let qualified = qualify(file_name.as_str(), name.as_str());
            let ghost old_table = table@;
            table.insert(name, qualified);
            proof {
                assert(functions.deep_view()[j as int] == file.functions[j as int]);
                assert forall|other: Seq<char>|
                    #[trigger] lookup(table@, other) == if declares_before(
                        file,
                        j + 1,
                        other,
                    ) {
                        qualified_name(file.name, other)
                    } else {
                        edge_target(before, other)
                    } by {
                    if other == name@ {
                        assert(file.functions[j as int].name == other);
                    } else {
                        assert(lookup(table@, other) == lookup(old_table, other));
                        assert(declares_before(file, j + 1, other) == declares_before(
                            file,
                            j as int,
                            other,
                        ));
                    }
                }
            }
            j += 1;
        }
        proof {
            let after = all.take(i + 1);
            assert(after.last() == file);
            assert(after.drop_last() =~= before);
            assert forall|name: Seq<char>|
                #[trigger] lookup(table@, name) == edge_target(after, name) by {
                assert(declares(file, name) == declares_before(
                    file,
                    file.functions.len() as int,
                    name,
                ));
            }
        }
        i += 1;
    }
    assert(all.take(i as int) =~= all);
    table
}

/// Makes the cluster of one file.
fn cluster_for(file: &CodeFile) -> (cluster: Cluster)
    ensures
        cluster@ == cluster_of(file@),
{
    let label = file.get_name();
    let functions = file.get_functions();
    let mut nodes: Vec<String> = Vec::new();
    let mut j: usize = 0;
    while j < functions.len()
        invariant
            j <= functions.len(),
            label@ == file@.name,
            functions.deep_view() == file@.functions,
            nodes.deep_view() == cluster_of(file@).nodes.take(j as int),
        decreases functions.len() - j,
    {
        let name = functions[j].get_name();
        let node = qualify(label.as_str(), name.as_str());
        let ghost earlier = nodes.deep_view();
        nodes.push(node);
        proof {
            assert(functions.deep_view()[j as int] == file@.functions[j as int]);
            assert(nodes.deep_view() =~= earlier.push(node@));
            assert(nodes.deep_view() =~= cluster_of(file@).nodes.take(j + 1));
        }
        j += 1;
    }
    assert(cluster_of(file@).nodes.take(j as int) =~= cluster_of(file@).nodes);
    Cluster { label, nodes }
}

/// Builds the call graph of `files`: a cluster with one node per function for
/// every file, and an edge for every mention.  An edge ends in the function of
/// the mentioned name in the last file that declares one, and in the bare name
/// where no file does.
pub fn build(files: &Vec<CodeFile>) -> (graph: Graph)
    ensures
        graph@ == graph_of(files.deep_view()),
{
    let ghost all = files.deep_view();
    let table = name_table(files);

    let mut clusters: Vec<Cluster> = Vec::new();
    let mut i: usize = 0;
    while i < files.len()
        invariant
            i <= files.len(),
            all == files.deep_view(),
            clusters.deep_view() == graph_of(all).clusters.take(i as int),
        decreases files.len() - i,
    {
        let cluster = cluster_for(&files[i]);
        let ghost earlier = clusters.deep_view();
        clusters.push(cluster);
        proof {
            assert(all[i as int] == files[i as int]@);
            assert(clusters.deep_view() =~= earlier.push(cluster@));
            assert(clusters.deep_view() =~= graph_of(all).clusters.take(i + 1));
        }
        i += 1;
    }
    assert(graph_of(all).clusters.take(i as int) =~= graph_of(all).clusters);

    let ghost per_file = all.map_values(|file: CodeFileView| edges_of_file(all, file));
    let mut edges: Vec<Edge> = Vec::new();
    let mut i: usize = 0;
    assert(per_file.take(0) =~= Seq::empty());
    while i < files.len()
        invariant
            i <= files.len(),
            all == files.deep_view(),
            per_file == all.map_values(|file: CodeFileView| edges_of_file(all, file)),
            forall|name: Seq<char>| #[trigger] lookup(table@, name) == edge_target(all, name),
            edges.deep_view() == per_file.take(i as int).flatten(),
        decreases files.len() - i,
    {
        let file_name = files[i].get_name();
        let functions = files[i].get_functions();
        let ghost file = all[i as int];
        let ghost done = edges.deep_view();
        let ghost per_function = file.functions.map_values(
            |f: FunctionView| edges_of_function(all, file, f),
        );
        let mut j: usize = 0;
        assert(per_function.take(0) =~= Seq::empty());
        while j < functions.len()
            invariant
                j <= functions.len(),
                file_name@ == file.name,
                functions.deep_view() == file.functions,
                per_function == file.functions.map_values(
                    |f: FunctionView| edges_of_function(all, file, f),
                ),
                forall|name: Seq<char>|
                    #[trigger] lookup(table@, name) == edge_target(all, name),
                edges.deep_view() == done + per_function.take(j as int).flatten(),
            decreases functions.len() - j,
        {
            let name = functions[j].get_name();
            let caller = qualify(file_name.as_str(), name.as_str());
            let calls = functions[j].get_calls();
            let ghost f = file.functions[j as int];
            let ghost earlier = edges.deep_view();
            assert(functions.deep_view()[j as int] == f);
            let mut k: usize = 0;
            while k < calls.len()
                invariant
                    k <= calls.len(),
                    caller@ == qualified_name(file.name, f.name),
                    calls.deep_view() == f.calls,
                    forall|name: Seq<char>|
                        #[trigger] lookup(table@, name) == edge_target(all, name),
                    edges.deep_view() == earlier + edges_of_function(all, file, f).take(k as int),
                decreases calls.len() - k,
            {
                let callee = &calls[k];
                let to = match table.get(callee.as_str()) {
                    Some(qualified) => qualified.clone(),
                    None => callee.clone(),
                };
                proof {
                    assert(calls.deep_view()[k as int] == callee@);
                    assert(to@ == lookup(table@, callee@));
                }
                let edge = Edge { from: caller.clone(), to };
                let ghost so_far = edges.deep_view();
                edges.push(edge);
                proof {
                    assert(edges.deep_view() =~= so_far.push(edge@));
                    assert(edges.deep_view() =~= earlier + edges_of_function(all, file, f).take(
                        k + 1,
                    ));
                }
                k += 1;
            }
            proof {
                assert(edges_of_function(all, file, f).take(k as int) =~= edges_of_function(
                    all,
                    file,
                    f,
                ));
                assert(per_function.take(j + 1) =~= per_function.take(j as int).push(
                    per_function[j as int],
                ));
                per_function.take(j as int).lemma_flatten_push(per_function[j as int]);
                assert(edges.deep_view() =~= done + per_function.take(j + 1).flatten());
            }
            j += 1;
        }
        proof {
            assert(per_function.take(j as int) =~= per_function);
            assert(per_file.take(i + 1) =~= per_file.take(i as int).push(per_file[i as int]));
            per_file.take(i as int).lemma_flatten_push(per_file[i as int]);
        }
        i += 1;
    }
    assert(per_file.take(i as int) =~= per_file);
    Graph { clusters, edges }
}

/// Writes the call graph of `files` in the DOT language.
pub fn write_dot(files: &Vec<CodeFile>) -> (text: String)
    ensures
        text@ == dot_text(graph_of(files.deep_view())),
{
    serialize(&build(files))
}

/// A collection without files gives a graph without clusters, nodes and
/// edges, and its description is the opening of the graph, the layout
/// attributes and the closing brace.
pub proof fn lemma_empty_collection_gives_empty_graph()
    ensures
        graph_of(Seq::empty()).clusters == Seq::<ClusterView>::empty(),
        graph_of(Seq::empty()).edges == Seq::<EdgeView>::empty(),
        dot_text(graph_of(Seq::empty())) == "digraph CallGraph {\n"@
            + "graph [ranksep=1.5, nodesep=1.0];\n"@
            + "}\n"@,
{
    let graph = graph_of(Seq::empty());
    assert(graph.clusters =~= Seq::empty());
    assert(graph.edges =~= Seq::empty());
    assert(clusters_text(graph.clusters) =~= Seq::empty());
    assert(edge_lines(graph.edges) =~= Seq::empty());
    assert(dot_text(graph) =~= "digraph CallGraph {\n"@
        + "graph [ranksep=1.5, nodesep=1.0];\n"@
        + "}\n"@);
}

/// Functions of the same name in files of different names are different
/// nodes.
pub proof fn lemma_nodes_of_different_files_differ(
    file: Seq<char>,
    other: Seq<char>,
    function: Seq<char>,
)
    requires
        file != other,
    ensures
        qualified_name(file, function) != qualified_name(other, function),
{
    let a = qualified_name(file, function);
    let b = qualified_name(other, function);
    if a == b {
        assert(a.len() == file.len() + "::"@.len() + function.len());
        assert(b.len() == other.len() + "::"@.len() + function.len());
        assert(a.subrange(0, file.len() as int) =~= file);
        assert(b.subrange(0, other.len() as int) =~= other);
        assert(file =~= other);
    }
}

/// Of the files that declare `name`, the last one wins: an edge to `name` ends
/// in the function of the last file that declares one.
pub proof fn lemma_last_declaring_file_wins(files: Seq<CodeFileView>, i: int, name: Seq<char>)
    requires
        0 <= i < files.len(),
        declares(files[i], name),
        forall|later: int| i < later < files.len() ==> !declares(#[trigger] files[later], name),
    ensures
        edge_target(files, name) == qualified_name(files[i].name, name),
    decreases files.len(),
{
    if i < files.len() - 1 {
        assert(!declares(files[files.len() - 1], name));
        let rest = files.drop_last();
        assert(rest[i] == files[i]);
        assert forall|later: int| i < later < rest.len() implies !declares(
            #[trigger] rest[later],
            name,
        ) by {
            assert(rest[later] == files[later]);
        }
        lemma_last_declaring_file_wins(rest, i, name);
    }
}

/// An edge to a name that no file declares ends in the bare name.
pub proof fn lemma_undeclared_name_stays_bare(files: Seq<CodeFileView>, name: Seq<char>)
    requires
        forall|i: int| 0 <= i < files.len() ==> !declares(#[trigger] files[i], name),
    ensures
        edge_target(files, name) == name,
    decreases files.len(),
{
    if files.len() > 0 {
        assert(!declares(files[files.len() - 1], name));
        let rest = files.drop_last();
        assert forall|i: int| 0 <= i < rest.len() implies !declares(#[trigger] rest[i], name) by {
            assert(rest[i] == files[i]);
        }
        lemma_undeclared_name_stays_bare(rest, name);
    }
}

} // verus!
