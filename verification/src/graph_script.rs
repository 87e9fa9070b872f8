//! The graph of a TypeScript or JavaScript file, from what a parser meets in it, and the
//! graph of a file of any language.

use vstd::prelude::*;
use crate::decimal::{decimal, push_decimal, push_signed_decimal, signed_decimal};
use crate::graph::{
    extracts, file_id, graph_of, is_closed, lemma_call_closed, new_graph, node_model,
    stable_id, stable_id_of, with_call, with_definition, with_symbol, has_node, GraphBuilder,
    GraphExtraction, GraphModel, GraphNode, NodeModel,
};
use crate::graph_source::{calls_of, extract, source_functions, SourceLanguage};
use crate::pieces::{extension, extension_of, push_text, texts};
use crate::text::{ascii_lower, same_text, to_ascii_lowercase};

verus! {

/// What opens a scope.
#[derive(Debug, Clone, Copy, PartialEq, Eq, Structural)]
pub enum ScriptScope {
    Function,
    Method,
    Constructor,
    Lambda,
}

/// What a parser meets in a script, in the order of the text.
#[derive(Debug)]
pub enum ScriptEvent {
    /// A scope begins. A lambda and a constructor have no name of their own.
    Enter {
        scope: ScriptScope,
        name: String,
        params: usize,
        is_async: bool,
        is_generator: bool,
        start: i64,
        end: i64,
    },
    /// The scope that began last ends.
    Leave,
    /// A name is called; `place` tells calls of the same name apart.
    Call { name: String, place: String },
}

/// The kind of a scope's node.
pub open spec fn scope_kind(scope: ScriptScope) -> Seq<char> {
    match scope {
        ScriptScope::Function => "function"@,
        ScriptScope::Method => "method"@,
        ScriptScope::Constructor => "constructor"@,
        ScriptScope::Lambda => "lambda"@,
    }
}

/// The name of a scope's node, the `count`-th of its file.
pub open spec fn scope_name(scope: ScriptScope, name: Seq<char>, count: nat) -> Seq<char> {
    match scope {
        ScriptScope::Constructor => "constructor"@,
        ScriptScope::Lambda => "lambda_"@ + decimal(count),
        _ => name,
    }
}

/// What a scope's node carries.
pub open spec fn scope_metadata(is_async: bool, is_generator: bool) -> Seq<char> {
    match (is_async, is_generator) {
        (true, true) => "{\"async\":true,\"generator\":true}"@,
        (true, false) => "{\"async\":true,\"generator\":false}"@,
        (false, true) => "{\"async\":false,\"generator\":true}"@,
        (false, false) => "{\"async\":false,\"generator\":false}"@,
    }
}

/// The node of a scope.
pub open spec fn scope_node(path: Seq<char>, event: ScriptEvent, count: nat) -> NodeModel
    recommends
        event is Enter,
{
    match event {
        ScriptEvent::Enter { scope, name, params, is_async, is_generator, start, end } => {
            let full = scope_name(scope, name@, count);
            let place = "Some("@ + signed_decimal(start as int) + ")"@;
            NodeModel {
                id: stable_id_of(seq![scope_kind(scope), path, full, place]),
                path: Some(path),
                kind: scope_kind(scope),
                name: full,
                signature: Some(full + "("@ + decimal(params as nat) + " params)"@),
                range_start: Some(start),
                range_end: Some(end),
                metadata: Some(scope_metadata(is_async, is_generator)),
            }
        },
        _ => arbitrary(),
    }
}

/// A script's graph under construction, and the identifiers of the open scopes.
pub struct ScriptModel {
    pub graph: GraphModel,
    pub scopes: Seq<Seq<char>>,
}

/// The graph of a script after these events.
pub open spec fn script_after(path: Seq<char>, events: Seq<ScriptEvent>) -> ScriptModel
    decreases events.len(),
{
    if events.len() == 0 {
        ScriptModel { graph: new_graph(path), scopes: seq![file_id(path)] }
    } else {
        let m = script_after(path, events.drop_last());
        match events.last() {
            ScriptEvent::Enter { .. } => {
                let node = scope_node(path, events.last(), m.graph.nodes.len());
                ScriptModel {
                    graph: with_definition(m.graph, node),
                    scopes: m.scopes.push(node.id),
                }
            },
            ScriptEvent::Leave => ScriptModel {
                graph: m.graph,
                scopes: if m.scopes.len() == 0 {
                    m.scopes
                } else {
                    m.scopes.drop_last()
                },
            },
            ScriptEvent::Call { name, place } => ScriptModel {
                graph: if m.scopes.len() == 0 {
                    with_symbol(m.graph, name@)
                } else {
                    with_call(m.graph, path, m.scopes.last(), name@, place@, None)
                },
                scopes: m.scopes,
            },
        }
    }
}

fn describe_scope(path: &str, event: &ScriptEvent, count: usize) -> (r: Option<GraphNode>)
    ensures
        match r {
            Some(node) => event is Enter && node_model(node) == scope_node(
                path@,
                *event,
                count as nat,
            ),
            None => !(event is Enter),
        },
{
    match event {
        ScriptEvent::Enter { scope, name, params, is_async, is_generator, start, end } => {
            let kind = match scope {
                ScriptScope::Function => "function".to_owned(),
                ScriptScope::Method => "method".to_owned(),
                ScriptScope::Constructor => "constructor".to_owned(),
                ScriptScope::Lambda => "lambda".to_owned(),
            };
            let full = match scope {
                ScriptScope::Constructor => "constructor".to_owned(),
                ScriptScope::Lambda => {
                    let mut text = "lambda_".to_owned();
                    push_decimal(&mut text, count as u64);
                    text
                },
                ScriptScope::Function | ScriptScope::Method => name.clone(),
            };
            let mut place = "Some(".to_owned();
            push_signed_decimal(&mut place, *start);
            place.append(")");
            let mut parts: Vec<String> = Vec::new();
            push_text(&mut parts, kind.clone());
            push_text(&mut parts, path.to_owned());
            push_text(&mut parts, full.clone());
            push_text(&mut parts, place);
            assert(texts(parts@) =~= seq![kind@, path@, full@, place@]);
            let id = stable_id(&parts);
            let mut signature = full.clone();
            signature.append("(");
            push_decimal(&mut signature, *params as u64);
            signature.append(" params)");
            let metadata = match (*is_async, *is_generator) {
                (true, true) => "{\"async\":true,\"generator\":true}".to_owned(),
                (true, false) => "{\"async\":true,\"generator\":false}".to_owned(),
                (false, true) => "{\"async\":false,\"generator\":true}".to_owned(),
                (false, false) => "{\"async\":false,\"generator\":false}".to_owned(),
            };
            Some(
                GraphNode {
                    id,
                    path: Some(path.to_owned()),
                    kind,
                    name: full,
                    signature: Some(signature),
                    range_start: Some(*start),
                    range_end: Some(*end),
                    metadata: Some(metadata),
                },
            )
        },
        _ => None,
    }
}

/// The graph of a script, from what a parser met in it.
pub fn build_script_graph(path: &str, events: &Vec<ScriptEvent>) -> (r: Option<GraphExtraction>)
    ensures
        extracts(r, script_after(path@, events@).graph),
{
    let mut builder = GraphBuilder::new(path);
    let mut scopes: Vec<String> = Vec::new();
    let mut parts: Vec<String> = Vec::new();
    push_text(&mut parts, "file".to_owned());
    push_text(&mut parts, path.to_owned());
    assert(texts(parts@) =~= seq!["file"@, path@]);
    push_text(&mut scopes, stable_id(&parts));
    assert(texts(scopes@) =~= seq![file_id(path@)]);
    let mut i: usize = 0;
    assert(events@.take(0).len() == 0);
    while i < events.len()
        invariant
            i <= events@.len(),
            builder.wf(),
            builder.path() == path@,
            builder.model() == script_after(path@, events@.take(i as int)).graph,
            texts(scopes@) == script_after(path@, events@.take(i as int)).scopes,
        decreases events.len() - i,
    {
        let ghost m = script_after(path@, events@.take(i as int));
        proof {
            assert(events@.take(i + 1).drop_last() =~= events@.take(i as int));
            assert(events@.take(i + 1).last() == events@[i as int]);
        }
        let count = builder.node_count();
        match &events[i] {
            ScriptEvent::Enter { .. } => {
                if let Some(node) = describe_scope(path, &events[i], count) {
                    let id = node.id.clone();
                    builder.add_definition(node);
                    push_text(&mut scopes, id);
                }
            },
            ScriptEvent::Leave => {
                let ghost before = scopes@;
                let dropped = scopes.pop();
                proof {
                    if before.len() > 0 {
                        assert(texts(scopes@) =~= texts(before).drop_last());
                    }
                }
            },
            ScriptEvent::Call { name, place } => {
                if scopes.len() == 0 {
                    assert(texts(scopes@).len() == 0);
                    builder.add_symbol(name.as_str());
                } else {
                    assert(texts(scopes@).last() == scopes@[scopes@.len() - 1]@);
                    let scope = scopes[scopes.len() - 1].clone();
                    builder.add_call(scope.as_str(), name.as_str(), place.as_str(), None);
                }
            },
        }
        i += 1;
    }
    assert(events@.take(i as int) =~= events@);
    builder.finish()
}

/// What is open are nodes of the graph.
pub open spec fn scopes_known(m: ScriptModel) -> bool {
    forall|k: int| 0 <= k < m.scopes.len() ==> has_node(m.graph, #[trigger] m.scopes[k])
}

/// The graph of a script refers to nothing that is not in it.
pub proof fn law_script_closed(path: Seq<char>, events: Seq<ScriptEvent>)
    ensures
        is_closed(script_after(path, events).graph),
        scopes_known(script_after(path, events)),
    decreases events.len(),
{
    if events.len() == 0 {
        let m = script_after(path, events);
        assert(m.graph.nodes[0].id == file_id(path));
        assert(has_node(m.graph, m.scopes[0]));
    } else {
        law_script_closed(path, events.drop_last());
        let m = script_after(path, events.drop_last());
        let r = script_after(path, events);
        match events.last() {
            ScriptEvent::Enter { .. } => {
                let node = scope_node(path, events.last(), m.graph.nodes.len());
                crate::graph::lemma_definition_closed(m.graph, node);
            },
            ScriptEvent::Leave => {},
            ScriptEvent::Call { name, place } => {
                if m.scopes.len() == 0 {
                    crate::graph::lemma_definition_closed(
                        m.graph,
                        crate::graph::symbol_node(name@),
                    );
                } else {
                    assert(m.scopes[m.scopes.len() - 1] == m.scopes.last());
                    lemma_call_closed(m.graph, path, m.scopes.last(), name@, place@, None);
                }
            },
        }
        assert forall|k: int| 0 <= k < r.scopes.len() implies has_node(
            r.graph,
            #[trigger] r.scopes[k],
        ) by {
            if k < m.scopes.len() {
                assert(r.scopes[k] == m.scopes[k]);
                crate::graph::lemma_more_nodes(m.graph, r.graph, m.scopes[k]);
            }
        }
    }
}

/// How the functions of a file are found.
#[derive(Debug, Clone, Copy, PartialEq, Eq, Structural)]
pub enum GraphSource {
    /// By the patterns of a language.
    Patterns(SourceLanguage),
    /// By a parser for scripts.
    Script,
}

/// How the functions of a file are found, by its extension.
pub open spec fn source_of(path: Seq<char>) -> Option<GraphSource> {
    match extension_of(path) {
        Some(e) => {
            let ext = ascii_lower(e);
            if ext == "rs"@ {
                Some(GraphSource::Patterns(SourceLanguage::Rust))
            } else if ext == "py"@ || ext == "pyw"@ {
                Some(GraphSource::Patterns(SourceLanguage::Python))
            } else if ext == "swift"@ {
                Some(GraphSource::Patterns(SourceLanguage::Swift))
            } else if ext == "ts"@ || ext == "tsx"@ || ext == "js"@ || ext == "jsx"@ {
                Some(GraphSource::Script)
            } else {
                None
            }
        },
        None => None,
    }
}

/// How the functions of a file are found.
pub fn graph_source(path: &str) -> (r: Option<GraphSource>)
    ensures
        r == source_of(path@),
{
    match extension(path) {
        Some(e) => {
            let lower = to_ascii_lowercase(e.as_str());
            let ext = lower.as_str();
            if same_text(ext, "rs") {
                Some(GraphSource::Patterns(SourceLanguage::Rust))
            } else if same_text(ext, "py") || same_text(ext, "pyw") {
                Some(GraphSource::Patterns(SourceLanguage::Python))
            } else if same_text(ext, "swift") {
                Some(GraphSource::Patterns(SourceLanguage::Swift))
            } else if same_text(ext, "ts") || same_text(ext, "tsx") || same_text(ext, "js")
                || same_text(ext, "jsx") {
                Some(GraphSource::Script)
            } else {
                None
            }
        },
        None => None,
    }
}

/// The extraction is the graph of the file. `script` holds what a parser met in it, where
/// the file is a script that parses.
pub open spec fn is_graph_of_file(
    r: Option<GraphExtraction>,
    path: Seq<char>,
    source: Seq<char>,
    script: Option<Seq<ScriptEvent>>,
) -> bool {
    match source_of(path) {
        Some(GraphSource::Patterns(language)) => extracts(
            r,
            graph_of(
                path,
                source_functions(language, source),
                calls_of(language, source_functions(language, source)),
            ),
        ),
        Some(GraphSource::Script) => match script {
            Some(events) => extracts(r, script_after(path, events).graph),
            None => r is None,
        },
        None => r is None,
    }
}

/// What a parser met, as a sequence.
pub open spec fn events_view(script: Option<Vec<ScriptEvent>>) -> Option<Seq<ScriptEvent>> {
    match script {
        Some(events) => Some(events@),
        None => None,
    }
}

/// The graph of a file. `script` holds what a parser met in it, where the file is a script
/// that parses.
pub fn extract_graph(relative_path: &str, source: &str, script: &Option<Vec<ScriptEvent>>) -> (r:
    Option<GraphExtraction>)
    ensures
        is_graph_of_file(r, relative_path@, source@, events_view(*script)),
{
    match graph_source(relative_path) {
        Some(GraphSource::Patterns(language)) => extract(language, relative_path, source),
        Some(GraphSource::Script) => match script {
            Some(events) => build_script_graph(relative_path, events),
            None => None,
        },
        None => None,
    }
}

/// A scope that is entered lies inside those that are open, and leaving it gives back the
/// scopes around it.
pub proof fn law_scopes_nest(path: Seq<char>, events: Seq<ScriptEvent>, enter: ScriptEvent)
    requires
        enter is Enter,
    ensures
        script_after(path, events.push(enter)).scopes.drop_last() == script_after(path, events).scopes,
        script_after(path, events.push(enter)).scopes.len() == script_after(
            path,
            events,
        ).scopes.len() + 1,
        script_after(path, events.push(enter).push(ScriptEvent::Leave)).scopes == script_after(
            path,
            events,
        ).scopes,
        script_after(path, events.push(enter).push(ScriptEvent::Leave)).graph == script_after(
            path,
            events.push(enter),
        ).graph,
        script_after(path, Seq::empty()).scopes == seq![file_id(path)],
{
    let all = events.push(enter);
    assert(all.drop_last() =~= events);
    assert(all.push(ScriptEvent::Leave).drop_last() =~= all);
    assert(script_after(path, all).scopes.drop_last() =~= script_after(path, events).scopes);
}

/// A scope that begins has a node with its kind and place, of that name where it has one, and
/// what is met next is met in it.
pub proof fn law_scope_node(path: Seq<char>, events: Seq<ScriptEvent>, enter: ScriptEvent)
    ensures
        enter matches ScriptEvent::Enter {
            scope,
            name,
            params,
            is_async,
            is_generator,
            start,
            end,
        } ==> {
            let before = script_after(path, events);
            let after = script_after(path, events.push(enter));
            let n = after.graph.nodes.last();
            &&& after.graph.nodes.len() == before.graph.nodes.len() + 1
            &&& after.scopes.last() == n.id
            &&& n.path == Some(path)
            &&& n.range_start == Some(start)
            &&& n.range_end == Some(end)
            &&& scope is Function ==> n.kind == "function"@ && n.name == name@
            &&& scope is Method ==> n.kind == "method"@ && n.name == name@
            &&& scope is Constructor ==> n.kind == "constructor"@ && n.name == "constructor"@
            &&& scope is Lambda ==> n.kind == "lambda"@ && n.name == "lambda_"@ + decimal(
                before.graph.nodes.len(),
            )
            &&& n.signature == Some(n.name + "("@ + decimal(params as nat) + " params)"@)
        },
{
    assert(events.push(enter).drop_last() =~= events);
}

/// A call is an edge from the innermost scope that is open; with no scope open the name is
/// known, but nobody calls it.
pub proof fn law_calls_from_scope(
    path: Seq<char>,
    events: Seq<ScriptEvent>,
    name: String,
    place: String,
)
    ensures
        ({
            let call = ScriptEvent::Call { name, place };
            let before = script_after(path, events);
            let after = script_after(path, events.push(call));
            &&& after.scopes == before.scopes
            &&& before.scopes.len() > 0 ==> after.graph.edges.len() == before.graph.edges.len() + 1
                && after.graph.edges.last().source_id == before.scopes.last()
                && after.graph.edges.last().edge_type == "calls"@
            &&& before.scopes.len() == 0 ==> after.graph.edges == before.graph.edges
        }),
{
    let call = ScriptEvent::Call { name, place };
    assert(events.push(call).drop_last() =~= events);
}

/// What a scope's node carries says first whether it is asynchronous, and at its end whether
/// it is a generator.
pub proof fn law_scope_metadata(is_async: bool, is_generator: bool)
    ensures
        "{\"async\":true"@.is_prefix_of(scope_metadata(is_async, is_generator)) <==> is_async,
        "{\"async\":false"@.is_prefix_of(scope_metadata(is_async, is_generator)) <==> !is_async,
        "\"generator\":true}"@.is_suffix_of(scope_metadata(is_async, is_generator))
            <==> is_generator,
        "\"generator\":false}"@.is_suffix_of(scope_metadata(is_async, is_generator))
            <==> !is_generator,
{
    reveal_strlit("{\"async\":true,\"generator\":true}");
    reveal_strlit("{\"async\":true,\"generator\":false}");
    reveal_strlit("{\"async\":false,\"generator\":true}");
    reveal_strlit("{\"async\":false,\"generator\":false}");
    reveal_strlit("{\"async\":true");
    reveal_strlit("{\"async\":false");
    reveal_strlit("\"generator\":true}");
    reveal_strlit("\"generator\":false}");
    let m = scope_metadata(is_async, is_generator);
    let yes = "{\"async\":true"@;
    let no = "{\"async\":false"@;
    let generates = "\"generator\":true}"@;
    let plain = "\"generator\":false}"@;
    if is_async {
        assert(yes =~= m.subrange(0, yes.len() as int));
        assert(m[9] == 't' && no[9] == 'f' && m.subrange(0, no.len() as int)[9] == m[9]);
    } else {
        assert(no =~= m.subrange(0, no.len() as int));
        assert(m[9] == 'f' && yes[9] == 't' && m.subrange(0, yes.len() as int)[9] == m[9]);
    }
    let n = m.len() as int;
    if is_generator {
        assert(generates =~= m.subrange(n - generates.len(), n));
        assert(m[n - 3] == 'u' && plain[plain.len() - 3] == 's' && m.subrange(
            n - plain.len(),
            n,
        )[plain.len() - 3] == m[n - 3]);
    } else {
        assert(plain =~= m.subrange(n - plain.len(), n));
        assert(m[n - 3] == 's' && generates[generates.len() - 3] == 'u' && m.subrange(
            n - generates.len(),
            n,
        )[generates.len() - 3] == m[n - 3]);
    }
}

/// Each extension leads to the way in which its files are read, in whatever case it is
/// written, and no other file is read.
pub proof fn law_sources(path: Seq<char>)
    ensures
        extension_of(path) is None ==> source_of(path) is None,
        extension_of(path) matches Some(e) ==> (source_of(path) == Some(
            GraphSource::Patterns(SourceLanguage::Rust),
        ) <==> ascii_lower(e) == "rs"@),
        extension_of(path) matches Some(e) ==> (source_of(path) == Some(
            GraphSource::Patterns(SourceLanguage::Python),
        ) <==> ascii_lower(e) == "py"@ || ascii_lower(e) == "pyw"@),
        extension_of(path) matches Some(e) ==> (source_of(path) == Some(
            GraphSource::Patterns(SourceLanguage::Swift),
        ) <==> ascii_lower(e) == "swift"@),
        extension_of(path) matches Some(e) ==> (source_of(path) == Some(GraphSource::Script)
            <==> ascii_lower(e) == "ts"@ || ascii_lower(e) == "tsx"@ || ascii_lower(e) == "js"@
            || ascii_lower(e) == "jsx"@),
{
    reveal_strlit("rs");
    reveal_strlit("py");
    reveal_strlit("pyw");
    reveal_strlit("swift");
    reveal_strlit("ts");
    reveal_strlit("tsx");
    reveal_strlit("js");
    reveal_strlit("jsx");
    assert("rs"@[0] != "py"@[0] && "rs"@[0] != "ts"@[0] && "rs"@[0] != "js"@[0]);
    assert("py"@[0] != "ts"@[0] && "py"@[0] != "js"@[0]);
    assert("pyw"@[0] != "tsx"@[0] && "pyw"@[0] != "jsx"@[0]);
    assert("rs"@.len() == 2 && "py"@.len() == 2 && "ts"@.len() == 2 && "js"@.len() == 2);
    assert("pyw"@.len() == 3 && "tsx"@.len() == 3 && "jsx"@.len() == 3 && "swift"@.len() == 5);
}

} // verus!
