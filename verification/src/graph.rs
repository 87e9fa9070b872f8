//! The graph of a source file: its functions, and which function calls which name.

use vstd::prelude::*;
use vstd::utf8::encode_utf8;
use crate::bundle_graph::text_of;
use crate::decimal::{decimal, decimal_of, push_decimal};
use crate::digest::{sha256_hex, sha256_text};
use crate::pieces::{push_text, texts};
use crate::text::same_text;

verus! {

/// A node: a file, a function or a name that is called.
#[derive(Debug)]
pub struct GraphNode {
    pub id: String,
    pub path: Option<String>,
    pub kind: String,
    pub name: String,
    pub signature: Option<String>,
    pub range_start: Option<i64>,
    pub range_end: Option<i64>,
    /// JSON text.
    pub metadata: Option<String>,
}

/// An edge: a call.
#[derive(Debug)]
pub struct GraphEdge {
    pub id: String,
    pub source_id: String,
    pub target_id: String,
    pub edge_type: String,
    pub source_path: Option<String>,
    pub target_path: Option<String>,
    /// JSON text.
    pub metadata: Option<String>,
}

/// The graph of one file.
#[derive(Debug)]
pub struct GraphExtraction {
    pub nodes: Vec<GraphNode>,
    pub edges: Vec<GraphEdge>,
}

/// A function of a source file. Offsets count bytes.
#[derive(Debug)]
pub struct FoundFunction {
    pub name: String,
    pub signature: String,
    pub start: usize,
    pub body_start: usize,
    pub body_end: usize,
    pub body: String,
    pub metadata: Option<String>,
}

/// A call: the name that is called, and its byte offset in the file.
#[derive(Debug)]
pub struct CallSite {
    pub name: String,
    pub offset: usize,
}

// ---------------------------------------------------------------------------
// Identifiers
// ---------------------------------------------------------------------------

/// What is hashed for an identifier: the parts, with a byte that no text holds behind
/// each.
pub open spec fn id_bytes(parts: Seq<Seq<char>>) -> Seq<u8>
    decreases parts.len(),
{
    if parts.len() == 0 {
        Seq::empty()
    } else {
        id_bytes(parts.drop_last()) + encode_utf8(parts.last()) + seq![0xffu8]
    }
}

/// The identifier that the parts make.
pub open spec fn stable_id_of(parts: Seq<Seq<char>>) -> Seq<char> {
    sha256_text(id_bytes(parts))
}

/// The identifier that the parts make.
pub fn stable_id(parts: &Vec<String>) -> (r: String)
    ensures
        r@ == stable_id_of(texts(parts@)),
{
    let ghost all = texts(parts@);
    let mut bytes: Vec<u8> = Vec::new();
    let mut i: usize = 0;
    assert(bytes@ =~= id_bytes(all.take(0)));
    while i < parts.len()
        invariant
            i <= parts@.len(),
            all == texts(parts@),
            bytes@ == id_bytes(all.take(i as int)),
        decreases parts.len() - i,
    {
        let ghost before = bytes@;
        let part = parts[i].as_str().as_bytes();
        let mut k: usize = 0;
        assert(part@ == encode_utf8(parts@[i as int]@));
        assert(bytes@ =~= before + part@.take(0));
        while k < part.len()
            invariant
                k <= part@.len(),
                bytes@ == before + part@.take(k as int),
            decreases part.len() - k,
        {
            bytes.push(part[k]);
            assert(part@.take(k + 1) =~= part@.take(k as int).push(part@[k as int]));
            assert(bytes@ =~= before + part@.take(k + 1));
            k += 1;
        }
        bytes.push(0xffu8);
        proof {
            assert(part@.take(k as int) =~= part@);
            assert(all.take(i + 1).drop_last() =~= all.take(i as int));
            assert(all.take(i + 1).last() == parts@[i as int]@);
            assert(bytes@ =~= before + part@ + seq![0xffu8]);
        }
        i += 1;
    }
    assert(all.take(i as int) =~= all);
    sha256_hex(bytes.as_slice())
}

/// No byte of a text is 255.
pub proof fn lemma_no_separator(s: Seq<char>)
    ensures
        forall|i: int| 0 <= i < encode_utf8(s).len() ==> #[trigger] encode_utf8(s)[i] != 0xffu8,
    decreases s.len(),
{
    if s.len() > 0 {
        lemma_no_separator(s.drop_first());
        let c = s[0] as u32;
        assert((c & 0x7F) as u8 != 0xffu8) by (bit_vector);
        assert((0xC0 | ((c >> 6) & 0x1F) as u8) != 0xffu8) by (bit_vector);
        assert((0xE0 | ((c >> 12) & 0x0F) as u8) != 0xffu8) by (bit_vector);
        assert((0xF0 | ((c >> 18) & 0x07) as u8) != 0xffu8) by (bit_vector);
        assert((0x80 | (c & 0x3F) as u8) != 0xffu8) by (bit_vector);
        assert((0x80 | ((c >> 6) & 0x3F) as u8) != 0xffu8) by (bit_vector);
        assert((0x80 | ((c >> 12) & 0x3F) as u8) != 0xffu8) by (bit_vector);
        vstd::utf8::char_is_scalar(s[0]);
        let head = vstd::utf8::encode_scalar(c);
        assert forall|i: int| 0 <= i < head.len() implies head[i] != 0xffu8 by {}
        assert(encode_utf8(s) == head + encode_utf8(s.drop_first()));
    }
}

/// Where the bytes of a text followed by 255 begin two sequences, the texts are the same.
proof fn lemma_last_part(a: Seq<u8>, x: Seq<char>, b: Seq<u8>, y: Seq<char>)
    requires
        a + encode_utf8(x) + seq![0xffu8] == b + encode_utf8(y) + seq![0xffu8],
        a.len() > 0 ==> a.last() == 0xffu8,
        b.len() > 0 ==> b.last() == 0xffu8,
    ensures
        a == b,
        x == y,
{
    let ex = encode_utf8(x);
    let ey = encode_utf8(y);
    let s = a + ex + seq![0xffu8];
    let t = b + ey + seq![0xffu8];
    lemma_no_separator(x);
    lemma_no_separator(y);
    assert(s.len() == t.len());
    if ex.len() < ey.len() {
        assert(a.len() > b.len());
        let p = a.len() - 1;
        assert(s[p] == 0xffu8);
        assert(t[p] == ey[p - b.len()]);
    } else if ey.len() < ex.len() {
        assert(b.len() > a.len());
        let p = b.len() - 1;
        assert(t[p] == 0xffu8);
        assert(s[p] == ex[p - a.len()]);
    }
    assert(a =~= s.take(a.len() as int));
    assert(b =~= t.take(b.len() as int));
    assert(ex =~= s.subrange(a.len() as int, (a.len() + ex.len()) as int));
    assert(ey =~= t.subrange(b.len() as int, (b.len() + ey.len()) as int));
    vstd::utf8::encode_utf8_decode_utf8(x);
    vstd::utf8::encode_utf8_decode_utf8(y);
}

/// Different parts are hashed as different bytes.
pub proof fn law_id_bytes_injective(a: Seq<Seq<char>>, b: Seq<Seq<char>>)
    requires
        id_bytes(a) == id_bytes(b),
    ensures
        a == b,
    decreases a.len(),
{
    if a.len() == 0 || b.len() == 0 {
        if a.len() > 0 {
            assert(id_bytes(a).len() > 0);
        }
        if b.len() > 0 {
            assert(id_bytes(b).len() > 0);
        }
        assert(a =~= b);
    } else {
        let x = id_bytes(a.drop_last());
        let y = id_bytes(b.drop_last());
        if a.drop_last().len() > 0 {
            assert(x.last() == 0xffu8);
        }
        if b.drop_last().len() > 0 {
            assert(y.last() == 0xffu8);
        }
        lemma_last_part(x, a.last(), y, b.last());
        law_id_bytes_injective(a.drop_last(), b.drop_last());
        assert(a =~= a.drop_last().push(a.last()));
        assert(b =~= b.drop_last().push(b.last()));
    }
}

// ---------------------------------------------------------------------------
// The model
// ---------------------------------------------------------------------------

/// A node by its texts.
pub struct NodeModel {
    pub id: Seq<char>,
    pub path: Option<Seq<char>>,
    pub kind: Seq<char>,
    pub name: Seq<char>,
    pub signature: Option<Seq<char>>,
    pub range_start: Option<i64>,
    pub range_end: Option<i64>,
    pub metadata: Option<Seq<char>>,
}

/// An edge by its texts.
pub struct EdgeModel {
    pub id: Seq<char>,
    pub source_id: Seq<char>,
    pub target_id: Seq<char>,
    pub edge_type: Seq<char>,
    pub source_path: Option<Seq<char>>,
    pub target_path: Option<Seq<char>>,
    pub metadata: Option<Seq<char>>,
}

/// A function by its texts.
pub struct FunctionModel {
    pub name: Seq<char>,
    pub signature: Seq<char>,
    pub start: usize,
    pub body_start: usize,
    pub body_end: usize,
    pub body: Seq<char>,
    pub metadata: Option<Seq<char>>,
}

/// A graph under construction: its nodes and edges, and for each name that was met the
/// identifier of the node that stands for it.
pub struct GraphModel {
    pub nodes: Seq<NodeModel>,
    pub edges: Seq<EdgeModel>,
    pub names: Seq<Seq<char>>,
    pub ids: Seq<Seq<char>>,
}

pub open spec fn node_model(n: GraphNode) -> NodeModel {
    NodeModel {
        id: n.id@,
        path: text_of(n.path),
        kind: n.kind@,
        name: n.name@,
        signature: text_of(n.signature),
        range_start: n.range_start,
        range_end: n.range_end,
        metadata: text_of(n.metadata),
    }
}

pub open spec fn edge_model(e: GraphEdge) -> EdgeModel {
    EdgeModel {
        id: e.id@,
        source_id: e.source_id@,
        target_id: e.target_id@,
        edge_type: e.edge_type@,
        source_path: text_of(e.source_path),
        target_path: text_of(e.target_path),
        metadata: text_of(e.metadata),
    }
}

pub open spec fn function_model(f: FoundFunction) -> FunctionModel {
    FunctionModel {
        name: f.name@,
        signature: f.signature@,
        start: f.start,
        body_start: f.body_start,
        body_end: f.body_end,
        body: f.body@,
        metadata: text_of(f.metadata),
    }
}

pub open spec fn node_models(s: Seq<GraphNode>) -> Seq<NodeModel> {
    Seq::new(s.len(), |i: int| node_model(s[i]))
}

pub open spec fn edge_models(s: Seq<GraphEdge>) -> Seq<EdgeModel> {
    Seq::new(s.len(), |i: int| edge_model(s[i]))
}

pub open spec fn function_models(s: Seq<FoundFunction>) -> Seq<FunctionModel> {
    Seq::new(s.len(), |i: int| function_model(s[i]))
}

/// A call by its name and offset.
pub open spec fn call_models(s: Seq<CallSite>) -> Seq<(Seq<char>, usize)> {
    Seq::new(s.len(), |i: int| (s[i].name@, s[i].offset))
}

/// The lists of calls by their names and offsets.
pub open spec fn call_lists(s: Seq<Vec<CallSite>>) -> Seq<Seq<(Seq<char>, usize)>> {
    Seq::new(s.len(), |i: int| call_models(s[i]@))
}

/// The identifier of a file's node.
pub open spec fn file_id(path: Seq<char>) -> Seq<char> {
    stable_id_of(seq!["file"@, path])
}

/// The node of a file.
pub open spec fn file_node(path: Seq<char>) -> NodeModel {
    NodeModel {
        id: file_id(path),
        path: Some(path),
        kind: "file"@,
        name: path,
        signature: None,
        range_start: None,
        range_end: None,
        metadata: None,
    }
}

/// The graph of a file in which nothing was found yet.
pub open spec fn new_graph(path: Seq<char>) -> GraphModel {
    GraphModel {
        nodes: seq![file_node(path)],
        edges: Seq::empty(),
        names: Seq::empty(),
        ids: Seq::empty(),
    }
}

/// The identifier that stands for a name, where the name was met.
pub open spec fn id_for(names: Seq<Seq<char>>, ids: Seq<Seq<char>>, name: Seq<char>) -> Option<
    Seq<char>,
>
    decreases names.len(),
{
    if names.len() == 0 || ids.len() == 0 {
        None
    } else if names.last() == name {
        Some(ids.last())
    } else {
        id_for(names.drop_last(), ids.drop_last(), name)
    }
}

/// The graph with a further node of a file, which its name stands for unless the name
/// was met before.
pub open spec fn with_definition(g: GraphModel, node: NodeModel) -> GraphModel {
    if id_for(g.names, g.ids, node.name) is Some {
        GraphModel { nodes: g.nodes.push(node), ..g }
    } else {
        GraphModel {
            nodes: g.nodes.push(node),
            edges: g.edges,
            names: g.names.push(node.name),
            ids: g.ids.push(node.id),
        }
    }
}

/// The node of a name that is defined nowhere in the file.
pub open spec fn symbol_node(name: Seq<char>) -> NodeModel {
    NodeModel {
        id: stable_id_of(seq!["symbol"@, name]),
        path: None,
        kind: "symbol"@,
        name,
        signature: None,
        range_start: None,
        range_end: None,
        metadata: None,
    }
}

/// The graph in which the name has a node.
pub open spec fn with_symbol(g: GraphModel, name: Seq<char>) -> GraphModel {
    if id_for(g.names, g.ids, name) is Some {
        g
    } else {
        with_definition(g, symbol_node(name))
    }
}

/// The identifier of a name's node, once it has one.
pub open spec fn target_in(g: GraphModel, name: Seq<char>) -> Seq<char> {
    match id_for(g.names, g.ids, name) {
        Some(id) => id,
        None => symbol_node(name).id,
    }
}

/// The edge of a call. `place` is what tells calls of the same name apart.
pub open spec fn call_edge(
    path: Seq<char>,
    scope: Seq<char>,
    target: Seq<char>,
    place: Seq<char>,
    metadata: Option<Seq<char>>,
) -> EdgeModel {
    EdgeModel {
        id: stable_id_of(seq!["edge"@, "calls"@, scope, target, place]),
        source_id: scope,
        target_id: target,
        edge_type: "calls"@,
        source_path: Some(path),
        target_path: None,
        metadata,
    }
}

/// The graph with a further call.
pub open spec fn with_call(
    g: GraphModel,
    path: Seq<char>,
    scope: Seq<char>,
    name: Seq<char>,
    place: Seq<char>,
    metadata: Option<Seq<char>>,
) -> GraphModel {
    let h = with_symbol(g, name);
    GraphModel {
        edges: h.edges.push(call_edge(path, scope, target_in(g, name), place, metadata)),
        ..h
    }
}

/// What the edge of a call at an offset carries.
pub open spec fn offset_metadata(offset: nat) -> Seq<char> {
    "{\"offset\":"@ + decimal(offset) + "}"@
}

/// The graph with the calls of one function.
pub open spec fn with_calls(
    g: GraphModel,
    path: Seq<char>,
    scope: Seq<char>,
    calls: Seq<(Seq<char>, usize)>,
) -> GraphModel
    decreases calls.len(),
{
    if calls.len() == 0 {
        g
    } else {
        let h = with_calls(g, path, scope, calls.drop_last());
        let (name, offset) = calls.last();
        if name.len() == 0 {
            h
        } else {
            with_call(
                h,
                path,
                scope,
                name,
                decimal(offset as nat),
                Some(offset_metadata(offset as nat)),
            )
        }
    }
}

/// The identifier of a function's node.
pub open spec fn function_id(path: Seq<char>, f: FunctionModel) -> Seq<char> {
    stable_id_of(seq!["function"@, path, f.name, decimal(f.start as nat)])
}

/// The node of a function.
pub open spec fn function_node(path: Seq<char>, f: FunctionModel) -> NodeModel {
    NodeModel {
        id: function_id(path, f),
        path: Some(path),
        kind: "function"@,
        name: f.name,
        signature: Some(f.signature),
        range_start: Some(f.start as i64),
        range_end: Some(f.body_end as i64),
        metadata: f.metadata,
    }
}

/// The graph of a file with these functions, each with its calls.
pub open spec fn graph_of(
    path: Seq<char>,
    functions: Seq<FunctionModel>,
    calls: Seq<Seq<(Seq<char>, usize)>>,
) -> GraphModel
    decreases functions.len(),
{
    if functions.len() == 0 {
        new_graph(path)
    } else {
        let g = graph_of(path, functions.drop_last(), calls);
        let f = functions.last();
        with_calls(
            with_definition(g, function_node(path, f)),
            path,
            function_id(path, f),
            calls[functions.len() - 1],
        )
    }
}

/// The extraction holds the nodes and edges of the graph; there is none where nothing but
/// the file was found.
pub open spec fn extracts(r: Option<GraphExtraction>, g: GraphModel) -> bool {
    match r {
        Some(x) => g.nodes.len() > 1 && node_models(x.nodes@) == g.nodes && edge_models(x.edges@)
            == g.edges,
        None => g.nodes.len() <= 1,
    }
}

/// A node has that identifier.
pub open spec fn has_node(g: GraphModel, id: Seq<char>) -> bool {
    exists|k: int| 0 <= k < g.nodes.len() && (#[trigger] g.nodes[k]).id == id
}

/// What the graph refers to is in it: every name that was met stands for a node, and both
/// ends of every edge are nodes.
pub open spec fn is_closed(g: GraphModel) -> bool {
    &&& g.names.len() == g.ids.len()
    &&& forall|k: int| 0 <= k < g.ids.len() ==> has_node(g, #[trigger] g.ids[k])
    &&& forall|k: int|
        0 <= k < g.edges.len() ==> has_node(g, (#[trigger] g.edges[k]).source_id) && has_node(
            g,
            g.edges[k].target_id,
        )
}

/// What has a node keeps it when nodes are added.
pub proof fn lemma_more_nodes(g: GraphModel, h: GraphModel, id: Seq<char>)
    requires
        has_node(g, id),
        g.nodes.is_prefix_of(h.nodes),
    ensures
        has_node(h, id),
{
    let k = choose|k: int| 0 <= k < g.nodes.len() && (#[trigger] g.nodes[k]).id == id;
    assert(h.nodes[k] == g.nodes[k]);
}

proof fn lemma_id_for(names: Seq<Seq<char>>, ids: Seq<Seq<char>>, name: Seq<char>)
    requires
        names.len() == ids.len(),
    ensures
        id_for(names, ids, name) matches Some(id) ==> ids.contains(id),
    decreases names.len(),
{
    if names.len() > 0 {
        lemma_id_for(names.drop_last(), ids.drop_last(), name);
        if names.last() == name {
            assert(ids[ids.len() - 1] == ids.last());
        } else if let Some(id) = id_for(names, ids, name) {
            let k = choose|k: int| 0 <= k < ids.drop_last().len() && ids.drop_last()[k] == id;
            assert(ids[k] == id);
        }
    }
}

/// A further node leaves nothing open.
pub proof fn lemma_definition_closed(g: GraphModel, node: NodeModel)
    requires
        is_closed(g),
    ensures
        is_closed(with_definition(g, node)),
        has_node(with_definition(g, node), node.id),
        g.nodes.is_prefix_of(with_definition(g, node).nodes),
{
    let h = with_definition(g, node);
    assert(h.nodes[h.nodes.len() - 1] == node);
    assert(g.nodes.is_prefix_of(h.nodes));
    assert forall|k: int| 0 <= k < h.ids.len() implies has_node(h, #[trigger] h.ids[k]) by {
        if k < g.ids.len() {
            lemma_more_nodes(g, h, g.ids[k]);
        }
    }
    assert forall|k: int| 0 <= k < h.edges.len() implies has_node(
        h,
        (#[trigger] h.edges[k]).source_id,
    ) && has_node(h, h.edges[k].target_id) by {
        lemma_more_nodes(g, h, g.edges[k].source_id);
        lemma_more_nodes(g, h, g.edges[k].target_id);
    }
}

/// A further call between a node and a name leaves nothing open.
pub proof fn lemma_call_closed(
    g: GraphModel,
    path: Seq<char>,
    scope: Seq<char>,
    name: Seq<char>,
    place: Seq<char>,
    metadata: Option<Seq<char>>,
)
    requires
        is_closed(g),
        has_node(g, scope),
    ensures
        is_closed(with_call(g, path, scope, name, place, metadata)),
        g.nodes.is_prefix_of(with_call(g, path, scope, name, place, metadata).nodes),
{
    let h = with_symbol(g, name);
    let r = with_call(g, path, scope, name, place, metadata);
    lemma_id_for(g.names, g.ids, name);
    lemma_definition_closed(g, symbol_node(name));
    if let Some(id) = id_for(g.names, g.ids, name) {
        let k = choose|k: int| 0 <= k < g.ids.len() && g.ids[k] == id;
        assert(has_node(g, g.ids[k]));
    }
    assert(g.nodes.is_prefix_of(h.nodes));
    assert(has_node(h, target_in(g, name)));
    lemma_more_nodes(g, h, scope);
    assert(r.nodes == h.nodes);
    lemma_more_nodes(h, r, scope);
    lemma_more_nodes(h, r, target_in(g, name));
    assert forall|k: int| 0 <= k < r.ids.len() implies has_node(r, #[trigger] r.ids[k]) by {
        lemma_more_nodes(h, r, h.ids[k]);
    }
    assert forall|k: int| 0 <= k < r.edges.len() implies has_node(
        r,
        (#[trigger] r.edges[k]).source_id,
    ) && has_node(r, r.edges[k].target_id) by {
        if k < h.edges.len() {
            lemma_more_nodes(h, r, h.edges[k].source_id);
            lemma_more_nodes(h, r, h.edges[k].target_id);
        }
    }
}

proof fn lemma_calls_closed(
    g: GraphModel,
    path: Seq<char>,
    scope: Seq<char>,
    calls: Seq<(Seq<char>, usize)>,
)
    requires
        is_closed(g),
        has_node(g, scope),
    ensures
        is_closed(with_calls(g, path, scope, calls)),
        g.nodes.is_prefix_of(with_calls(g, path, scope, calls).nodes),
    decreases calls.len(),
{
    if calls.len() > 0 {
        lemma_calls_closed(g, path, scope, calls.drop_last());
        let h = with_calls(g, path, scope, calls.drop_last());
        let (name, offset) = calls.last();
        lemma_more_nodes(g, h, scope);
        lemma_call_closed(
            h,
            path,
            scope,
            name,
            decimal(offset as nat),
            Some(offset_metadata(offset as nat)),
        );
    }
}

/// The graph of a file refers to nothing that is not in it.
pub proof fn law_graph_closed(
    path: Seq<char>,
    functions: Seq<FunctionModel>,
    calls: Seq<Seq<(Seq<char>, usize)>>,
)
    ensures
        is_closed(graph_of(path, functions, calls)),
    decreases functions.len(),
{
    if functions.len() > 0 {
        law_graph_closed(path, functions.drop_last(), calls);
        let g = graph_of(path, functions.drop_last(), calls);
        let f = functions.last();
        let node = function_node(path, f);
        lemma_definition_closed(g, node);
        lemma_calls_closed(
            with_definition(g, node),
            path,
            function_id(path, f),
            calls[functions.len() - 1],
        );
    }
}

// ---------------------------------------------------------------------------
// Building
// ---------------------------------------------------------------------------

/// A graph under construction.
pub struct GraphBuilder {
    file_path: String,
    nodes: Vec<GraphNode>,
    edges: Vec<GraphEdge>,
    names: Vec<String>,
    ids: Vec<String>,
}

impl GraphBuilder {
    /// The path of the file.
    pub closed spec fn path(&self) -> Seq<char> {
        self.file_path@
    }

    /// The graph so far.
    pub closed spec fn model(&self) -> GraphModel {
        GraphModel {
            nodes: node_models(self.nodes@),
            edges: edge_models(self.edges@),
            names: texts(self.names@),
            ids: texts(self.ids@),
        }
    }

    /// Every name that was met has an identifier.
    pub closed spec fn wf(&self) -> bool {
        self.names@.len() == self.ids@.len()
    }

    /// The graph of a file in which nothing was found yet.
    pub fn new(path: &str) -> (r: Self)
        ensures
            r.wf(),
            r.path() == path@,
            r.model() == new_graph(path@),
    {
        let mut parts: Vec<String> = Vec::new();
        push_text(&mut parts, "file".to_owned());
        push_text(&mut parts, path.to_owned());
        assert(texts(parts@) =~= seq!["file"@, path@]);
        let id = stable_id(&parts);
        let mut nodes: Vec<GraphNode> = Vec::new();
        nodes.push(
            GraphNode {
                id,
                path: Some(path.to_owned()),
                kind: "file".to_owned(),
                name: path.to_owned(),
                signature: None,
                range_start: None,
                range_end: None,
                metadata: None,
            },
        );
        let r = GraphBuilder {
            file_path: path.to_owned(),
            nodes,
            edges: Vec::new(),
            names: Vec::new(),
            ids: Vec::new(),
        };
        proof {
            let g = new_graph(path@);
            assert(r.model().nodes =~= g.nodes);
            assert(r.model().edges =~= g.edges);
            assert(r.model().names =~= g.names);
            assert(r.model().ids =~= g.ids);
        }
        r
    }

    /// How many nodes there are.
    pub fn node_count(&self) -> (r: usize)
        ensures
            r == self.model().nodes.len(),
    {
        self.nodes.len()
    }

    /// The identifier that stands for a name, where the name was met.
    fn find(&self, name: &str) -> (r: Option<String>)
        requires
            self.wf(),
        ensures
            text_of(r) == id_for(self.model().names, self.model().ids, name@),
    {
        let ghost names = texts(self.names@);
        let ghost ids = texts(self.ids@);
        let mut n: usize = self.names.len();
        assert(names.take(n as int) =~= names);
        assert(ids.take(n as int) =~= ids);
        while n > 0
            invariant
                n <= self.names@.len(),
                self.names@.len() == self.ids@.len(),
                names == texts(self.names@),
                ids == texts(self.ids@),
                id_for(names, ids, name@) == id_for(
                    names.take(n as int),
                    ids.take(n as int),
                    name@,
                ),
            decreases n,
        {
            proof {
                assert(names.take(n as int).last() == self.names@[n - 1]@);
                assert(ids.take(n as int).last() == self.ids@[n - 1]@);
                assert(names.take(n as int).drop_last() =~= names.take(n - 1));
                assert(ids.take(n as int).drop_last() =~= ids.take(n - 1));
            }
            if same_text(self.names[n - 1].as_str(), name) {
                return Some(self.ids[n - 1].clone());
            }
            n -= 1;
        }
        None
    }

    /// Adds a node, which its name stands for unless the name was met before.
    pub fn add_definition(&mut self, node: GraphNode)
        requires
            old(self).wf(),
        ensures
            final(self).wf(),
            final(self).path() == old(self).path(),
            final(self).model() == with_definition(old(self).model(), node_model(node)),
    {
        let ghost before = self.model();
        let known = self.find(node.name.as_str());
        let ghost added = node_model(node);
        if known.is_none() {
            let name = node.name.clone();
            let id = node.id.clone();
            push_text(&mut self.names, name);
            push_text(&mut self.ids, id);
        }
        self.nodes.push(node);
        proof {
            let g = with_definition(before, added);
            assert(self.model().nodes =~= g.nodes);
            assert(self.model().names =~= g.names);
            assert(self.model().ids =~= g.ids);
        }
    }

    /// Gives a name a node, and returns its identifier.
    fn ensure_symbol(&mut self, name: &str) -> (r: String)
        requires
            old(self).wf(),
        ensures
            final(self).wf(),
            final(self).path() == old(self).path(),
            final(self).model() == with_symbol(old(self).model(), name@),
            r@ == target_in(old(self).model(), name@),
    {
        if let Some(id) = self.find(name) {
            return id;
        }
        let mut parts: Vec<String> = Vec::new();
        push_text(&mut parts, "symbol".to_owned());
        push_text(&mut parts, name.to_owned());
        assert(texts(parts@) =~= seq!["symbol"@, name@]);
        let id = stable_id(&parts);
        let node = GraphNode {
            id: id.clone(),
            path: None,
            kind: "symbol".to_owned(),
            name: name.to_owned(),
            signature: None,
            range_start: None,
            range_end: None,
            metadata: None,
        };
        assert(node_model(node) == symbol_node(name@));
        self.add_definition(node);
        id
    }

    /// Gives a name a node.
    pub fn add_symbol(&mut self, name: &str)
        requires
            old(self).wf(),
        ensures
            final(self).wf(),
            final(self).path() == old(self).path(),
            final(self).model() == with_symbol(old(self).model(), name@),
    {
        let target = self.ensure_symbol(name);
    }

    /// Adds a call.
    pub fn add_call(&mut self, scope: &str, name: &str, place: &str, metadata: Option<String>)
        requires
            old(self).wf(),
        ensures
            final(self).wf(),
            final(self).path() == old(self).path(),
            final(self).model() == with_call(
                old(self).model(),
                old(self).path(),
                scope@,
                name@,
                place@,
                text_of(metadata),
            ),
    {
        let ghost before = self.model();
        let target = self.ensure_symbol(name);
        let ghost middle = self.model();
        let mut parts: Vec<String> = Vec::new();
        push_text(&mut parts, "edge".to_owned());
        push_text(&mut parts, "calls".to_owned());
        push_text(&mut parts, scope.to_owned());
        push_text(&mut parts, target.clone());
        push_text(&mut parts, place.to_owned());
        assert(texts(parts@) =~= seq!["edge"@, "calls"@, scope@, target@, place@]);
        let id = stable_id(&parts);
        let edge = GraphEdge {
            id,
            source_id: scope.to_owned(),
            target_id: target,
            edge_type: "calls".to_owned(),
            source_path: Some(self.file_path.clone()),
            target_path: None,
            metadata,
        };
        let ghost model = edge_model(edge);
        assert(model == call_edge(
            self.path(),
            scope@,
            target_in(before, name@),
            place@,
            text_of(metadata),
        ));
        self.edges.push(edge);
        proof {
            assert(self.model().edges =~= middle.edges.push(model));
            assert(self.model().nodes == middle.nodes);
            assert(self.model().names == middle.names);
            assert(self.model().ids == middle.ids);
        }
    }

    /// The graph, unless nothing but the file was found.
    pub fn finish(self) -> (r: Option<GraphExtraction>)
        ensures
            extracts(r, self.model()),
    {
        if self.nodes.len() <= 1 {
            None
        } else {
            Some(GraphExtraction { nodes: self.nodes, edges: self.edges })
        }
    }
}

/// Adds a function, and returns its identifier.
fn add_function(builder: &mut GraphBuilder, path: &str, f: &FoundFunction) -> (r: String)
    requires
        old(builder).wf(),
    ensures
        final(builder).wf(),
        final(builder).path() == old(builder).path(),
        final(builder).model() == with_definition(
            old(builder).model(),
            function_node(path@, function_model(*f)),
        ),
        r@ == function_id(path@, function_model(*f)),
{
    let mut parts: Vec<String> = Vec::new();
    push_text(&mut parts, "function".to_owned());
    push_text(&mut parts, path.to_owned());
    push_text(&mut parts, f.name.clone());
    push_text(&mut parts, decimal_of(f.start as u64));
    assert(texts(parts@) =~= seq!["function"@, path@, f.name@, decimal(f.start as nat)]);
    let id = stable_id(&parts);
    let metadata = match &f.metadata {
        Some(text) => Some(text.clone()),
        None => None,
    };
    let node = GraphNode {
        id: id.clone(),
        path: Some(path.to_owned()),
        kind: "function".to_owned(),
        name: f.name.clone(),
        signature: Some(f.signature.clone()),
        range_start: Some(f.start as i64),
        range_end: Some(f.body_end as i64),
        metadata,
    };
    assert(node_model(node) == function_node(path@, function_model(*f)));
    builder.add_definition(node);
    id
}

/// Adds the calls of one function.
fn add_calls(builder: &mut GraphBuilder, scope: &str, calls: &Vec<CallSite>)
    requires
        old(builder).wf(),
    ensures
        final(builder).wf(),
        final(builder).path() == old(builder).path(),
        final(builder).model() == with_calls(
            old(builder).model(),
            old(builder).path(),
            scope@,
            call_models(calls@),
        ),
{
    let ghost before = builder.model();
    let ghost path = builder.path();
    let ghost all = call_models(calls@);
    let mut i: usize = 0;
    assert(all.take(0).len() == 0);
    while i < calls.len()
        invariant
            i <= calls@.len(),
            all == call_models(calls@),
            builder.wf(),
            builder.path() == path,
            builder.model() == with_calls(before, path, scope@, all.take(i as int)),
        decreases calls.len() - i,
    {
        proof {
            assert(all.take(i + 1).drop_last() =~= all.take(i as int));
            assert(all.take(i + 1).last() == (calls@[i as int].name@, calls@[i as int].offset));
        }
        if !calls[i].name.as_str().is_empty() {
            let offset: usize = calls[i].offset;
            let place = decimal_of(offset as u64);
            let mut metadata = "{\"offset\":".to_owned();
            push_decimal(&mut metadata, offset as u64);
            metadata.append("}");
            builder.add_call(scope, calls[i].name.as_str(), place.as_str(), Some(metadata));
        }
        i += 1;
    }
    assert(all.take(i as int) =~= all);
}

/// The graph of a file with these functions, each with its calls.
pub fn build_graph(path: &str, functions: &Vec<FoundFunction>, calls: &Vec<Vec<CallSite>>) -> (r:
    Option<GraphExtraction>)
    requires
        functions@.len() == calls@.len(),
    ensures
        extracts(r, graph_of(path@, function_models(functions@), call_lists(calls@))),
{
    let mut builder = GraphBuilder::new(path);
    let ghost fs = function_models(functions@);
    let ghost cs = call_lists(calls@);
    let mut i: usize = 0;
    assert(fs.take(0).len() == 0);
    while i < functions.len()
        invariant
            i <= functions@.len(),
            functions@.len() == calls@.len(),
            fs == function_models(functions@),
            cs == call_lists(calls@),
            builder.wf(),
            builder.path() == path@,
            builder.model() == graph_of(path@, fs.take(i as int), cs),
        decreases functions.len() - i,
    {
        proof {
            assert(fs.take(i + 1).drop_last() =~= fs.take(i as int));
            assert(fs.take(i + 1).last() == function_model(functions@[i as int]));
            assert(cs[i as int] == call_models(calls@[i as int]@));
        }
        let id = add_function(&mut builder, path, &functions[i]);
        add_calls(&mut builder, id.as_str(), &calls[i]);
        i += 1;
    }
    assert(fs.take(i as int) =~= fs);
    builder.finish()
}

// ---------------------------------------------------------------------------
// What the edges and nodes tell
// ---------------------------------------------------------------------------

/// A node with that identifier has that name.
pub open spec fn has_named(g: GraphModel, id: Seq<char>, name: Seq<char>) -> bool {
    exists|k: int|
        0 <= k < g.nodes.len() && (#[trigger] g.nodes[k]).id == id && g.nodes[k].name == name
}

/// Every name that was met stands for a node of that name.
pub open spec fn names_fit(g: GraphModel) -> bool {
    &&& g.names.len() == g.ids.len()
    &&& forall|k: int|
        0 <= k < g.ids.len() ==> has_named(g, #[trigger] g.ids[k], g.names[k])
}

proof fn lemma_named_stays(g: GraphModel, h: GraphModel, id: Seq<char>, name: Seq<char>)
    requires
        has_named(g, id, name),
        g.nodes.is_prefix_of(h.nodes),
    ensures
        has_named(h, id, name),
{
    let k = choose|k: int|
        0 <= k < g.nodes.len() && (#[trigger] g.nodes[k]).id == id && g.nodes[k].name == name;
    assert(h.nodes[k] == g.nodes[k]);
}

/// An identifier stands for a name only where the two were met together, and every name
/// that was met has one.
pub proof fn law_met_names(names: Seq<Seq<char>>, ids: Seq<Seq<char>>, name: Seq<char>)
    requires
        names.len() == ids.len(),
    ensures
        id_for(names, ids, name) matches Some(id) ==> exists|k: int|
            0 <= k < names.len() && #[trigger] names[k] == name && ids[k] == id,
        id_for(names, ids, name) is Some <==> names.contains(name),
    decreases names.len(),
{
    if names.len() > 0 {
        let front = names.drop_last();
        law_met_names(front, ids.drop_last(), name);
        if names.last() == name {
            assert(names[names.len() - 1] == name);
        } else {
            if let Some(id) = id_for(names, ids, name) {
                let k = choose|k: int|
                    0 <= k < front.len() && #[trigger] front[k] == name && ids.drop_last()[k] == id;
                assert(names[k] == name && ids[k] == id);
            }
            if names.contains(name) {
                let k = choose|k: int| 0 <= k < names.len() && names[k] == name;
                assert(front[k] == name);
            }
        }
    }
}

/// A definition adds its node behind the others. Its name stands for it from then on,
/// unless the name stood for another node before: the first meaning stays.
pub proof fn law_first_meaning_stays(g: GraphModel, node: NodeModel)
    requires
        names_fit(g),
    ensures
        with_definition(g, node).nodes == g.nodes.push(node),
        with_definition(g, node).edges == g.edges,
        names_fit(with_definition(g, node)),
        ({
            let h = with_definition(g, node);
            match id_for(g.names, g.ids, node.name) {
                Some(id) => id_for(h.names, h.ids, node.name) == Some(id),
                None => id_for(h.names, h.ids, node.name) == Some(node.id),
            }
        }),
{
    let h = with_definition(g, node);
    assert(g.nodes.is_prefix_of(h.nodes));
    assert(h.nodes[g.nodes.len() as int] == node);
    assert forall|k: int| 0 <= k < h.ids.len() implies has_named(
        h,
        #[trigger] h.ids[k],
        h.names[k],
    ) by {
        if k < g.ids.len() {
            assert(h.ids[k] == g.ids[k] && h.names[k] == g.names[k]);
            lemma_named_stays(g, h, g.ids[k], g.names[k]);
        }
    }
}

/// A call adds one edge behind the others: from the scope that calls to a node with the
/// name that is called. A name that was met before is not given a second node, and one that
/// was not gets one that belongs to no file.
pub proof fn law_call_edge(
    g: GraphModel,
    path: Seq<char>,
    scope: Seq<char>,
    name: Seq<char>,
    place: Seq<char>,
    metadata: Option<Seq<char>>,
)
    requires
        names_fit(g),
    ensures
        ({
            let h = with_call(g, path, scope, name, place, metadata);
            let e = h.edges.last();
            &&& names_fit(h)
            &&& h.edges.len() == g.edges.len() + 1
            &&& g.edges.is_prefix_of(h.edges)
            &&& g.nodes.is_prefix_of(h.nodes)
            &&& e.source_id == scope
            &&& has_named(h, e.target_id, name)
            &&& e.edge_type == "calls"@
            &&& e.source_path == Some(path)
            &&& e.target_path is None
            &&& e.metadata == metadata
            &&& g.names.contains(name) ==> h.nodes == g.nodes && id_for(g.names, g.ids, name)
                == Some(e.target_id)
            &&& !g.names.contains(name) ==> h.nodes.len() == g.nodes.len() + 1
                && h.nodes.last().name == name && h.nodes.last().id == e.target_id
                && h.nodes.last().path is None && h.nodes.last().kind == "symbol"@
        }),
{
    law_met_names(g.names, g.ids, name);
    let h = with_call(g, path, scope, name, place, metadata);
    assert(g.edges =~= h.edges.subrange(0, g.edges.len() as int));
    if let Some(id) = id_for(g.names, g.ids, name) {
        let k = choose|k: int|
            0 <= k < g.names.len() && #[trigger] g.names[k] == name && g.ids[k] == id;
        assert(has_named(g, g.ids[k], g.names[k]));
        lemma_named_stays(g, h, id, name);
        assert forall|j: int| 0 <= j < h.ids.len() implies has_named(
            h,
            #[trigger] h.ids[j],
            h.names[j],
        ) by {
            lemma_named_stays(g, h, g.ids[j], g.names[j]);
        }
    } else {
        let s = with_symbol(g, name);
        law_first_meaning_stays(g, symbol_node(name));
        assert(h.nodes[g.nodes.len() as int] == symbol_node(name));
        assert forall|j: int| 0 <= j < h.ids.len() implies has_named(
            h,
            #[trigger] h.ids[j],
            h.names[j],
        ) by {
            assert(has_named(s, s.ids[j], s.names[j]));
            lemma_named_stays(s, h, s.ids[j], s.names[j]);
        }
    }
}

/// The edge of one of the calls: from the scope to a node with the name that is called, and
/// with the place of the call.
pub open spec fn tells_of_call(
    g: GraphModel,
    e: EdgeModel,
    path: Seq<char>,
    scope: Seq<char>,
    call: (Seq<char>, usize),
) -> bool {
    &&& e.source_id == scope
    &&& has_named(g, e.target_id, call.0)
    &&& e.edge_type == "calls"@
    &&& e.source_path == Some(path)
    &&& e.metadata == Some("{\"offset\":"@ + decimal(call.1 as nat) + "}"@)
}

proof fn lemma_tells_stays(
    g: GraphModel,
    h: GraphModel,
    e: EdgeModel,
    path: Seq<char>,
    scope: Seq<char>,
    call: (Seq<char>, usize),
)
    requires
        tells_of_call(g, e, path, scope, call),
        g.nodes.is_prefix_of(h.nodes),
    ensures
        tells_of_call(h, e, path, scope, call),
{
    lemma_named_stays(g, h, e.target_id, call.0);
}

proof fn lemma_calls_told(
    g: GraphModel,
    path: Seq<char>,
    scope: Seq<char>,
    calls: Seq<(Seq<char>, usize)>,
)
    requires
        names_fit(g),
    ensures
        ({
            let h = with_calls(g, path, scope, calls);
            &&& names_fit(h)
            &&& g.nodes.is_prefix_of(h.nodes)
            &&& g.edges.is_prefix_of(h.edges)
            &&& forall|j: int|
                0 <= j < calls.len() && (#[trigger] calls[j]).0.len() > 0 ==> exists|k: int|
                    g.edges.len() <= k < h.edges.len() && tells_of_call(
                        h,
                        #[trigger] h.edges[k],
                        path,
                        scope,
                        calls[j],
                    )
            &&& forall|k: int|
                g.edges.len() <= k < h.edges.len() ==> exists|j: int|
                    0 <= j < calls.len() && tells_of_call(
                        h,
                        #[trigger] h.edges[k],
                        path,
                        scope,
                        #[trigger] calls[j],
                    )
        }),
    decreases calls.len(),
{
    let h = with_calls(g, path, scope, calls);
    if calls.len() > 0 {
        let front = calls.drop_last();
        let m = with_calls(g, path, scope, front);
        lemma_calls_told(g, path, scope, front);
        let (name, offset) = calls.last();
        if name.len() > 0 {
            law_call_edge(
                m,
                path,
                scope,
                name,
                decimal(offset as nat),
                Some(offset_metadata(offset as nat)),
            );
        }
        assert(m.nodes.is_prefix_of(h.nodes));
        assert(m.edges.is_prefix_of(h.edges));
        assert(g.nodes =~= h.nodes.subrange(0, g.nodes.len() as int)) by {
            assert forall|i: int| 0 <= i < g.nodes.len() implies g.nodes[i] == h.nodes[i] by {
                assert(m.nodes[i] == g.nodes[i]);
            }
        }
        assert(g.edges =~= h.edges.subrange(0, g.edges.len() as int)) by {
            assert forall|i: int| 0 <= i < g.edges.len() implies g.edges[i] == h.edges[i] by {
                assert(m.edges[i] == g.edges[i]);
            }
        }
        assert forall|j: int|
            0 <= j < calls.len() && (#[trigger] calls[j]).0.len() > 0 implies exists|k: int|
            g.edges.len() <= k < h.edges.len() && tells_of_call(
                h,
                #[trigger] h.edges[k],
                path,
                scope,
                calls[j],
            ) by {
            if j < front.len() {
                assert(front[j] == calls[j]);
                let k = choose|k: int|
                    g.edges.len() <= k < m.edges.len() && tells_of_call(
                        m,
                        #[trigger] m.edges[k],
                        path,
                        scope,
                        front[j],
                    );
                assert(h.edges[k] == m.edges[k]);
                lemma_tells_stays(m, h, m.edges[k], path, scope, front[j]);
            } else {
                assert(h.edges[m.edges.len() as int] == h.edges.last());
                assert(tells_of_call(h, h.edges.last(), path, scope, calls[j]));
            }
        }
        assert forall|k: int| g.edges.len() <= k < h.edges.len() implies exists|j: int|
            0 <= j < calls.len() && tells_of_call(
                h,
                #[trigger] h.edges[k],
                path,
                scope,
                #[trigger] calls[j],
            ) by {
            if k < m.edges.len() {
                assert(h.edges[k] == m.edges[k]);
                let j = choose|j: int|
                    0 <= j < front.len() && tells_of_call(
                        m,
                        m.edges[k],
                        path,
                        scope,
                        #[trigger] front[j],
                    );
                assert(calls[j] == front[j]);
                lemma_tells_stays(m, h, m.edges[k], path, scope, front[j]);
            } else {
                assert(h.edges[k] == h.edges.last());
                assert(tells_of_call(h, h.edges[k], path, scope, calls[calls.len() - 1]));
            }
        }
    } else {
        assert(g.nodes =~= h.nodes.subrange(0, g.nodes.len() as int));
        assert(g.edges =~= h.edges.subrange(0, g.edges.len() as int));
    }
}

/// The node of one of the functions.
pub open spec fn tells_of_function(n: NodeModel, path: Seq<char>, f: FunctionModel) -> bool {
    &&& n.name == f.name
    &&& n.kind == "function"@
    &&& n.path == Some(path)
    &&& n.signature == Some(f.signature)
    &&& n.range_start == Some(f.start as i64)
    &&& n.range_end == Some(f.body_end as i64)
    &&& n.metadata == f.metadata
}

/// The graph of a file: its first node is the file, every function has a node that tells of
/// it, and every call in a function an edge from that function's node to a node with the
/// name that is called. There is no edge without a call.
pub proof fn law_graph_tells(
    path: Seq<char>,
    functions: Seq<FunctionModel>,
    calls: Seq<Seq<(Seq<char>, usize)>>,
)
    requires
        calls.len() >= functions.len(),
    ensures
        ({
            let g = graph_of(path, functions, calls);
            &&& names_fit(g)
            &&& g.nodes.len() > 0 && g.nodes[0].kind == "file"@ && g.nodes[0].name == path
                && g.nodes[0].path == Some(path)
            &&& forall|i: int|
                0 <= i < functions.len() ==> exists|n: int|
                    0 <= n < g.nodes.len() && tells_of_function(
                        #[trigger] g.nodes[n],
                        path,
                        #[trigger] functions[i],
                    ) && g.nodes[n].id == function_id(path, functions[i])
            &&& forall|i: int, j: int|
                0 <= i < functions.len() && 0 <= j < calls[i].len() && (
                #[trigger] calls[i][j]).0.len() > 0 ==> exists|k: int|
                    0 <= k < g.edges.len() && tells_of_call(
                        g,
                        #[trigger] g.edges[k],
                        path,
                        function_id(path, functions[i]),
                        calls[i][j],
                    )
            &&& forall|k: int|
                0 <= k < g.edges.len() ==> exists|i: int, j: int|
                    0 <= i < functions.len() && 0 <= j < calls[i].len() && tells_of_call(
                        g,
                        #[trigger] g.edges[k],
                        path,
                        function_id(path, functions[i]),
                        #[trigger] calls[i][j],
                    )
        }),
    decreases functions.len(),
{
    let g = graph_of(path, functions, calls);
    if functions.len() > 0 {
        let front = functions.drop_last();
        let b = graph_of(path, front, calls);
        let f = functions.last();
        let last = functions.len() - 1;
        let node = function_node(path, f);
        let d = with_definition(b, node);
        law_graph_tells(path, front, calls);
        law_first_meaning_stays(b, node);
        lemma_calls_told(d, path, function_id(path, f), calls[last]);
        assert(b.nodes.is_prefix_of(d.nodes));
        assert forall|i: int| 0 <= i < b.nodes.len() implies #[trigger] b.nodes[i] == g.nodes[i] by {
            assert(d.nodes[i] == b.nodes[i]);
            assert(g.nodes[i] == d.nodes[i]);
        }
        assert(b.nodes =~= g.nodes.subrange(0, b.nodes.len() as int));
        assert(b.edges.is_prefix_of(g.edges));
        assert(d.nodes[b.nodes.len() as int] == node);
        assert(g.nodes[b.nodes.len() as int] == node);
        assert(g.nodes[0] == b.nodes[0]);
        assert forall|i: int| 0 <= i < functions.len() implies exists|n: int|
            0 <= n < g.nodes.len() && tells_of_function(
                #[trigger] g.nodes[n],
                path,
                #[trigger] functions[i],
            ) && g.nodes[n].id == function_id(path, functions[i]) by {
            if i < front.len() {
                assert(front[i] == functions[i]);
                let n = choose|n: int|
                    0 <= n < b.nodes.len() && tells_of_function(
                        #[trigger] b.nodes[n],
                        path,
                        front[i],
                    ) && b.nodes[n].id == function_id(path, front[i]);
                assert(g.nodes[n] == b.nodes[n]);
            } else {
                assert(tells_of_function(g.nodes[b.nodes.len() as int], path, functions[i]));
            }
        }
        assert forall|i: int, j: int|
            0 <= i < functions.len() && 0 <= j < calls[i].len() && (#[trigger] calls[i][j]).0.len()
                > 0 implies exists|k: int|
            0 <= k < g.edges.len() && tells_of_call(
                g,
                #[trigger] g.edges[k],
                path,
                function_id(path, functions[i]),
                calls[i][j],
            ) by {
            if i < front.len() {
                assert(front[i] == functions[i]);
                let k = choose|k: int|
                    0 <= k < b.edges.len() && tells_of_call(
                        b,
                        #[trigger] b.edges[k],
                        path,
                        function_id(path, front[i]),
                        calls[i][j],
                    );
                assert(d.edges[k] == b.edges[k]);
                assert(g.edges[k] == d.edges[k]);
                lemma_tells_stays(
                    b,
                    g,
                    b.edges[k],
                    path,
                    function_id(path, front[i]),
                    calls[i][j],
                );
            } else {
                let k = choose|k: int|
                    d.edges.len() <= k < g.edges.len() && tells_of_call(
                        g,
                        #[trigger] g.edges[k],
                        path,
                        function_id(path, f),
                        calls[last][j],
                    );
                assert(tells_of_call(g, g.edges[k], path, function_id(path, functions[i]), calls[i][j]));
            }
        }
        assert forall|k: int| 0 <= k < g.edges.len() implies exists|i: int, j: int|
            0 <= i < functions.len() && 0 <= j < calls[i].len() && tells_of_call(
                g,
                #[trigger] g.edges[k],
                path,
                function_id(path, functions[i]),
                #[trigger] calls[i][j],
            ) by {
            if k < b.edges.len() {
                assert(d.edges[k] == b.edges[k]);
                assert(g.edges[k] == d.edges[k]);
                let (i, j) = choose|i: int, j: int|
                    0 <= i < front.len() && 0 <= j < calls[i].len() && tells_of_call(
                        b,
                        b.edges[k],
                        path,
                        function_id(path, front[i]),
                        #[trigger] calls[i][j],
                    );
                assert(functions[i] == front[i]);
                lemma_tells_stays(
                    b,
                    g,
                    b.edges[k],
                    path,
                    function_id(path, front[i]),
                    calls[i][j],
                );
            } else {
                let j = choose|j: int|
                    0 <= j < calls[last].len() && tells_of_call(
                        g,
                        g.edges[k],
                        path,
                        function_id(path, f),
                        #[trigger] calls[last][j],
                    );
                assert(tells_of_call(
                    g,
                    g.edges[k],
                    path,
                    function_id(path, functions[last]),
                    calls[last][j],
                ));
            }
        }
    }
}

/// What is found is told, and a file in which nothing was found gives nothing: not even the
/// file's own node.
pub proof fn law_extraction(r: Option<GraphExtraction>, g: GraphModel)
    requires
        extracts(r, g),
    ensures
        r is Some <==> g.nodes.len() >= 2,
        r matches Some(x) ==> x.nodes@.len() == g.nodes.len() && x.edges@.len() == g.edges.len(),
        r matches Some(x) ==> forall|k: int|
            0 <= k < x.edges@.len() ==> (#[trigger] x.edges@[k]).source_id@ == g.edges[k].source_id
                && x.edges@[k].target_id@ == g.edges[k].target_id && x.edges@[k].id@
                == g.edges[k].id,
        r matches Some(x) ==> forall|k: int|
            0 <= k < x.nodes@.len() ==> (#[trigger] x.nodes@[k]).id@ == g.nodes[k].id
                && x.nodes@[k].name@ == g.nodes[k].name && x.nodes@[k].range_start
                == g.nodes[k].range_start && x.nodes@[k].range_end == g.nodes[k].range_end,
{
    if let Some(x) = r {
        assert forall|k: int| 0 <= k < x.edges@.len() implies (#[trigger] x.edges@[k]).source_id@
            == g.edges[k].source_id && x.edges@[k].target_id@ == g.edges[k].target_id
            && x.edges@[k].id@ == g.edges[k].id by {
            assert(edge_models(x.edges@)[k] == edge_model(x.edges@[k]));
        }
        assert forall|k: int| 0 <= k < x.nodes@.len() implies (#[trigger] x.nodes@[k]).id@
            == g.nodes[k].id && x.nodes@[k].name@ == g.nodes[k].name && x.nodes@[k].range_start
            == g.nodes[k].range_start && x.nodes@[k].range_end == g.nodes[k].range_end by {
            assert(node_models(x.nodes@)[k] == node_model(x.nodes@[k]));
        }
    }
}

} // verus!
