//! The neighbours of a node of the code graph.

use vstd::prelude::*;
use crate::decimal::decimal;
use crate::bundle_graph::{keep_metadata, text_of, valid_metadata};
use crate::pieces::{push_text, texts};

verus! {

/// Which neighbours are asked for.
#[derive(Debug, Clone, Copy, PartialEq, Eq, Structural)]
pub enum GraphNeighborDirection {
    Incoming,
    Outgoing,
    Both,
}

impl Default for GraphNeighborDirection {
    fn default() -> (r: Self)
        ensures
            r == GraphNeighborDirection::Outgoing,
    {
        GraphNeighborDirection::Outgoing
    }
}

/// What a node is found by. A path that is given but empty asks for a node without one.
#[derive(Debug)]
pub struct GraphNodeSelector {
    pub id: Option<String>,
    pub path: Option<Option<String>>,
    pub kind: Option<String>,
    pub name: String,
}

/// A request for the neighbours of a node.
#[derive(Debug)]
pub struct GraphNeighborsParams {
    pub root: Option<String>,
    pub database_name: Option<String>,
    pub node: GraphNodeSelector,
    pub direction: Option<GraphNeighborDirection>,
    pub limit: Option<u32>,
}

/// A node of the graph.
#[derive(Debug)]
pub struct GraphNodeSummary {
    pub id: String,
    pub path: Option<String>,
    pub kind: String,
    pub name: String,
    pub signature: Option<String>,
    /// JSON text.
    pub metadata: Option<String>,
}

/// An edge to a neighbour.
#[derive(Debug)]
pub struct GraphNeighborEdge {
    pub id: String,
    pub kind: String,
    /// JSON text.
    pub metadata: Option<String>,
    pub direction: NeighborDirection,
    pub neighbor: GraphNodeSummary,
}

/// The neighbours of a node.
#[derive(Debug)]
pub struct GraphNeighborsResponse {
    pub database_path: String,
    pub node: GraphNodeSummary,
    pub neighbors: Vec<GraphNeighborEdge>,
}

/// Which way an edge leads.
#[derive(Debug, Clone, Copy, PartialEq, Eq, Structural)]
pub enum NeighborDirection {
    Incoming,
    Outgoing,
}

/// Why there are no neighbours. What went wrong outside is given in words.
#[derive(Debug)]
pub enum GraphNeighborsError {
    InvalidRoot { path: String, source: String },
    DatabaseIo { path: String, source: String },
    Sqlite(String),
    NodeNotFound { descriptor: String },
    NodeAmbiguous { descriptor: String },
    Join(String),
}

impl GraphNeighborsError {
    /// The error in words.
    pub open spec fn text(&self) -> Seq<char> {
        match *self {
            GraphNeighborsError::InvalidRoot { path, source } =>
                "failed to resolve workspace root '"@ + path@ + "': "@ + source@,
            GraphNeighborsError::DatabaseIo { path, source } => "failed to access database '"@
                + path@ + "': "@ + source@,
            GraphNeighborsError::Sqlite(message) => "SQLite error: "@ + message@,
            GraphNeighborsError::NodeNotFound { descriptor } => "graph node '"@ + descriptor@
                + "' not found"@,
            GraphNeighborsError::NodeAmbiguous { descriptor } =>
                "multiple graph nodes matched descriptor '"@ + descriptor@
                + "'; please specify an id or additional filters"@,
            GraphNeighborsError::Join(message) => "blocking task panicked: "@ + message@,
        }
    }

    /// The error in words.
    pub fn message(&self) -> (r: String)
        ensures
            r@ == self.text(),
    {
        match self {
            GraphNeighborsError::InvalidRoot { path, source } => {
                let mut out = "failed to resolve workspace root '".to_owned();
                out.append(path.as_str());
                out.append("': ");
                out.append(source.as_str());
                out
            },
            GraphNeighborsError::DatabaseIo { path, source } => {
                let mut out = "failed to access database '".to_owned();
                out.append(path.as_str());
                out.append("': ");
                out.append(source.as_str());
                out
            },
            GraphNeighborsError::Sqlite(message) => {
                let mut out = "SQLite error: ".to_owned();
                out.append(message.as_str());
                out
            },
            GraphNeighborsError::NodeNotFound { descriptor } => {
                let mut out = "graph node '".to_owned();
                out.append(descriptor.as_str());
                out.append("' not found");
                out
            },
            GraphNeighborsError::NodeAmbiguous { descriptor } => {
                let mut out = "multiple graph nodes matched descriptor '".to_owned();
                out.append(descriptor.as_str());
                out.append("'; please specify an id or additional filters");
                out
            },
            GraphNeighborsError::Join(message) => {
                let mut out = "blocking task panicked: ".to_owned();
                out.append(message.as_str());
                out
            },
        }
    }
}

/// How many neighbours are listed each way: 16 where the request does not say, and never
/// more than 100.
pub fn normalize_limit(limit: Option<u32>) -> (r: usize)
    ensures
        r == match limit {
            Some(n) => if n <= 100 {
                n as usize
            } else {
                100
            },
            None => 16,
        },
{
    match limit {
        Some(n) => if n <= 100 {
            n as usize
        } else {
            100
        },
        None => 16,
    }
}

// ---------------------------------------------------------------------------
// Finding the node
// ---------------------------------------------------------------------------

/// The part of a descriptor that speaks of the path.
pub open spec fn path_part(path: Option<Option<String>>) -> Seq<char> {
    match path {
        Some(Some(p)) => ", path='"@ + p@ + "'"@,
        Some(None) => ", path=NULL"@,
        None => ""@,
    }
}

/// The part of a descriptor that speaks of the kind.
pub open spec fn kind_part(kind: Option<String>) -> Seq<char> {
    match kind {
        Some(k) => ", kind='"@ + k@ + "'"@,
        None => ""@,
    }
}

/// What a node was looked for by, in words.
pub open spec fn descriptor_of(selector: GraphNodeSelector) -> Seq<char> {
    "name='"@ + selector.name@ + "'"@ + path_part(selector.path) + kind_part(selector.kind)
}

/// What a node was looked for by, in words.
pub fn describe_selector(selector: &GraphNodeSelector) -> (r: String)
    ensures
        r@ == descriptor_of(*selector),
{
    let mut out = "name='".to_owned();
    out.append(selector.name.as_str());
    out.append("'");
    let ghost first = out@;
    match &selector.path {
        Some(Some(path)) => {
            out.append(", path='");
            out.append(path.as_str());
            out.append("'");
        },
        Some(None) => {
            out.append(", path=NULL");
        },
        None => {
            out.append("");
        },
    }
    assert(out@ =~= first + path_part(selector.path));
    let ghost second = out@;
    match &selector.kind {
        Some(kind) => {
            out.append(", kind='");
            out.append(kind.as_str());
            out.append("'");
        },
        None => {
            out.append("");
        },
    }
    assert(out@ =~= second + kind_part(selector.kind));
    out
}

/// How nodes are looked up by name.
pub const NODE_QUERY: &'static str =
    "SELECT id, path, kind, name, signature, metadata FROM code_graph_nodes WHERE name = ?1";

/// How the nodes that were found are ordered; two are enough to see that there are more.
pub const NODE_ORDER: &'static str = " ORDER BY path IS NULL, path LIMIT 2";

/// The condition on the path.
pub open spec fn path_condition(path: Option<Option<String>>) -> Seq<char> {
    match path {
        Some(Some(_)) => " AND path = ?2"@,
        Some(None) => " AND path IS NULL"@,
        None => ""@,
    }
}

/// The condition on the kind.
pub open spec fn kind_condition(path: Option<Option<String>>, kind: Option<String>) -> Seq<char> {
    match (kind, path) {
        (Some(_), Some(Some(_))) => " AND kind = ?3"@,
        (Some(_), _) => " AND kind = ?2"@,
        (None, _) => ""@,
    }
}

/// The query for a node, and the values of its parameters.
pub open spec fn node_query_of(selector: GraphNodeSelector) -> Seq<char> {
    NODE_QUERY@ + path_condition(selector.path) + kind_condition(selector.path, selector.kind)
        + NODE_ORDER@
}

/// The value that stands for the path.
pub open spec fn path_values(path: Option<Option<String>>) -> Seq<Seq<char>> {
    match path {
        Some(Some(p)) => seq![p@],
        _ => Seq::empty(),
    }
}

/// The value that stands for the kind.
pub open spec fn kind_values(kind: Option<String>) -> Seq<Seq<char>> {
    match kind {
        Some(k) => seq![k@],
        None => Seq::empty(),
    }
}

/// The values of the query's parameters.
pub open spec fn node_values_of(selector: GraphNodeSelector) -> Seq<Seq<char>> {
    seq![selector.name@] + path_values(selector.path) + kind_values(selector.kind)
}

/// The query for a node, and the values of its parameters.
pub fn node_query(selector: &GraphNodeSelector) -> (r: (String, Vec<String>))
    ensures
        r.0@ == node_query_of(*selector),
        texts(r.1@) == node_values_of(*selector),
{
    let mut query = NODE_QUERY.to_owned();
    let mut values: Vec<String> = Vec::new();
    push_text(&mut values, selector.name.clone());
    assert(texts(values@) =~= seq![selector.name@]);
    let ghost named = texts(values@);
    let mut has_path = false;
    match &selector.path {
        Some(Some(path)) => {
            query.append(" AND path = ?2");
            push_text(&mut values, path.clone());
            has_path = true;
        },
        Some(None) => {
            query.append(" AND path IS NULL");
        },
        None => {
            query.append("");
        },
    }
    let ghost placed = named + path_values(selector.path);
    assert(texts(values@) =~= placed);
    match &selector.kind {
        Some(kind) => {
            if has_path {
                query.append(" AND kind = ?3");
            } else {
                query.append(" AND kind = ?2");
            }
            push_text(&mut values, kind.clone());
        },
        None => {
            query.append("");
        },
    }
    assert(texts(values@) =~= placed + kind_values(selector.kind));
    query.append(NODE_ORDER);
    (query, values)
}

/// What is said of an identifier that no node has.
pub fn missing_id(id: &str) -> (r: GraphNeighborsError)
    ensures
        r matches GraphNeighborsError::NodeNotFound { descriptor } && descriptor@ == "id="@ + id@,
{
    let mut descriptor = "id=".to_owned();
    descriptor.append(id);
    GraphNeighborsError::NodeNotFound { descriptor }
}

/// The node that was found, where it is the only one.
pub fn choose_node(found: Vec<GraphNodeSummary>, selector: &GraphNodeSelector) -> (r: Result<
    GraphNodeSummary,
    GraphNeighborsError,
>)
    ensures
        match r {
            Ok(node) => found@.len() == 1 && node == found@[0],
            Err(GraphNeighborsError::NodeNotFound { descriptor }) => found@.len() == 0
                && descriptor@ == descriptor_of(*selector),
            Err(GraphNeighborsError::NodeAmbiguous { descriptor }) => found@.len() > 1
                && descriptor@ == descriptor_of(*selector),
            Err(_) => false,
        },
{
    let mut found = found;
    if found.len() == 0 {
        return Err(GraphNeighborsError::NodeNotFound { descriptor: describe_selector(selector) });
    }
    if found.len() > 1 {
        return Err(GraphNeighborsError::NodeAmbiguous { descriptor: describe_selector(selector) });
    }
    Ok(found.remove(0))
}

// ---------------------------------------------------------------------------
// The neighbours
// ---------------------------------------------------------------------------

/// A node as it is stored.
#[derive(Debug)]
pub struct NodeRow {
    pub id: String,
    pub path: Option<String>,
    pub kind: String,
    pub name: String,
    pub signature: Option<String>,
    pub metadata: Option<String>,
}

/// The node of a row: its metadata only where it is JSON.
pub fn node_summary(row: NodeRow) -> (r: GraphNodeSummary)
    ensures
        r.id == row.id,
        r.path == row.path,
        r.kind == row.kind,
        r.name == row.name,
        r.signature == row.signature,
        text_of(r.metadata) == valid_metadata(row.metadata),
{
    GraphNodeSummary {
        id: row.id,
        path: row.path,
        kind: row.kind,
        name: row.name,
        signature: row.signature,
        metadata: keep_metadata(row.metadata),
    }
}

/// The edge of a row to its neighbour.
pub fn neighbor_edge(
    id: String,
    kind: String,
    metadata: Option<String>,
    direction: NeighborDirection,
    neighbor: NodeRow,
) -> (r: GraphNeighborEdge)
    ensures
        r.id == id,
        r.kind == kind,
        text_of(r.metadata) == valid_metadata(metadata),
        r.direction == direction,
        r.neighbor.id == neighbor.id,
        r.neighbor.path == neighbor.path,
        r.neighbor.kind == neighbor.kind,
        r.neighbor.name == neighbor.name,
        r.neighbor.signature == neighbor.signature,
        text_of(r.neighbor.metadata) == valid_metadata(neighbor.metadata),
{
    GraphNeighborEdge {
        id,
        kind,
        metadata: keep_metadata(metadata),
        direction,
        neighbor: node_summary(neighbor),
    }
}

/// Which ways are followed, in the order in which their neighbours are listed: outgoing
/// edges where the request does not say.
pub open spec fn followed(direction: Option<GraphNeighborDirection>) -> Seq<NeighborDirection> {
    match direction {
        Some(GraphNeighborDirection::Incoming) => seq![NeighborDirection::Incoming],
        Some(GraphNeighborDirection::Both) => seq![
            NeighborDirection::Outgoing,
            NeighborDirection::Incoming,
        ],
        Some(GraphNeighborDirection::Outgoing) => seq![NeighborDirection::Outgoing],
        None => seq![NeighborDirection::Outgoing],
    }
}

/// Which ways are followed, in the order in which their neighbours are listed.
pub fn directions(direction: Option<GraphNeighborDirection>) -> (r: Vec<NeighborDirection>)
    ensures
        r@ == followed(direction),
{
    let mut out: Vec<NeighborDirection> = Vec::new();
    let selected = match direction {
        Some(d) => d,
        None => GraphNeighborDirection::default(),
    };
    match selected {
        GraphNeighborDirection::Outgoing => {
            out.push(NeighborDirection::Outgoing);
        },
        GraphNeighborDirection::Incoming => {
            out.push(NeighborDirection::Incoming);
        },
        GraphNeighborDirection::Both => {
            out.push(NeighborDirection::Outgoing);
            out.push(NeighborDirection::Incoming);
        },
    }
    assert(out@ =~= followed(direction));
    out
}

/// Asking for both ways follows each of them once.
pub proof fn law_both_ways(direction: GraphNeighborDirection)
    ensures
        followed(Some(direction)).contains(NeighborDirection::Outgoing) == (direction
            != GraphNeighborDirection::Incoming),
        followed(Some(direction)).contains(NeighborDirection::Incoming) == (direction
            != GraphNeighborDirection::Outgoing),
        followed(Some(direction)).no_duplicates(),
{
    let f = followed(Some(direction));
    assert(f[0] == NeighborDirection::Outgoing || f[0] == NeighborDirection::Incoming);
    if direction == GraphNeighborDirection::Both {
        assert(f[1] == NeighborDirection::Incoming);
    }
}

/// Every parameter of the query stands for the value at its place: the first is the name,
/// the path comes behind it where one is given, and the kind is always the last.
pub proof fn law_parameters_fit(selector: GraphNodeSelector)
    ensures
        ({
            let values = node_values_of(selector);
            &&& values[0] == selector.name@
            &&& selector.path matches Some(Some(p)) ==> values[1] == p@ && path_condition(
                selector.path,
            ) == " AND path = ?2"@
            &&& selector.path matches Some(None) ==> path_condition(selector.path)
                == " AND path IS NULL"@
            &&& selector.path is None ==> path_condition(selector.path) == ""@
            &&& selector.kind matches Some(k) ==> values.last() == k@ && values.len() >= 2
                && kind_condition(selector.path, selector.kind) == " AND kind = ?"@ + decimal(
                values.len(),
            )
            &&& selector.kind is None ==> kind_condition(selector.path, selector.kind) == ""@
            &&& values.len() == 1 + (if selector.path matches Some(Some(_)) {
                1int
            } else {
                0
            }) + (if selector.kind is Some {
                1int
            } else {
                0
            })
        }),
{
    reveal_strlit(" AND kind = ?");
    reveal_strlit(" AND kind = ?2");
    reveal_strlit(" AND kind = ?3");
    assert(decimal(2) =~= seq!['2']);
    assert(decimal(3) =~= seq!['3']);
    assert(" AND kind = ?"@ + decimal(2) =~= " AND kind = ?2"@);
    assert(" AND kind = ?"@ + decimal(3) =~= " AND kind = ?3"@);
}

/// What a node was looked for by is told in full: its name first, then its path, where one
/// was given or asked to be missing, and then its kind.
pub proof fn law_descriptor(selector: GraphNodeSelector)
    ensures
        ("name='"@ + selector.name@ + "'"@).is_prefix_of(descriptor_of(selector)),
        selector.path matches Some(Some(p)) ==> selector.kind is None ==> descriptor_of(selector)
            == "name='"@ + selector.name@ + "'"@ + (", path='"@ + p@ + "'"@),
        selector.path matches Some(None) ==> selector.kind is None ==> descriptor_of(selector)
            == "name='"@ + selector.name@ + "'"@ + ", path=NULL"@,
        selector.path is None ==> (selector.kind matches Some(k) ==> descriptor_of(selector)
            == "name='"@ + selector.name@ + "'"@ + (", kind='"@ + k@ + "'"@)),
        selector.path is None && selector.kind is None ==> descriptor_of(selector) == "name='"@
            + selector.name@ + "'"@,
{
    reveal_strlit("");
    let head = "name='"@ + selector.name@ + "'"@;
    assert(head.is_prefix_of(descriptor_of(selector))) by {
        assert(descriptor_of(selector).subrange(0, head.len() as int) =~= head);
    }
    assert(head + ""@ + ""@ =~= head);
    if let Some(k) = selector.kind {
        assert(head + ""@ + (", kind='"@ + k@ + "'"@) =~= head + (", kind='"@ + k@ + "'"@));
    }
    assert(head + path_part(selector.path) + ""@ =~= head + path_part(selector.path));
}

/// Where the request does not say, outgoing edges alone are followed; where both ways are
/// asked for, the outgoing ones come first.
pub proof fn law_ways_followed()
    ensures
        followed(None) == seq![NeighborDirection::Outgoing],
        followed(Some(GraphNeighborDirection::Both)) == seq![
            NeighborDirection::Outgoing,
            NeighborDirection::Incoming,
        ],
{
}

} // verus!
