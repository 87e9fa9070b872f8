//! What the code graph adds to a bundle: the definitions of the file, their
//! neighbours, and where to look next.

use vstd::prelude::*;
use vstd::slice::slice_subrange;
use crate::bundle::{
    BundleDefinition, BundleEdgeNeighbor, ContextBundleQuickLink, NeighborDirection, NeighborNode,
    QuickLinkType, SymbolSelector, MAX_QUICK_LINKS,
};
use crate::bundle_snippets::opt_view;
use crate::chunk::last_newline;
use crate::json::{
    has_member, is_json, is_json_object, json_member, json_object, json_parses, json_text_member,
    text_member,
};
use crate::pieces::{
    contains_text, join, joined, lines, lines_of, push_text, str_contains, str_lines, texts,
};
use crate::regexes::{capture_group, count_matches, regex_group, regex_matches};
use crate::sizes::{
    boundary, byte_length, char_at_byte, lemma_boundary_unique, lemma_size_take, utf8_size,
};
use crate::text::{
    ascii_lower, chars_of, lowercase, same_text, string_of, to_ascii_lowercase, to_lowercase, trim,
    trim_str, trimmed,
};

verus! {

/// The view of an optional string.
pub open spec fn text_of(s: Option<String>) -> Option<Seq<char>> {
    match s {
        Some(v) => Some(v@),
        None => None,
    }
}

/// An optional string as an optional string slice.
pub fn as_text(s: &Option<String>) -> (r: Option<&str>)
    ensures
        opt_view(r) == text_of(*s),
{
    match s {
        Some(v) => Some(v.as_str()),
        None => None,
    }
}

// ---------------------------------------------------------------------------
// Definitions
// ---------------------------------------------------------------------------

/// A byte offset names a place in a text of that size that is not its start.
pub open spec fn usable_offset(offset: Option<i64>, size: nat) -> bool {
    offset is Some && 0 < offset->0 <= size
}

/// The character that starts at a byte offset.
pub open spec fn char_of_byte(s: Seq<char>, at: int) -> int {
    choose|i: int| boundary(s, at, i)
}

/// A byte offset inside the text falls on a character.
pub open spec fn on_character(s: Seq<char>, offset: Option<i64>) -> bool {
    usable_offset(offset, utf8_size(s)) ==> exists|i: int| boundary(s, offset->0 as int, i)
}

/// The first line of a text.
pub open spec fn first_line(s: Seq<char>) -> Seq<char> {
    if lines_of(s).len() == 0 {
        Seq::empty()
    } else {
        lines_of(s)[0]
    }
}

/// The line in which character `i` stands, without white space at its ends.
pub open spec fn line_around(s: Seq<char>, i: int) -> Seq<char> {
    trimmed(first_line(s.skip(last_newline(s, i) + 1)))
}

/// How visible a definition is, by the line that it stands in.
pub open spec fn visibility_of(line: Seq<char>, method_of_class: bool) -> Seq<char> {
    if contains_text(line, "private"@) {
        "private"@
    } else if contains_text(line, "protected"@) {
        "protected"@
    } else if contains_text(line, "public"@) || contains_text(line, "export"@) {
        "public"@
    } else if method_of_class {
        "public"@
    } else {
        "internal"@
    }
}

/// The position of the last line feed before `end`, plus one; 0 where there is none.
fn line_start_before(s: &[char], end: usize) -> (r: usize)
    requires
        end <= s@.len(),
    ensures
        r == last_newline(s@, end as int) + 1,
        r <= end,
{
    let mut i: usize = end;
    while i > 0 && s[i - 1] != '\n'
        invariant
            i <= end <= s@.len(),
            last_newline(s@, i as int) == last_newline(s@, end as int),
        decreases i,
    {
        i -= 1;
    }
    i
}

/// How visible the definition is that starts at `range_start`: `None` where the offset
/// is missing, zero or behind the text.
pub fn determine_visibility(
    content: &str,
    range_start: Option<i64>,
    kind: &str,
    metadata: Option<&str>,
) -> (r: Option<String>)
    requires
        on_character(content@, range_start),
    ensures
        r is Some <==> usable_offset(range_start, utf8_size(content@)),
        r is Some ==> r->0@ == visibility_of(
            line_around(content@, char_of_byte(content@, range_start->0 as int)),
            kind@ == "method"@ && metadata is Some && json_member(metadata->0@, "className"@),
        ),
{
    let offset: i64 = match range_start {
        Some(v) => v,
        None => return None,
    };
    let size: usize = byte_length(content);
    if offset <= 0 || offset as u64 > size as u64 {
        return None;
    }
    let start: usize = offset as usize;
    let v = chars_of(content);
    let at = match char_at_byte(v.as_slice(), start) {
        Some(i) => i,
        None => {
            assert(false);
            return None;
        },
    };
    proof {
        lemma_boundary_unique(
            content@,
            start as int,
            at as int,
            char_of_byte(content@, start as int),
        );
    }
    let from: usize = line_start_before(v.as_slice(), at);
    let rest = slice_subrange(v.as_slice(), from, v.len());
    assert(rest@ =~= content@.skip(from as int));
    let ls = lines(rest);
    assert(texts(ls@).len() == ls@.len());
    let line = if ls.len() == 0 {
        let none = String::new();
        trim_str(none.as_str())
    } else {
        trim_str(ls[0].as_str())
    };
    assert(line@ == line_around(content@, at as int));
    if str_contains(line.as_str(), "private") {
        return Some("private".to_owned());
    }
    if str_contains(line.as_str(), "protected") {
        return Some("protected".to_owned());
    }
    if str_contains(line.as_str(), "public") || str_contains(line.as_str(), "export") {
        return Some("public".to_owned());
    }
    if same_text(kind, "method") {
        if let Some(raw) = metadata {
            if has_member(raw, "className") {
                return Some("public".to_owned());
            }
        }
    }
    Some("internal".to_owned())
}

/// `s` without the `mark`s it begins with.
pub open spec fn without_marks(s: Seq<char>, mark: char) -> Seq<char>
    decreases s.len(),
{
    if s.len() > 0 && s[0] == mark {
        without_marks(s.drop_first(), mark)
    } else {
        s
    }
}

/// The lines of a comment that are left without their marks and white space.
pub open spec fn comment_lines(ls: Seq<Seq<char>>, mark: char) -> Seq<Seq<char>>
    decreases ls.len(),
{
    if ls.len() == 0 {
        Seq::empty()
    } else {
        let before = comment_lines(ls.drop_last(), mark);
        let line = trimmed(without_marks(ls.last(), mark));
        if line.len() == 0 {
            before
        } else {
            before.push(line)
        }
    }
}

/// The text of a comment.
pub open spec fn comment_text(s: Seq<char>, mark: char) -> Seq<char> {
    joined(comment_lines(lines_of(s), mark), "\n"@)
}

/// A line without the marks it begins with and without white space at its ends.
fn clean_line(line: &str, mark: char) -> (r: String)
    ensures
        r@ == trimmed(without_marks(line@, mark)),
{
    let v = chars_of(line);
    let mut i: usize = 0;
    assert(line@.skip(0) =~= line@);
    while i < v.len() && v[i] == mark
        invariant
            i <= v.len(),
            v@ == line@,
            without_marks(line@.skip(i as int), mark) == without_marks(line@, mark),
        decreases v.len() - i,
    {
        assert(line@.skip(i as int).drop_first() =~= line@.skip(i + 1));
        i += 1;
    }
    let rest = slice_subrange(v.as_slice(), i, v.len());
    assert(rest@ =~= line@.skip(i as int));
    string_of(trim(rest))
}

/// The text of a comment.
pub fn clean_comment(text: &str, mark: char) -> (r: String)
    ensures
        r@ == comment_text(text@, mark),
{
    let ls = str_lines(text);
    let mut out: Vec<String> = Vec::new();
    let mut i: usize = 0;
    let ghost all = texts(ls@);
    assert(all.take(0) =~= Seq::<Seq<char>>::empty());
    assert(texts(out@) =~= Seq::<Seq<char>>::empty());
    while i < ls.len()
        invariant
            i <= ls.len(),
            all == texts(ls@),
            texts(out@) == comment_lines(all.take(i as int), mark),
        decreases ls.len() - i,
    {
        assert(all.take(i + 1).drop_last() =~= all.take(i as int));
        assert(all.take(i + 1).last() == ls@[i as int]@);
        let line = clean_line(ls[i].as_str(), mark);
        if !line.as_str().is_empty() {
            push_text(&mut out, line);
        }
        i += 1;
    }
    assert(all.take(i as int) =~= all);
    join(out.as_slice(), "\n")
}

/// The documentation that two captured comments give: the block comment where it has
/// any text, else the line comments where they have any.
pub open spec fn documentation(block: Option<Seq<char>>, line: Option<Seq<char>>) -> Option<
    Seq<char>,
> {
    if block is Some && comment_text(block->0, '*').len() > 0 {
        Some(comment_text(block->0, '*'))
    } else if line is Some && comment_text(line->0, '/').len() > 0 {
        Some(comment_text(line->0, '/'))
    } else {
        None
    }
}

/// The documentation that two captured comments give.
pub fn choose_documentation(block: Option<String>, line: Option<String>) -> (r: Option<String>)
    ensures
        text_of(r) == documentation(text_of(block), text_of(line)),
{
    if let Some(text) = block {
        let cleaned = clean_comment(text.as_str(), '*');
        if !cleaned.as_str().is_empty() {
            return Some(cleaned);
        }
    }
    if let Some(text) = line {
        let cleaned = clean_comment(text.as_str(), '/');
        if !cleaned.as_str().is_empty() {
            return Some(cleaned);
        }
    }
    None
}

/// The pattern of a block comment at the end of a text.
pub const BLOCK_COMMENT: &'static str = r"(?s)/\*\*\s*(.*?)\s*\*/\s*$";

/// The pattern of line comments at the end of a text.
pub const LINE_COMMENTS: &'static str = r"(?m)(?:(?:\s*//.*\n)+)\s*$";

/// The pattern of the words that mark open work.
pub const OPEN_WORK: &'static str = "(?i)(TODO|FIXME)";

/// The documentation in front of the definition that starts at `range_start`.
pub fn extract_docstring(content: &str, range_start: Option<i64>) -> (r: Option<String>)
    requires
        on_character(content@, range_start),
    ensures
        usable_offset(range_start, utf8_size(content@)) ==> ({
            let prefix = content@.take(char_of_byte(content@, range_start->0 as int));
            text_of(r) == documentation(
                regex_group(BLOCK_COMMENT@, prefix, 1),
                regex_group(LINE_COMMENTS@, prefix, 0),
            )
        }),
        !usable_offset(range_start, utf8_size(content@)) ==> r is None,
{
    let offset: i64 = match range_start {
        Some(v) => v,
        None => return None,
    };
    let size: usize = byte_length(content);
    if offset <= 0 || offset as u64 > size as u64 {
        return None;
    }
    let start: usize = offset as usize;
    let v = chars_of(content);
    let at = match char_at_byte(v.as_slice(), start) {
        Some(i) => i,
        None => {
            assert(false);
            return None;
        },
    };
    proof {
        lemma_boundary_unique(
            content@,
            start as int,
            at as int,
            char_of_byte(content@, start as int),
        );
    }
    let before = slice_subrange(v.as_slice(), 0, at);
    assert(before@ =~= content@.take(at as int));
    let prefix = string_of(before);
    let block = capture_group(BLOCK_COMMENT, prefix.as_str(), 1);
    let line = capture_group(LINE_COMMENTS, prefix.as_str(), 0);
    choose_documentation(block, line)
}

/// How many marks of open work the definition between two offsets holds.
pub fn count_todos(content: &str, start: Option<i64>, end: Option<i64>) -> (r: Option<u32>)
    requires
        start is Some && end is Some && 0 <= start->0 < end->0 <= utf8_size(content@) ==> (exists|
            i: int,
        |
            boundary(content@, start->0 as int, i)) && (exists|i: int|
            boundary(content@, end->0 as int, i)),
    ensures
        start is Some && end is Some && 0 <= start->0 < end->0 <= utf8_size(content@) ==> r == Some(
            regex_matches(
                OPEN_WORK@,
                content@.subrange(
                    char_of_byte(content@, start->0 as int),
                    char_of_byte(content@, end->0 as int),
                ),
            ) as u32,
        ),
        !(start is Some && end is Some && 0 <= start->0 < end->0 <= utf8_size(content@)) ==> r
            is None,
{
    let (a, b) = match (start, end) {
        (Some(a), Some(b)) => (a, b),
        _ => return None,
    };
    let size: usize = byte_length(content);
    if a < 0 || a >= b || b as u64 > size as u64 {
        return None;
    }
    let v = chars_of(content);
    let from = char_at_byte(v.as_slice(), a as usize);
    let to = char_at_byte(v.as_slice(), b as usize);
    match (from, to) {
        (Some(i), Some(j)) => {
            proof {
                lemma_boundary_unique(content@, a as int, i as int, char_of_byte(content@, a as int));
                lemma_boundary_unique(content@, b as int, j as int, char_of_byte(content@, b as int));
                if j < i {
                    lemma_size_take(content@, j as int, i as int);
                }
            }
            let text = string_of(slice_subrange(v.as_slice(), i, j));
            let count: usize = count_matches(OPEN_WORK, text.as_str());
            Some(count as u32)
        },
        _ => {
            assert(false);
            None
        },
    }
}

/// A row of the code graph: a node of the file.
pub struct DefinitionRow {
    pub id: String,
    pub name: String,
    pub kind: String,
    pub signature: Option<String>,
    pub range_start: Option<i64>,
    pub range_end: Option<i64>,
    pub metadata: Option<String>,
}

/// Stored metadata that is JSON; other text counts as none.
pub open spec fn valid_metadata(raw: Option<String>) -> Option<Seq<char>> {
    match raw {
        Some(v) => if json_parses(v@) {
            Some(v@)
        } else {
            None
        },
        None => None,
    }
}

/// Stored metadata that is JSON; other text counts as none.
pub fn keep_metadata(raw: Option<String>) -> (r: Option<String>)
    ensures
        text_of(r) == valid_metadata(raw),
{
    match raw {
        Some(v) => if is_json(v.as_str()) {
            Some(v)
        } else {
            None
        },
        None => None,
    }
}

/// The definition of a row: what the row says, and what the text around it says where
/// the text is known.
pub fn describe_definition(row: DefinitionRow, content: Option<&str>) -> (r: BundleDefinition)
    requires
        content is Some ==> on_character(content->0@, row.range_start),
        content is Some && row.range_start is Some && row.range_end is Some && 0
            <= row.range_start->0 < row.range_end->0 <= utf8_size(content->0@) ==> (exists|i: int|
            boundary(content->0@, row.range_start->0 as int, i)) && (exists|i: int|
            boundary(content->0@, row.range_end->0 as int, i)),
    ensures
        r.id == row.id,
        r.name == row.name,
        r.kind == row.kind,
        r.signature == row.signature,
        r.range_start == row.range_start,
        r.range_end == row.range_end,
        text_of(r.metadata) == valid_metadata(row.metadata),
        content is None ==> r.visibility is None && r.docstring is None && r.todo_count is None,
        content is Some ==> {
            let s = content->0@;
            let at = char_of_byte(s, row.range_start->0 as int);
            &&& r.visibility is Some <==> usable_offset(row.range_start, utf8_size(s))
            &&& r.visibility is Some ==> r.visibility->0@ == visibility_of(
                line_around(s, at),
                row.kind@ == "method"@ && r.metadata is Some && json_member(
                    r.metadata->0@,
                    "className"@,
                ),
            )
            &&& r.docstring is Some ==> usable_offset(row.range_start, utf8_size(s))
            &&& usable_offset(row.range_start, utf8_size(s)) ==> text_of(r.docstring)
                == documentation(
                regex_group(BLOCK_COMMENT@, s.take(at), 1),
                regex_group(LINE_COMMENTS@, s.take(at), 0),
            )
            &&& r.todo_count is Some <==> (row.range_start is Some && row.range_end is Some && 0
                <= row.range_start->0 < row.range_end->0 <= utf8_size(s))
            &&& r.todo_count is Some ==> r.todo_count->0 == regex_matches(
                OPEN_WORK@,
                s.subrange(at, char_of_byte(s, row.range_end->0 as int)),
            ) as u32
        },
{
    let metadata = keep_metadata(row.metadata);
    let mut visibility: Option<String> = None;
    let mut docstring: Option<String> = None;
    let mut todo_count: Option<u32> = None;
    if let Some(text) = content {
        visibility =
        determine_visibility(text, row.range_start, row.kind.as_str(), as_text(&metadata));
        docstring = extract_docstring(text, row.range_start);
        todo_count = count_todos(text, row.range_start, row.range_end);
    }
    BundleDefinition {
        id: row.id,
        name: row.name,
        kind: row.kind,
        signature: row.signature,
        range_start: row.range_start,
        range_end: row.range_end,
        metadata,
        visibility,
        docstring,
        todo_count,
    }
}

/// The selector names the definition: the names agree in lower case, and the kinds, where
/// one is given, without regard to ASCII case.
pub open spec fn selects(name: Seq<char>, kind: Option<Seq<char>>, d: BundleDefinition) -> bool {
    lowercase(d.name@) == lowercase(name) && (kind is Some ==> ascii_lower(d.kind@) == ascii_lower(
        kind->0,
    ))
}

/// The first definition that the selector names.
pub fn find_focus_definition(definitions: &[BundleDefinition], selector: SymbolSelector) -> (r:
    Option<BundleDefinition>)
    ensures
        match r {
            Some(d) => exists|k: int|
                0 <= k < definitions@.len() && d == #[trigger] definitions@[k] && selects(
                    selector.name@,
                    text_of(selector.kind),
                    d,
                ) && forall|j: int|
                    0 <= j < k ==> !selects(
                        selector.name@,
                        text_of(selector.kind),
                        #[trigger] definitions@[j],
                    ),
            None => forall|j: int|
                0 <= j < definitions@.len() ==> !selects(
                    selector.name@,
                    text_of(selector.kind),
                    #[trigger] definitions@[j],
                ),
        },
{
    let wanted = to_lowercase(selector.name.as_str());
    let kind: Option<String> = match &selector.kind {
        Some(k) => Some(to_ascii_lowercase(k.as_str())),
        None => None,
    };
    let mut i: usize = 0;
    while i < definitions.len()
        invariant
            i <= definitions.len(),
            wanted@ == lowercase(selector.name@),
            kind is Some <==> selector.kind is Some,
            kind is Some ==> kind->0@ == ascii_lower(selector.kind->0@),
            forall|j: int|
                0 <= j < i ==> !selects(
                    selector.name@,
                    text_of(selector.kind),
                    #[trigger] definitions@[j],
                ),
        decreases definitions.len() - i,
    {
        let d = &definitions[i];
        let name = to_lowercase(d.name.as_str());
        let mut hit = same_text(name.as_str(), wanted.as_str());
        if let Some(k) = &kind {
            let own = to_ascii_lowercase(d.kind.as_str());
            hit = hit && same_text(own.as_str(), k.as_str());
        }
        if hit {
            return Some(d.clone());
        }
        i += 1;
    }
    None
}

// ---------------------------------------------------------------------------
// Neighbours
// ---------------------------------------------------------------------------

/// A row of the code graph: an edge at a definition.
pub struct EdgeRow {
    pub id: String,
    pub kind: String,
    pub source_id: String,
    pub target_id: String,
    pub source_path: Option<String>,
    pub target_path: Option<String>,
    pub metadata: Option<String>,
}

/// An edge with the node at its other end, where the graph has it.
pub struct ResolvedEdge {
    pub edge: EdgeRow,
    pub node: Option<NeighborNode>,
}

/// The direction of an edge seen from a definition.
pub open spec fn direction_from(edge: EdgeRow, id: Seq<char>) -> NeighborDirection {
    if edge.source_id@ == id {
        NeighborDirection::Outgoing
    } else {
        NeighborDirection::Incoming
    }
}

/// The direction of an edge seen from a definition.
pub fn edge_direction(edge: &EdgeRow, definition_id: &str) -> (r: NeighborDirection)
    ensures
        r == direction_from(*edge, definition_id@),
        r is Outgoing <==> edge.source_id@ == definition_id@,
{
    if same_text(edge.source_id.as_str(), definition_id) {
        NeighborDirection::Outgoing
    } else {
        NeighborDirection::Incoming
    }
}

/// The node at the other end of an edge.
pub open spec fn other_end(edge: EdgeRow, id: Seq<char>) -> Seq<char> {
    match direction_from(edge, id) {
        NeighborDirection::Outgoing => edge.target_id@,
        NeighborDirection::Incoming => edge.source_id@,
    }
}

/// An edge leads out of its source and into its target. Seen from one of its ends it leads
/// to the other one, never back to the same; and the other end sees it the other way round.
pub proof fn law_edge_seen_from_its_ends(edge: EdgeRow, id: Seq<char>)
    requires
        edge.source_id@ != edge.target_id@,
        id == edge.source_id@ || id == edge.target_id@,
    ensures
        id == edge.source_id@ ==> direction_from(edge, id) is Outgoing && other_end(edge, id)
            == edge.target_id@,
        id == edge.target_id@ ==> direction_from(edge, id) is Incoming && other_end(edge, id)
            == edge.source_id@,
        other_end(edge, id) != id,
        other_end(edge, other_end(edge, id)) == id,
        direction_from(edge, other_end(edge, id)) != direction_from(edge, id),
{
}

/// The node at the other end of an edge.
pub fn neighbor_id<'a>(edge: &'a EdgeRow, definition_id: &str) -> (r: &'a str)
    ensures
        r@ == other_end(*edge, definition_id@),
        r@ == edge.source_id@ || r@ == edge.target_id@,
        edge.source_id@ == definition_id@ ==> r@ == edge.target_id@,
        edge.source_id@ != definition_id@ ==> r@ == edge.source_id@,
{
    match edge_direction(edge, definition_id) {
        NeighborDirection::Outgoing => edge.target_id.as_str(),
        NeighborDirection::Incoming => edge.source_id.as_str(),
    }
}

/// `n` is the neighbour that an edge with a known node gives at a definition.
pub open spec fn neighbor_from(n: BundleEdgeNeighbor, e: ResolvedEdge, id: Seq<char>) -> bool {
    &&& e.node is Some
    &&& n.id == e.edge.id
    &&& n.kind == e.edge.kind
    &&& n.direction == direction_from(e.edge, id)
    &&& text_of(n.metadata) == valid_metadata(e.edge.metadata)
    &&& n.source_path == e.edge.source_path
    &&& n.target_path == e.edge.target_path
    &&& n.neighbor == e.node->0
}

/// The edges with a known node, definition by definition, with the definition's id.
pub open spec fn known_edges(ids: Seq<Seq<char>>, edges: Seq<Vec<ResolvedEdge>>) -> Seq<
    (Seq<char>, ResolvedEdge),
>
    decreases edges.len(),
{
    if edges.len() == 0 || ids.len() < edges.len() {
        Seq::empty()
    } else {
        known_edges(ids, edges.drop_last()) + known_at(ids[edges.len() - 1], edges.last()@)
    }
}

/// The edges with a known node at one definition.
pub open spec fn known_at(id: Seq<char>, edges: Seq<ResolvedEdge>) -> Seq<(Seq<char>, ResolvedEdge)>
    decreases edges.len(),
{
    if edges.len() == 0 {
        Seq::empty()
    } else if edges.last().node is Some {
        known_at(id, edges.drop_last()).push((id, edges.last()))
    } else {
        known_at(id, edges.drop_last())
    }
}

/// The ids of the definitions.
pub open spec fn definition_ids(ds: Seq<BundleDefinition>) -> Seq<Seq<char>> {
    Seq::new(ds.len(), |i: int| ds[i].id@)
}

/// The neighbours are the first of the known edges, as many as the limit allows.
pub open spec fn neighbors_from(
    ns: Seq<BundleEdgeNeighbor>,
    known: Seq<(Seq<char>, ResolvedEdge)>,
    limit: int,
) -> bool {
    &&& ns.len() == if known.len() <= limit {
        known.len() as int
    } else {
        limit
    }
    &&& forall|k: int|
        0 <= k < ns.len() ==> neighbor_from(#[trigger] ns[k], known[k].1, known[k].0)
}

/// The neighbours of the definitions: for each definition in turn its edges whose node
/// is known, until there are `limit` of them.
pub fn related_neighbors(
    definitions: &[BundleDefinition],
    edges: Vec<Vec<ResolvedEdge>>,
    limit: usize,
) -> (r: Vec<BundleEdgeNeighbor>)
    requires
        edges@.len() == definitions@.len(),
    ensures
        neighbors_from(r@, known_edges(definition_ids(definitions@), edges@), limit as int),
{
    let mut out: Vec<BundleEdgeNeighbor> = Vec::new();
    let ghost ids = definition_ids(definitions@);
    let ghost all = edges@;
    let count: usize = definitions.len();
    let mut i: usize = 0;
    assert(all.take(0) =~= Seq::<Vec<ResolvedEdge>>::empty());
    for rows in outer: edges
        invariant
            outer.seq() == all,
            i == outer.index(),
            count == definitions@.len(),
            all.len() == definitions@.len(),
            ids == definition_ids(definitions@),
            neighbors_from(out@, known_edges(ids, all.take(i as int)), limit as int),
    {
        let ghost id = ids[i as int];
        let ghost row_seq = rows@;
        let row_count: usize = rows.len();
        let ghost known_before = known_edges(ids, all.take(i as int));
        proof {
            assert(all.take(i + 1).drop_last() =~= all.take(i as int));
            assert(all.take(i + 1).last() == all[i as int]);
            assert(row_seq.take(0) =~= Seq::<ResolvedEdge>::empty());
            assert(known_before + known_at(id, row_seq.take(0)) =~= known_before);
        }
        let mut j: usize = 0;
        for row in inner: rows
            invariant
                inner.seq() == row_seq,
                row_count == row_seq.len(),
                j == inner.index(),
                i < definitions@.len(),
                id == definitions@[i as int].id@,
                neighbors_from(
                    out@,
                    known_before + known_at(id, row_seq.take(j as int)),
                    limit as int,
                ),
        {
            let ghost so_far = known_before + known_at(id, row_seq.take(j as int));
            let ghost next = known_before + known_at(id, row_seq.take(j + 1));
            let ghost before = out@;
            proof {
                assert(row_seq.take(j + 1).drop_last() =~= row_seq.take(j as int));
                assert(row_seq.take(j + 1).last() == row_seq[j as int]);
                if row_seq[j as int].node is Some {
                    assert(next =~= so_far.push((id, row_seq[j as int])));
                }
            }
            if out.len() < limit {
                let direction = edge_direction(&row.edge, definitions[i].id.as_str());
                if let Some(node) = row.node {
                    let edge = row.edge;
                    let metadata = keep_metadata(edge.metadata);
                    let neighbor = BundleEdgeNeighbor {
                        id: edge.id,
                        kind: edge.kind,
                        direction,
                        metadata,
                        source_path: edge.source_path,
                        target_path: edge.target_path,
                        neighbor: node,
                    };
                    out.push(neighbor);
                    assert(neighbor_from(neighbor, row_seq[j as int], id));
                }
            }
            proof {
                assert forall|k: int| 0 <= k < out@.len() implies neighbor_from(
                    #[trigger] out@[k],
                    next[k].1,
                    next[k].0,
                ) by {
                    if k < before.len() {
                        assert(out@[k] == before[k]);
                        assert(next[k] == so_far[k]);
                    }
                }
            }
            j += 1;
        }
        assert(row_seq.take(j as int) =~= row_seq);
        i += 1;
    }
    assert(all.take(i as int) =~= all);
    out
}

proof fn lemma_known_at(id: Seq<char>, edges: Seq<ResolvedEdge>)
    ensures
        forall|k: int|
            0 <= k < known_at(id, edges).len() ==> (#[trigger] known_at(id, edges)[k]).0 == id
                && known_at(id, edges)[k].1.node is Some && edges.contains(
                known_at(id, edges)[k].1,
            ),
    decreases edges.len(),
{
    if edges.len() > 0 {
        let front = edges.drop_last();
        lemma_known_at(id, front);
        let all = known_at(id, edges);
        assert forall|k: int| 0 <= k < all.len() implies (#[trigger] all[k]).0 == id
            && all[k].1.node is Some && edges.contains(all[k].1) by {
            if k < known_at(id, front).len() {
                assert(all[k] == known_at(id, front)[k]);
                let j = choose|j: int| 0 <= j < front.len() && front[j] == all[k].1;
                assert(edges[j] == all[k].1);
            } else {
                assert(edges[edges.len() - 1] == all[k].1);
            }
        }
    }
}

proof fn lemma_known_edges(ids: Seq<Seq<char>>, edges: Seq<Vec<ResolvedEdge>>)
    requires
        ids.len() >= edges.len(),
    ensures
        forall|k: int|
            #![trigger known_edges(ids, edges)[k]]
            0 <= k < known_edges(ids, edges).len() ==> known_edges(ids, edges)[k].1.node is Some
                && exists|i: int|
                0 <= i < edges.len() && known_edges(ids, edges)[k].0 == ids[i] && (
                #[trigger] edges[i])@.contains(known_edges(ids, edges)[k].1),
    decreases edges.len(),
{
    if edges.len() > 0 {
        let front = edges.drop_last();
        lemma_known_edges(ids, front);
        let last = edges.len() - 1;
        lemma_known_at(ids[last], edges[last]@);
        let all = known_edges(ids, edges);
        let before = known_edges(ids, front);
        assert forall|k: int| 0 <= k < all.len() implies (#[trigger] all[k]).1.node is Some
            && exists|i: int|
            0 <= i < edges.len() && all[k].0 == ids[i] && (#[trigger] edges[i])@.contains(
                all[k].1,
            ) by {
            if k < before.len() {
                assert(all[k] == before[k]);
                let i = choose|i: int|
                    0 <= i < front.len() && before[k].0 == ids[i] && (
                    #[trigger] front[i])@.contains(before[k].1);
                assert(edges[i]@.contains(all[k].1));
            } else {
                let at = known_at(ids[last], edges[last]@);
                assert(all[k] == at[k - before.len()]);
                assert(edges[last]@.contains(all[k].1));
            }
        }
    }
}

/// Every neighbour of a bundle is the node at the far end of an edge of one of the
/// definitions. The edge counts as outgoing exactly where it starts at the definition, and
/// no more neighbours are given than were asked for.
pub proof fn law_related_neighbors(
    definitions: Seq<BundleDefinition>,
    edges: Seq<Vec<ResolvedEdge>>,
    limit: int,
    ns: Seq<BundleEdgeNeighbor>,
    k: int,
)
    requires
        limit >= 0,
        edges.len() == definitions.len(),
        neighbors_from(ns, known_edges(definition_ids(definitions), edges), limit),
        0 <= k < ns.len(),
    ensures
        ns.len() <= limit,
        exists|i: int, j: int|
            {
                &&& 0 <= i < edges.len()
                &&& 0 <= j < edges[i]@.len()
                &&& (#[trigger] edges[i]@[j]).node == Some(ns[k].neighbor)
                &&& ns[k].id == edges[i]@[j].edge.id
                &&& ns[k].kind == edges[i]@[j].edge.kind
                &&& ns[k].direction is Outgoing <==> edges[i]@[j].edge.source_id@
                    == definitions[i].id@
                &&& ns[k].source_path == edges[i]@[j].edge.source_path
                &&& ns[k].target_path == edges[i]@[j].edge.target_path
            },
{
    let ids = definition_ids(definitions);
    let known = known_edges(ids, edges);
    lemma_known_edges(ids, edges);
    assert(neighbor_from(ns[k], known[k].1, known[k].0));
    let i = choose|i: int|
        0 <= i < edges.len() && known[k].0 == ids[i] && (#[trigger] edges[i])@.contains(known[k].1);
    let j = choose|j: int| 0 <= j < edges[i]@.len() && edges[i]@[j] == known[k].1;
    assert(edges[i]@[j].node == Some(ns[k].neighbor));
}

/// Where there is room for all of them, every edge whose far node is known gives a
/// neighbour.
pub proof fn law_no_neighbor_lost(
    definitions: Seq<BundleDefinition>,
    edges: Seq<Vec<ResolvedEdge>>,
    limit: int,
    ns: Seq<BundleEdgeNeighbor>,
    i: int,
    j: int,
)
    requires
        edges.len() == definitions.len(),
        neighbors_from(ns, known_edges(definition_ids(definitions), edges), limit),
        ns.len() < limit,
        0 <= i < edges.len(),
        0 <= j < edges[i]@.len(),
        edges[i]@[j].node is Some,
    ensures
        exists|k: int|
            0 <= k < ns.len() && (#[trigger] ns[k]).id == edges[i]@[j].edge.id && Some(
                ns[k].neighbor,
            ) == edges[i]@[j].node,
{
    let ids = definition_ids(definitions);
    let known = known_edges(ids, edges);
    lemma_edge_known(ids, edges, i, j);
    let k = choose|k: int| 0 <= k < known.len() && (#[trigger] known[k]).1 == edges[i]@[j];
    assert(neighbor_from(ns[k], known[k].1, known[k].0));
}

proof fn lemma_edge_known(ids: Seq<Seq<char>>, edges: Seq<Vec<ResolvedEdge>>, i: int, j: int)
    requires
        ids.len() >= edges.len(),
        0 <= i < edges.len(),
        0 <= j < edges[i]@.len(),
        edges[i]@[j].node is Some,
    ensures
        exists|k: int|
            0 <= k < known_edges(ids, edges).len() && (#[trigger] known_edges(ids, edges)[k]).1
                == edges[i]@[j],
    decreases edges.len(),
{
    let front = edges.drop_last();
    let before = known_edges(ids, front);
    let last = edges.len() - 1;
    let at = known_at(ids[last], edges[last]@);
    let all = known_edges(ids, edges);
    if i < last {
        lemma_edge_known(ids, front, i, j);
        let k = choose|k: int| 0 <= k < before.len() && (#[trigger] before[k]).1 == edges[i]@[j];
        assert(all[k].1 == edges[i]@[j]);
    } else {
        lemma_edge_known_at(ids[last], edges[last]@, j);
        let k = choose|k: int| 0 <= k < at.len() && (#[trigger] at[k]).1 == edges[i]@[j];
        assert(all[before.len() + k].1 == edges[i]@[j]);
    }
}

proof fn lemma_edge_known_at(id: Seq<char>, edges: Seq<ResolvedEdge>, j: int)
    requires
        0 <= j < edges.len(),
        edges[j].node is Some,
    ensures
        exists|k: int|
            0 <= k < known_at(id, edges).len() && (#[trigger] known_at(id, edges)[k]).1
                == edges[j],
    decreases edges.len(),
{
    let front = edges.drop_last();
    let all = known_at(id, edges);
    if j < edges.len() - 1 {
        lemma_edge_known_at(id, front, j);
        let k = choose|k: int|
            0 <= k < known_at(id, front).len() && (#[trigger] known_at(id, front)[k]).1
                == edges[j];
        assert(all[k].1 == edges[j]);
    } else {
        assert(all[all.len() - 1].1 == edges[j]);
    }
}

/// The file of a neighbour: that of its node, else the one the edge records for that
/// end.
pub open spec fn neighbor_path(n: BundleEdgeNeighbor) -> Option<Seq<char>> {
    match n.neighbor.path {
        Some(p) => Some(p@),
        None => match n.direction {
            NeighborDirection::Outgoing => text_of(n.target_path),
            NeighborDirection::Incoming => text_of(n.source_path),
        },
    }
}

/// The file of a neighbour is the one that its node names. Where that names none, it is the
/// file at the far end of the edge: turning the edge round gives the file at the near end.
pub proof fn law_neighbor_file(n: BundleEdgeNeighbor, turned: BundleEdgeNeighbor)
    requires
        turned.neighbor == n.neighbor,
        turned.direction != n.direction,
        turned.source_path == n.target_path,
        turned.target_path == n.source_path,
    ensures
        neighbor_path(turned) == neighbor_path(n),
        n.neighbor.path is Some ==> neighbor_path(n) == Some(n.neighbor.path->0@),
        n.neighbor.path is None && n.direction is Outgoing ==> (neighbor_path(n) is Some
            <==> n.target_path is Some) && (n.target_path is Some ==> neighbor_path(n)->0
            == n.target_path->0@),
{
}

/// The file of a neighbour.
pub fn neighbor_file_path(neighbor: &BundleEdgeNeighbor) -> (r: Option<&str>)
    ensures
        opt_view(r) == neighbor_path(*neighbor),
{
    match &neighbor.neighbor.path {
        Some(p) => Some(p.as_str()),
        None => match neighbor.direction {
            NeighborDirection::Outgoing => as_text(&neighbor.target_path),
            NeighborDirection::Incoming => as_text(&neighbor.source_path),
        },
    }
}

/// One way to look up the stored snippet of a neighbour.
#[derive(Debug)]
pub enum SnippetLookup {
    ByRange { path: String, start: i64, end: i64 },
    ByIdentifier { path: String, identifier: String },
    BySymbol { path: String, symbol: String },
    First { path: String },
}

/// A lookup, by the text of its parts.
pub enum LookupView {
    ByRange { path: Seq<char>, start: i64, end: i64 },
    ByIdentifier { path: Seq<char>, identifier: Seq<char> },
    BySymbol { path: Seq<char>, symbol: Seq<char> },
    First { path: Seq<char> },
}

impl View for SnippetLookup {
    type V = LookupView;

    open spec fn view(&self) -> LookupView {
        match self {
            SnippetLookup::ByRange { path, start, end } => LookupView::ByRange {
                path: path@,
                start: *start,
                end: *end,
            },
            SnippetLookup::ByIdentifier { path, identifier } => LookupView::ByIdentifier {
                path: path@,
                identifier: identifier@,
            },
            SnippetLookup::BySymbol { path, symbol } => LookupView::BySymbol {
                path: path@,
                symbol: symbol@,
            },
            SnippetLookup::First { path } => LookupView::First { path: path@ },
        }
    }
}

/// The views of lookups.
pub open spec fn lookup_views(ls: Seq<SnippetLookup>) -> Seq<LookupView> {
    Seq::new(ls.len(), |i: int| ls[i]@)
}

/// The lookups that are tried for a neighbour in a file, in order: by the range of its
/// node, by the identifier of its metadata, by its id, by its name, and at last the
/// file's first snippet. `identifier` is the identifier of its metadata.
pub open spec fn lookups_for(
    n: NeighborNode,
    path: Seq<char>,
    identifier: Option<Seq<char>>,
) -> Seq<LookupView> {
    let by_range = match n.range_start {
        Some(start) => seq![
            LookupView::ByRange {
                path,
                start,
                end: match n.range_end {
                    Some(end) => end,
                    None => start,
                },
            },
        ],
        None => Seq::empty(),
    };
    let by_identifier = match identifier {
        Some(v) => if v == n.id@ {
            by_range
        } else {
            by_range.push(LookupView::ByIdentifier { path, identifier: v })
        },
        None => by_range,
    };
    by_identifier.push(LookupView::ByIdentifier { path, identifier: n.id@ }).push(
        LookupView::BySymbol { path, symbol: n.name@ },
    ).push(LookupView::First { path })
}

/// The identifier that metadata names.
pub open spec fn metadata_identifier(metadata: Option<String>) -> Option<Seq<char>> {
    match metadata {
        Some(raw) => json_text_member(raw@, "identifier"@),
        None => None,
    }
}

/// The identifier that metadata names.
pub fn extract_identifier(metadata: &Option<String>) -> (r: Option<String>)
    ensures
        text_of(r) == metadata_identifier(*metadata),
{
    match metadata {
        Some(raw) => text_member(raw.as_str(), "identifier"),
        None => None,
    }
}

/// The lookups that are tried in a file for a node with that metadata identifier.
pub fn lookups_in(node: &NeighborNode, path: &str, identifier: Option<String>) -> (r: Vec<
    SnippetLookup,
>)
    ensures
        lookup_views(r@) == lookups_for(*node, path@, text_of(identifier)),
{
    let mut out: Vec<SnippetLookup> = Vec::new();
    if let Some(start) = node.range_start {
        let end: i64 = match node.range_end {
            Some(e) => e,
            None => start,
        };
        out.push(SnippetLookup::ByRange { path: path.to_owned(), start, end });
    }
    if let Some(value) = identifier {
        if !same_text(value.as_str(), node.id.as_str()) {
            out.push(SnippetLookup::ByIdentifier { path: path.to_owned(), identifier: value });
        }
    }
    out.push(SnippetLookup::ByIdentifier { path: path.to_owned(), identifier: node.id.clone() });
    out.push(SnippetLookup::BySymbol { path: path.to_owned(), symbol: node.name.clone() });
    out.push(SnippetLookup::First { path: path.to_owned() });
    assert(lookup_views(out@) =~= lookups_for(*node, path@, text_of(identifier)));
    out
}

/// The lookups that are tried for a neighbour, or why there are none.
pub fn neighbor_lookups(neighbor: &BundleEdgeNeighbor) -> (r: Result<Vec<SnippetLookup>, String>)
    ensures
        match r {
            Ok(ls) => neighbor_path(*neighbor) is Some && lookup_views(ls@) == lookups_for(
                neighbor.neighbor,
                neighbor_path(*neighbor)->0,
                metadata_identifier(neighbor.neighbor.metadata),
            ),
            Err(message) => neighbor_path(*neighbor) is None && message@ == "Skipping neighbor '"@
                + neighbor.neighbor.name@ + "' because no file path was recorded."@,
        },
{
    match neighbor_file_path(neighbor) {
        Some(path) => {
            let identifier = extract_identifier(&neighbor.neighbor.metadata);
            Ok(lookups_in(&neighbor.neighbor, path, identifier))
        },
        None => {
            let mut message = "Skipping neighbor '".to_owned();
            message.append(neighbor.neighbor.name.as_str());
            message.append("' because no file path was recorded.");
            Err(message)
        },
    }
}

/// What the metadata of a snippet is built on when a neighbour's facts are added.
#[derive(Debug, PartialEq, Eq, Clone, Copy, Structural)]
pub enum MetadataBase {
    /// Nothing was stored.
    Empty,
    /// The stored object, kept as it is.
    Object,
    /// The stored value, which is no object, as the member `snippet` of a new one.
    Wrapped,
}

/// A string member that is added to an object.
#[derive(Debug)]
pub struct MetadataField {
    pub key: String,
    pub value: String,
}

/// The metadata of a neighbour's snippet: what it is built on, and the members added.
#[derive(Debug)]
pub struct MergedMetadata {
    pub base: MetadataBase,
    pub existing: Option<String>,
    pub added: Vec<MetadataField>,
}

/// The members as pairs of texts.
pub open spec fn field_views(fs: Seq<MetadataField>) -> Seq<(Seq<char>, Seq<char>)> {
    Seq::new(fs.len(), |i: int| (fs[i].key@, fs[i].value@))
}

/// The facts about a neighbour, as members.
pub open spec fn neighbor_facts(n: BundleEdgeNeighbor) -> Seq<(Seq<char>, Seq<char>)> {
    let s0 = seq![
        ("neighborEdgeId"@, n.id@),
        ("neighborType"@, n.kind@),
        (
            "neighborDirection"@,
            match n.direction {
                NeighborDirection::Incoming => "incoming"@,
                NeighborDirection::Outgoing => "outgoing"@,
            },
        ),
    ];
    let s1 = match neighbor_path(n) {
        Some(p) => s0.push(("neighborPath"@, p)),
        None => s0,
    };
    let s2 = match n.source_path {
        Some(p) => s1.push(("neighborSourcePath"@, p@)),
        None => s1,
    };
    let s3 = match n.target_path {
        Some(p) => s2.push(("neighborTargetPath"@, p@)),
        None => s2,
    };
    s3.push(("neighborSymbolId"@, n.neighbor.id@)).push(
        ("neighborSymbolName"@, n.neighbor.name@),
    ).push(("neighborSymbolKind"@, n.neighbor.kind@))
}

/// The members whose key the stored object does not have.
pub open spec fn missing_fields(
    stored: Option<Seq<char>>,
    facts: Seq<(Seq<char>, Seq<char>)>,
) -> Seq<(Seq<char>, Seq<char>)>
    decreases facts.len(),
{
    if facts.len() == 0 {
        Seq::empty()
    } else {
        let before = missing_fields(stored, facts.drop_last());
        if stored is Some && json_member(stored->0, facts.last().0) {
            before
        } else {
            before.push(facts.last())
        }
    }
}

/// Adds a member.
fn push_field(out: &mut Vec<MetadataField>, key: &str, value: &str)
    ensures
        field_views(final(out)@) == field_views(old(out)@).push((key@, value@)),
{
    let ghost before = out@;
    out.push(MetadataField { key: key.to_owned(), value: value.to_owned() });
    assert(field_views(out@) =~= field_views(before).push((key@, value@)));
}

/// The facts about a neighbour, as members.
fn list_facts(neighbor: &BundleEdgeNeighbor) -> (r: Vec<MetadataField>)
    ensures
        field_views(r@) == neighbor_facts(*neighbor),
{
    let mut out: Vec<MetadataField> = Vec::new();
    push_field(&mut out, "neighborEdgeId", neighbor.id.as_str());
    push_field(&mut out, "neighborType", neighbor.kind.as_str());
    match neighbor.direction {
        NeighborDirection::Incoming => push_field(&mut out, "neighborDirection", "incoming"),
        NeighborDirection::Outgoing => push_field(&mut out, "neighborDirection", "outgoing"),
    }
    assert(field_views(out@) =~= seq![
        ("neighborEdgeId"@, neighbor.id@),
        ("neighborType"@, neighbor.kind@),
        (
            "neighborDirection"@,
            match neighbor.direction {
                NeighborDirection::Incoming => "incoming"@,
                NeighborDirection::Outgoing => "outgoing"@,
            },
        ),
    ]);
    if let Some(path) = neighbor_file_path(neighbor) {
        push_field(&mut out, "neighborPath", path);
    }
    if let Some(path) = &neighbor.source_path {
        push_field(&mut out, "neighborSourcePath", path.as_str());
    }
    if let Some(path) = &neighbor.target_path {
        push_field(&mut out, "neighborTargetPath", path.as_str());
    }
    push_field(&mut out, "neighborSymbolId", neighbor.neighbor.id.as_str());
    push_field(&mut out, "neighborSymbolName", neighbor.neighbor.name.as_str());
    push_field(&mut out, "neighborSymbolKind", neighbor.neighbor.kind.as_str());
    out
}

/// Adds the facts about a neighbour to the metadata of its snippet. A member that the
/// stored object has already keeps its value.
pub fn merge_neighbor_metadata(existing: Option<String>, neighbor: &BundleEdgeNeighbor) -> (r:
    MergedMetadata)
    ensures
        r.existing == existing,
        r.base == (match existing {
            Some(raw) => if json_object(raw@) {
                MetadataBase::Object
            } else {
                MetadataBase::Wrapped
            },
            None => MetadataBase::Empty,
        }),
        field_views(r.added@) == missing_fields(
            if r.base == MetadataBase::Object {
                text_of(existing)
            } else {
                None
            },
            neighbor_facts(*neighbor),
        ),
{
    let base = match &existing {
        Some(raw) => if is_json_object(raw.as_str()) {
            MetadataBase::Object
        } else {
            MetadataBase::Wrapped
        },
        None => MetadataBase::Empty,
    };
    let stored: Option<&str> = if base == MetadataBase::Object {
        as_text(&existing)
    } else {
        None
    };
    let facts = list_facts(neighbor);
    let ghost all = field_views(facts@);
    let mut added: Vec<MetadataField> = Vec::new();
    let mut i: usize = 0;
    assert(all.take(0) =~= Seq::<(Seq<char>, Seq<char>)>::empty());
    assert(field_views(added@) =~= Seq::<(Seq<char>, Seq<char>)>::empty());
    while i < facts.len()
        invariant
            i <= facts.len(),
            all == field_views(facts@),
            field_views(added@) == missing_fields(opt_view(stored), all.take(i as int)),
        decreases facts.len() - i,
    {
        assert(all.take(i + 1).drop_last() =~= all.take(i as int));
        assert(all.take(i + 1).last() == all[i as int]);
        let present = match stored {
            Some(raw) => has_member(raw, facts[i].key.as_str()),
            None => false,
        };
        if !present {
            push_field(&mut added, facts[i].key.as_str(), facts[i].value.as_str());
        }
        i += 1;
    }
    assert(all.take(i as int) =~= all);
    MergedMetadata { base, existing, added }
}

// ---------------------------------------------------------------------------
// Quick links
// ---------------------------------------------------------------------------

/// A quick link, by the text of its parts.
pub struct LinkView {
    pub kind: QuickLinkType,
    pub label: Seq<char>,
    pub path: Option<Seq<char>>,
    pub direction: Option<NeighborDirection>,
    pub symbol_id: Option<Seq<char>>,
    pub symbol_kind: Option<Seq<char>>,
}

impl View for ContextBundleQuickLink {
    type V = LinkView;

    open spec fn view(&self) -> LinkView {
        LinkView {
            kind: self.kind,
            label: self.label@,
            path: text_of(self.path),
            direction: self.direction,
            symbol_id: text_of(self.symbol_id),
            symbol_kind: text_of(self.symbol_kind),
        }
    }
}

/// The views of quick links.
pub open spec fn link_views(ls: Seq<ContextBundleQuickLink>) -> Seq<LinkView> {
    Seq::new(ls.len(), |i: int| ls[i]@)
}

/// The link to the file itself.
pub open spec fn file_link(path: Seq<char>) -> LinkView {
    LinkView {
        kind: QuickLinkType::File,
        label: path,
        path: Some(path),
        direction: None,
        symbol_id: None,
        symbol_kind: None,
    }
}

/// The link to a definition of the file.
pub open spec fn definition_link(path: Seq<char>, d: BundleDefinition) -> LinkView {
    LinkView {
        kind: QuickLinkType::RelatedSymbol,
        label: d.name@,
        path: Some(path),
        direction: None,
        symbol_id: Some(d.id@),
        symbol_kind: Some(d.kind@),
    }
}

/// The link to a neighbour.
pub open spec fn neighbor_link(n: BundleEdgeNeighbor) -> LinkView {
    LinkView {
        kind: QuickLinkType::RelatedSymbol,
        label: n.neighbor.name@,
        path: neighbor_path(n),
        direction: Some(n.direction),
        symbol_id: Some(n.neighbor.id@),
        symbol_kind: Some(n.neighbor.kind@),
    }
}

/// The links to the definitions other than the one in focus.
pub open spec fn definition_links(
    path: Seq<char>,
    ds: Seq<BundleDefinition>,
    focus: Option<Seq<char>>,
) -> Seq<LinkView>
    decreases ds.len(),
{
    if ds.len() == 0 {
        Seq::empty()
    } else {
        let before = definition_links(path, ds.drop_last(), focus);
        if focus == Some(ds.last().id@) {
            before
        } else {
            before.push(definition_link(path, ds.last()))
        }
    }
}

/// All the links of a bundle: the file, the definition in focus, the other definitions,
/// the neighbours.
pub open spec fn all_links(
    path: Seq<char>,
    ds: Seq<BundleDefinition>,
    ns: Seq<BundleEdgeNeighbor>,
    focus: Option<BundleDefinition>,
) -> Seq<LinkView> {
    let head = seq![file_link(path)];
    let focused = match focus {
        Some(d) => head.push(definition_link(path, d)),
        None => head,
    };
    let id = match focus {
        Some(d) => Some(d.id@),
        None => None,
    };
    focused + definition_links(path, ds, id) + Seq::new(
        ns.len(),
        |i: int| neighbor_link(ns[i]),
    )
}

/// At most the first sixteen.
pub open spec fn first_links(ls: Seq<LinkView>) -> Seq<LinkView> {
    if ls.len() <= MAX_QUICK_LINKS {
        ls
    } else {
        ls.take(MAX_QUICK_LINKS as int)
    }
}

/// A copy of an optional string slice.
fn own_text(s: Option<&str>) -> (r: Option<String>)
    ensures
        text_of(r) == opt_view(s),
{
    match s {
        Some(v) => Some(v.to_owned()),
        None => None,
    }
}

/// The link to a definition of the file.
fn link_definition(path: &str, d: &BundleDefinition) -> (r: ContextBundleQuickLink)
    ensures
        r@ == definition_link(path@, *d),
{
    ContextBundleQuickLink {
        kind: QuickLinkType::RelatedSymbol,
        label: d.name.clone(),
        path: Some(path.to_owned()),
        direction: None,
        symbol_id: Some(d.id.clone()),
        symbol_kind: Some(d.kind.clone()),
    }
}

/// Adds a link.
fn push_link(out: &mut Vec<ContextBundleQuickLink>, link: ContextBundleQuickLink)
    ensures
        link_views(final(out)@) == link_views(old(out)@).push(link@),
{
    let ghost before = out@;
    out.push(link);
    assert(link_views(out@) =~= link_views(before).push(link@));
}

/// Where to look next: the file, the definition in focus, the other definitions, the
/// neighbours, at most sixteen in all.
pub fn build_quick_links(
    path: &str,
    definitions: &[BundleDefinition],
    neighbors: &[BundleEdgeNeighbor],
    focus: Option<&BundleDefinition>,
) -> (r: Vec<ContextBundleQuickLink>)
    ensures
        link_views(r@) == first_links(
            all_links(
                path@,
                definitions@,
                neighbors@,
                match focus {
                    Some(d) => Some(*d),
                    None => None,
                },
            ),
        ),
{
    let ghost focus_id = match focus {
        Some(d) => Some(d.id@),
        None => None,
    };
    let mut links: Vec<ContextBundleQuickLink> = Vec::new();
    push_link(
        &mut links,
        ContextBundleQuickLink {
            kind: QuickLinkType::File,
            label: path.to_owned(),
            path: Some(path.to_owned()),
            direction: None,
            symbol_id: None,
            symbol_kind: None,
        },
    );
    assert(link_views(links@) =~= seq![file_link(path@)]);
    if let Some(d) = focus {
        push_link(&mut links, link_definition(path, d));
    }
    let ghost head = link_views(links@);
    let mut i: usize = 0;
    assert(definitions@.take(0) =~= Seq::<BundleDefinition>::empty());
    assert(head + Seq::<LinkView>::empty() =~= head);
    while i < definitions.len()
        invariant
            i <= definitions.len(),
            focus_id == (match focus {
                Some(d) => Some(d.id@),
                None => None,
            }),
            link_views(links@) == head + definition_links(
                path@,
                definitions@.take(i as int),
                focus_id,
            ),
        decreases definitions.len() - i,
    {
        let d = &definitions[i];
        proof {
            assert(definitions@.take(i + 1).drop_last() =~= definitions@.take(i as int));
            assert(definitions@.take(i + 1).last() == definitions@[i as int]);
        }
        let in_focus = match focus {
            Some(f) => same_text(f.id.as_str(), d.id.as_str()),
            None => false,
        };
        if !in_focus {
            push_link(&mut links, link_definition(path, d));
            assert(link_views(links@) =~= head + definition_links(
                path@,
                definitions@.take(i + 1),
                focus_id,
            ));
        }
        i += 1;
    }
    assert(definitions@.take(i as int) =~= definitions@);
    let ghost middle = link_views(links@);
    let ghost rest = Seq::new(neighbors@.len(), |k: int| neighbor_link(neighbors@[k]));
    let mut j: usize = 0;
    assert(middle + rest.take(0) =~= middle);
    while j < neighbors.len()
        invariant
            j <= neighbors.len(),
            rest == Seq::new(neighbors@.len(), |k: int| neighbor_link(neighbors@[k])),
            link_views(links@) == middle + rest.take(j as int),
        decreases neighbors.len() - j,
    {
        let n = &neighbors[j];
        push_link(
            &mut links,
            ContextBundleQuickLink {
                kind: QuickLinkType::RelatedSymbol,
                label: n.neighbor.name.clone(),
                path: own_text(neighbor_file_path(n)),
                direction: Some(n.direction),
                symbol_id: Some(n.neighbor.id.clone()),
                symbol_kind: Some(n.neighbor.kind.clone()),
            },
        );
        assert(link_views(links@) =~= middle + rest.take(j + 1));
        j += 1;
    }
    assert(rest.take(j as int) =~= rest);
    let ghost before = links@;
    if links.len() > MAX_QUICK_LINKS {
        links.truncate(MAX_QUICK_LINKS);
        assert(link_views(links@) =~= link_views(before).take(MAX_QUICK_LINKS as int));
    }
    links
}

/// What is said about a file without definitions or without stored content.
pub open spec fn missing_warnings(no_definitions: bool, no_content: bool) -> Seq<Seq<char>> {
    let first = if no_definitions {
        seq!["No graph metadata recorded for the requested file."@]
    } else {
        Seq::empty()
    };
    if no_content {
        first.push("File content was not stored in the index; snippets may be limited."@)
    } else {
        first
    }
}

/// What is said about a file without definitions or without stored content.
pub fn gather_warnings(definitions: &[BundleDefinition], content: Option<&str>) -> (r: Vec<String>)
    ensures
        texts(r@) == missing_warnings(definitions@.len() == 0, content is None),
{
    let mut out: Vec<String> = Vec::new();
    assert(texts(out@) =~= Seq::<Seq<char>>::empty());
    if definitions.len() == 0 {
        push_text(&mut out, "No graph metadata recorded for the requested file.".to_owned());
        assert(texts(out@) =~= seq!["No graph metadata recorded for the requested file."@]);
    }
    if content.is_none() {
        push_text(
            &mut out,
            "File content was not stored in the index; snippets may be limited.".to_owned(),
        );
    }
    out
}

// ---------------------------------------------------------------------------
// What holds of the bundle's graph
// ---------------------------------------------------------------------------

/// The line around a character is a whole line of the text, without white space at its
/// ends, and the character stands in that line.
pub proof fn law_line_around(s: Seq<char>, i: int)
    requires
        0 <= i < s.len(),
        s[i] != '\n',
    ensures
        exists|a: int, b: int|
            {
                &&& 0 <= a <= i < b <= s.len()
                &&& line_around(s, i) == trimmed(#[trigger] s.subrange(a, b))
                &&& a == 0 || s[a - 1] == '\n'
                &&& b == s.len() || s[b] == '\n'
                &&& forall|k: int| a <= k < b ==> s[k] != '\n'
            },
{
    lemma_newline_before(s, i);
    let a = last_newline(s, i) + 1;
    let rest = s.skip(a);
    crate::pieces::lemma_position_of(rest, '\n');
    let p = crate::pieces::position_of(rest, '\n');
    let b = a + p;
    assert forall|k: int| a <= k < b implies s[k] != '\n' by {
        assert(rest[k - a] == s[k]);
    }
    if p < rest.len() {
        assert(rest[p] == s[b]);
        assert(rest[i - a] == s[i]);
        assert(rest.take(p) =~= s.subrange(a, b));
        let line = s.subrange(a, b);
        if line.len() > 0 && line.last() == '\r' {
            lemma_trimmed_cr(line);
        }
    } else {
        assert(rest =~= s.subrange(a, b));
    }
    assert(i < b) by {
        if b <= i {
            assert(rest[p] == s[b]);
        }
    }
}

proof fn lemma_newline_before(s: Seq<char>, end: int)
    requires
        0 <= end <= s.len(),
    ensures
        -1 <= last_newline(s, end) < end || (end == 0 && last_newline(s, end) == -1),
        last_newline(s, end) >= 0 ==> s[last_newline(s, end)] == '\n',
        forall|k: int| last_newline(s, end) < k < end && 0 <= k ==> s[k] != '\n',
    decreases end,
{
    if end > 0 && s[end - 1] != '\n' {
        lemma_newline_before(s, end - 1);
    }
}

proof fn lemma_trimmed_cr(line: Seq<char>)
    requires
        line.len() > 0,
        line.last() == '\r',
    ensures
        trimmed(line.drop_last()) == trimmed(line),
    decreases line.len(),
{
    let t = line.drop_last();
    if t.len() > 0 && crate::text::is_white_space(t[0]) {
        lemma_trimmed_cr(line.drop_first());
        assert(line.drop_first().drop_last() =~= t.drop_first());
    } else if t.len() == 0 {
        assert(line.drop_first() =~= Seq::<char>::empty());
        assert(crate::text::trimmed_start(line.drop_first()) =~= Seq::<char>::empty());
        assert(t =~= Seq::<char>::empty());
    } else {
        assert(line[0] == t[0]);
        assert(crate::text::trimmed_start(line) == line);
        assert(crate::text::trimmed_start(t) == t);
    }
}

/// The word stands somewhere in the line.
pub open spec fn says(line: Seq<char>, word: Seq<char>) -> bool {
    exists|i: int|
        0 <= i && i + word.len() <= line.len() && #[trigger] line.subrange(i, i + word.len())
            == word
}

proof fn lemma_says(line: Seq<char>, word: Seq<char>)
    ensures
        says(line, word) <==> contains_text(line, word),
{
    if contains_text(line, word) {
        let i = choose|i: int| crate::pieces::occurs_at(line, word, i);
        assert(line.subrange(i, i + word.len()) == word);
    }
    if says(line, word) {
        let i = choose|i: int|
            0 <= i && i + word.len() <= line.len() && #[trigger] line.subrange(i, i + word.len())
                == word;
        assert(crate::pieces::occurs_at(line, word, i));
    }
}

/// A definition is private exactly where its line says so, and protected exactly where its
/// line says that and not that it is private. It is public where its line says so or that
/// it is exported, or where it is the method of a class, unless its line says one of the
/// first two.
pub proof fn law_visibility(line: Seq<char>, method_of_class: bool)
    ensures
        visibility_of(line, method_of_class) == "private"@ <==> says(line, "private"@),
        visibility_of(line, method_of_class) == "protected"@ <==> says(line, "protected"@) && !says(
            line,
            "private"@,
        ),
        visibility_of(line, method_of_class) == "public"@ <==> !says(line, "private"@) && !says(
            line,
            "protected"@,
        ) && (says(line, "public"@) || says(line, "export"@) || method_of_class),
        visibility_of(line, method_of_class) == "internal"@ <==> !says(line, "private"@) && !says(
            line,
            "protected"@,
        ) && !says(line, "public"@) && !says(line, "export"@) && !method_of_class,
{
    reveal_strlit("private");
    reveal_strlit("protected");
    reveal_strlit("public");
    reveal_strlit("internal");
    lemma_says(line, "private"@);
    lemma_says(line, "protected"@);
    lemma_says(line, "public"@);
    lemma_says(line, "export"@);
    assert("private"@[1] != "public"@[1]);
    assert("protected"@.len() == 9 && "internal"@.len() == 8 && "private"@.len() == 7
        && "public"@.len() == 6);
}

/// Only marks are taken away from the front of a line of a comment, and all of them.
pub proof fn law_without_marks(s: Seq<char>, mark: char)
    ensures
        exists|n: int|
            {
                &&& 0 <= n <= s.len()
                &&& without_marks(s, mark) == #[trigger] s.skip(n)
                &&& forall|i: int| 0 <= i < n ==> s[i] == mark
                &&& n < s.len() ==> s[n] != mark
            },
    decreases s.len(),
{
    if s.len() > 0 && s[0] == mark {
        let rest = s.drop_first();
        law_without_marks(rest, mark);
        let n = choose|n: int|
            {
                &&& 0 <= n <= rest.len()
                &&& without_marks(rest, mark) == #[trigger] rest.skip(n)
                &&& forall|i: int| 0 <= i < n ==> rest[i] == mark
                &&& n < rest.len() ==> rest[n] != mark
            };
        assert(rest.skip(n) =~= s.skip(n + 1));
        assert forall|i: int| 0 <= i < n + 1 implies s[i] == mark by {
            if i > 0 {
                assert(rest[i - 1] == s[i]);
            }
        }
    } else {
        assert(s.skip(0) =~= s);
    }
}

/// Every line of a comment that says anything is kept, without its marks, and no other.
pub proof fn law_comment_lines(front: Seq<Seq<char>>, line: Seq<char>, back: Seq<Seq<char>>, mark: char)
    ensures
        ({
            let said = trimmed(without_marks(line, mark));
            comment_lines(front + seq![line] + back, mark) == comment_lines(front, mark) + (
            if said.len() > 0 {
                seq![said]
            } else {
                Seq::empty()
            }) + comment_lines(back, mark)
        }),
        comment_lines(Seq::empty(), mark) == Seq::<Seq<char>>::empty(),
    decreases back.len(),
{
    let all = front + seq![line] + back;
    let said = trimmed(without_marks(line, mark));
    let kept = if said.len() > 0 {
        seq![said]
    } else {
        Seq::empty()
    };
    if back.len() == 0 {
        assert(all.drop_last() =~= front);
        assert(all.last() == line);
        assert(comment_lines(all, mark) =~= comment_lines(front, mark) + kept + comment_lines(
            back,
            mark,
        ));
    } else {
        law_comment_lines(front, line, back.drop_last(), mark);
        assert(all.drop_last() =~= front + seq![line] + back.drop_last());
        assert(all.last() == back.last());
        assert(comment_lines(all, mark) =~= comment_lines(front, mark) + kept + comment_lines(
            back,
            mark,
        ));
    }
}

/// A definition is documented exactly where one of its comments says anything. What the
/// block comment says comes before what the line comments say.
pub proof fn law_documentation(block: Option<Seq<char>>, line: Option<Seq<char>>)
    ensures
        documentation(block, line) matches Some(d) ==> d.len() > 0,
        block matches Some(b) ==> comment_text(b, '*').len() > 0 ==> documentation(block, line)
            == Some(comment_text(b, '*')),
        block is None ==> (line matches Some(l) ==> comment_text(l, '/').len() > 0
            ==> documentation(block, line) == Some(comment_text(l, '/'))),
        block matches Some(b) ==> comment_text(b, '*').len() == 0 ==> documentation(block, line)
            == documentation(None, line),
        documentation(None, None) is None,
        line matches Some(l) ==> comment_text(l, '/').len() == 0 ==> documentation(None, line)
            is None,
{
}

/// A selector names a definition whatever the case of the letters, and it names one of
/// another kind only where it asks for no kind.
pub proof fn law_selector(name: Seq<char>, kind: Option<Seq<char>>, d: BundleDefinition)
    ensures
        selects(d.name@, None, d),
        selects(d.name@, Some(d.kind@), d),
        selects(name, kind, d) ==> lowercase(d.name@) == lowercase(name),
        kind matches Some(k) ==> selects(name, kind, d) ==> ascii_lower(k) == ascii_lower(d.kind@),
        lowercase(d.name@) == lowercase(name) ==> selects(name, None, d),
        kind matches Some(k) ==> selects(name, None, d) && ascii_lower(k) == ascii_lower(d.kind@)
            ==> selects(name, kind, d),
{
}

/// All lookups for a neighbour look into its file. Its range is tried first, where it is
/// known, and covers its start; its own id and its name are tried, in that order, whatever
/// else is known; the file's first snippet is the last resort.
pub proof fn law_lookups(n: NeighborNode, path: Seq<char>, identifier: Option<Seq<char>>)
    ensures
        ({
            let ls = lookups_for(n, path, identifier);
            let by_id = LookupView::ByIdentifier { path, identifier: n.id@ };
            let by_name = LookupView::BySymbol { path, symbol: n.name@ };
            &&& ls.len() >= 3
            &&& ls.last() == LookupView::First { path }
            &&& ls[ls.len() - 2] == by_name
            &&& ls[ls.len() - 3] == by_id
            &&& forall|k: int|
                0 <= k < ls.len() ==> match #[trigger] ls[k] {
                    LookupView::ByRange { path: p, .. } => p == path,
                    LookupView::ByIdentifier { path: p, .. } => p == path,
                    LookupView::BySymbol { path: p, .. } => p == path,
                    LookupView::First { path: p } => p == path,
                }
            &&& n.range_start matches Some(start) ==> n.range_end matches Some(end) ==> ls[0]
                == (LookupView::ByRange { path, start, end })
            &&& n.range_start matches Some(start) ==> n.range_end is None ==> ls[0] == (
            LookupView::ByRange { path, start, end: start })
            &&& n.range_start is None ==> forall|k: int|
                0 <= k < ls.len() ==> !(#[trigger] ls[k] is ByRange)
            &&& identifier matches Some(v) ==> ls.contains(
                LookupView::ByIdentifier { path, identifier: v },
            )
            &&& ls.no_duplicates()
        }),
{
    let ls = lookups_for(n, path, identifier);
    if let Some(v) = identifier {
        let wanted = LookupView::ByIdentifier { path, identifier: v };
        if v == n.id@ {
            assert(ls[ls.len() - 3] == wanted);
        } else {
            assert(ls[ls.len() - 4] == wanted);
        }
    }
}

/// The facts about a neighbour name its edge and its node as they are: which way the edge
/// goes, and the paths where they are known. No fact is told twice.
pub proof fn law_neighbor_facts(n: BundleEdgeNeighbor)
    ensures
        neighbor_facts(n).contains(("neighborEdgeId"@, n.id@)),
        neighbor_facts(n).contains(("neighborType"@, n.kind@)),
        n.direction is Incoming ==> neighbor_facts(n).contains(
            ("neighborDirection"@, "incoming"@),
        ),
        n.direction is Outgoing ==> neighbor_facts(n).contains(
            ("neighborDirection"@, "outgoing"@),
        ),
        n.source_path matches Some(p) ==> neighbor_facts(n).contains(("neighborSourcePath"@, p@)),
        n.target_path matches Some(p) ==> neighbor_facts(n).contains(("neighborTargetPath"@, p@)),
        neighbor_path(n) matches Some(p) ==> neighbor_facts(n).contains(("neighborPath"@, p)),
        neighbor_facts(n).contains(("neighborSymbolId"@, n.neighbor.id@)),
        neighbor_facts(n).contains(("neighborSymbolName"@, n.neighbor.name@)),
        neighbor_facts(n).contains(("neighborSymbolKind"@, n.neighbor.kind@)),
        neighbor_facts(n).len() == 6 + (if neighbor_path(n) is Some {
            1int
        } else {
            0
        }) + (if n.source_path is Some {
            1int
        } else {
            0
        }) + (if n.target_path is Some {
            1int
        } else {
            0
        }),
{
    let f = neighbor_facts(n);
    let l = f.len() as int;
    assert(f[0] == ("neighborEdgeId"@, n.id@));
    assert(f[1] == ("neighborType"@, n.kind@));
    assert(f[2].0 == "neighborDirection"@);
    assert(f[l - 1] == ("neighborSymbolKind"@, n.neighbor.kind@));
    assert(f[l - 2] == ("neighborSymbolName"@, n.neighbor.name@));
    assert(f[l - 3] == ("neighborSymbolId"@, n.neighbor.id@));
    let k: int = if neighbor_path(n) is Some {
        4
    } else {
        3
    };
    if let Some(p) = neighbor_path(n) {
        assert(f[3] == ("neighborPath"@, p));
    }
    if let Some(p) = n.source_path {
        assert(f[k] == ("neighborSourcePath"@, p@));
    }
    if let Some(p) = n.target_path {
        assert(f[l - 4] == ("neighborTargetPath"@, p@));
    }
}

/// A fact is added exactly where the stored object has no member of that name.
pub proof fn law_missing_fields(
    stored: Option<Seq<char>>,
    facts: Seq<(Seq<char>, Seq<char>)>,
    fact: (Seq<char>, Seq<char>),
)
    ensures
        missing_fields(stored, facts).contains(fact) <==> facts.contains(fact) && (
        stored matches Some(object) ==> !json_member(object, fact.0)),
        stored is None ==> missing_fields(stored, facts) == facts,
    decreases facts.len(),
{
    if facts.len() > 0 {
        let front = facts.drop_last();
        law_missing_fields(stored, front, fact);
        let before = missing_fields(stored, front);
        let all = missing_fields(stored, facts);
        assert(facts =~= front.push(facts.last()));
        if all.len() > before.len() {
            lemma_contains_push(before, facts.last(), fact);
        }
        lemma_contains_push(front, facts.last(), fact);
    }
}

proof fn lemma_contains_push<T>(s: Seq<T>, last: T, x: T)
    ensures
        s.push(last).contains(x) <==> s.contains(x) || x == last,
{
    let all = s.push(last);
    if s.contains(x) {
        let i = choose|i: int| 0 <= i < s.len() && s[i] == x;
        assert(all[i] == x);
    }
    if x == last {
        assert(all[s.len() as int] == x);
    }
    if all.contains(x) {
        let i = choose|i: int| 0 <= i < all.len() && all[i] == x;
        if i < s.len() {
            assert(s[i] == x);
        }
    }
}

/// There is a link to a definition exactly where it is not the one in focus.
pub proof fn law_definition_links(
    path: Seq<char>,
    ds: Seq<BundleDefinition>,
    focus: Option<Seq<char>>,
    k: int,
)
    ensures
        0 <= k < ds.len() && focus != Some(ds[k].id@) ==> exists|j: int|
            0 <= j < definition_links(path, ds, focus).len() && (#[trigger] definition_links(
                path,
                ds,
                focus,
            )[j]).symbol_id == Some(ds[k].id@) && definition_links(path, ds, focus)[j].label
                == ds[k].name@ && definition_links(path, ds, focus)[j].symbol_kind == Some(
                ds[k].kind@,
            ) && definition_links(path, ds, focus)[j].path == Some(path),
        0 <= k < definition_links(path, ds, focus).len() ==> definition_links(
            path,
            ds,
            focus,
        )[k].symbol_id is Some && definition_links(path, ds, focus)[k].symbol_id != focus
            && definition_links(path, ds, focus)[k].direction is None && definition_links(
            path,
            ds,
            focus,
        )[k].kind == QuickLinkType::RelatedSymbol && exists|j: int|
            0 <= j < ds.len() && Some((#[trigger] ds[j]).id@) == definition_links(
                path,
                ds,
                focus,
            )[k].symbol_id,
    decreases ds.len(),
{
    if ds.len() > 0 {
        let front = ds.drop_last();
        law_definition_links(path, front, focus, k);
        let before = definition_links(path, front, focus);
        let all = definition_links(path, ds, focus);
        if 0 <= k < ds.len() && focus != Some(ds[k].id@) {
            if k < front.len() {
                assert(front[k] == ds[k]);
                let j = choose|j: int|
                    0 <= j < before.len() && (#[trigger] before[j]).symbol_id == Some(ds[k].id@)
                        && before[j].label == ds[k].name@ && before[j].symbol_kind == Some(
                        ds[k].kind@,
                    ) && before[j].path == Some(path);
                assert(all[j] == before[j]);
            } else {
                assert(all[all.len() - 1].symbol_id == Some(ds[k].id@));
            }
        }
        if 0 <= k < all.len() {
            if k < before.len() {
                assert(all[k] == before[k]);
                let j = choose|j: int|
                    0 <= j < front.len() && Some((#[trigger] front[j]).id@) == before[k].symbol_id;
                assert(ds[j] == front[j]);
            } else {
                assert(ds[ds.len() - 1].id@ == ds.last().id@);
            }
        }
    }
}

/// The links begin with the file itself, then come to the definition in focus, and end with
/// one link for each neighbour, in their order, each with the way its edge goes.
pub proof fn law_quick_links(
    path: Seq<char>,
    ds: Seq<BundleDefinition>,
    ns: Seq<BundleEdgeNeighbor>,
    focus: Option<BundleDefinition>,
)
    ensures
        ({
            let ls = all_links(path, ds, ns, focus);
            &&& ls.len() > ns.len()
            &&& ls[0].kind == QuickLinkType::File && ls[0].label == path && ls[0].path == Some(path)
                && ls[0].symbol_id is None
            &&& focus matches Some(d) ==> ls.len() > 1 + ns.len() && ls[1].symbol_id == Some(d.id@)
                && ls[1].label == d.name@ && ls[1].path == Some(path)
            &&& forall|k: int|
                0 <= k < ns.len() ==> {
                    let l = #[trigger] ls[ls.len() - ns.len() + k];
                    l.label == ns[k].neighbor.name@ && l.symbol_id == Some(ns[k].neighbor.id@)
                        && l.symbol_kind == Some(ns[k].neighbor.kind@) && l.direction == Some(
                        ns[k].direction,
                    ) && l.path == neighbor_path(ns[k]) && l.kind == QuickLinkType::RelatedSymbol
                }
            &&& first_links(ls).is_prefix_of(ls)
            &&& ls.len() <= 16 ==> first_links(ls).len() == ls.len()
            &&& ls.len() >= 16 ==> first_links(ls).len() == 16
        }),
{
}

/// Each warning is given exactly where it applies.
pub proof fn law_missing_warnings(no_definitions: bool, no_content: bool)
    ensures
        missing_warnings(no_definitions, no_content).len() == (if no_definitions {
            1int
        } else {
            0
        }) + (if no_content {
            1int
        } else {
            0
        }),
        no_definitions ==> missing_warnings(no_definitions, no_content)[0]
            == "No graph metadata recorded for the requested file."@,
        no_content ==> missing_warnings(no_definitions, no_content).last()
            == "File content was not stored in the index; snippets may be limited."@,
{
}

/// Called at both ends of an edge, the direction is outgoing at its source and incoming at its
/// target, and each end is told of the other.
pub proof fn law_edge_told_at_ends(
    edge: &EdgeRow,
    source: &str,
    target: &str,
    at_source: NeighborDirection,
    at_target: NeighborDirection,
    from_source: &str,
    from_target: &str,
)
    requires
        edge.source_id@ == source@,
        edge.target_id@ == target@,
        source@ != target@,
        call_ensures(edge_direction, (edge, source), at_source),
        call_ensures(edge_direction, (edge, target), at_target),
        call_ensures(neighbor_id, (edge, source), from_source),
        call_ensures(neighbor_id, (edge, target), from_target),
    ensures
        at_source is Outgoing,
        at_target is Incoming,
        from_source@ == target@,
        from_target@ == source@,
{
}

} // verus!
