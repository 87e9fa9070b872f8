//! The names and the mapping files of nearest-neighbour indexes.

use vstd::prelude::*;
use vstd::slice::slice_subrange;
use crate::paths::{
    file_name, file_name_of, is_absolute, is_real, is_rooted, join_path, names_something, path_in,
};
use crate::pieces::{
    filled, find_last, join, joined, keep_filled, last_position, lemma_filled_all,
    lemma_position_of, lemma_position_unique, lines_of, split, split_on, str_lines, texts,
    without_cr,
};
use crate::text::{chars_of, is_ascii_alnum, is_ascii_alphanumeric, string_of, trim_str, trimmed};

verus! {

/// Where the base name of the index is recorded.
pub const ANN_META_BASENAME_KEY: &'static str = "embedding_ann_basename";

/// Where the name of the mapping file is recorded.
pub const ANN_META_MAPPING_KEY: &'static str = "embedding_ann_mapping";

/// What was written of an index.
#[derive(Debug, Clone)]
pub struct AnnIndexInfo {
    pub basename: String,
    pub mapping_filename: String,
    pub dimension: usize,
}

// ---------------------------------------------------------------------------
// Labels
// ---------------------------------------------------------------------------

/// The character may stand in a label.
pub open spec fn is_label_char(c: char) -> bool {
    is_ascii_alnum(c) || c == '-' || c == '_' || c == '.'
}

/// A text as a label: what may not stand in one becomes an underscore, and an empty text
/// becomes `ann`.
pub open spec fn label_of(input: Seq<char>) -> Seq<char> {
    if input.len() == 0 {
        "ann"@
    } else {
        Seq::new(input.len(), |i: int| if is_label_char(input[i]) { input[i] } else { '_' })
    }
}

/// A text as a label.
pub fn sanitize_label(input: &str) -> (r: String)
    ensures
        r@ == label_of(input@),
{
    let v = chars_of(input);
    if v.len() == 0 {
        return "ann".to_owned();
    }
    let mut out = String::new();
    let mut i: usize = 0;
    assert(out@ =~= label_of(input@).take(0));
    while i < v.len()
        invariant
            v@ == input@,
            v@.len() > 0,
            i <= v.len(),
            out@ == label_of(input@).take(i as int),
        decreases v.len() - i,
    {
        let c = v[i];
        let kept = is_ascii_alphanumeric(c) || c == '-' || c == '_' || c == '.';
        let next = if kept {
            c
        } else {
            '_'
        };
        assert(label_of(input@).take(i + 1) =~= label_of(input@).take(i as int).push(next));
        out.push(next);
        i += 1;
    }
    assert(label_of(input@).take(i as int) =~= label_of(input@));
    out
}

/// A label is never empty and holds nothing but ASCII letters and digits, hyphens,
/// underscores and dots.
pub proof fn law_label_alphabet(input: Seq<char>)
    ensures
        label_of(input).len() > 0,
        forall|i: int|
            0 <= i < label_of(input).len() ==> is_label_char(#[trigger] label_of(input)[i]),
{
    reveal_strlit("ann");
}

/// A label is its own label.
pub proof fn law_label_stable(input: Seq<char>)
    ensures
        label_of(label_of(input)) == label_of(input),
{
    law_label_alphabet(input);
    assert(label_of(label_of(input)) =~= label_of(input));
}

/// The stem of a file name: what stands in front of its last dot, unless nothing does.
pub open spec fn stem_of_name(name: Seq<char>) -> Seq<char> {
    if last_position(name, '.') <= 0 {
        name
    } else {
        name.take(last_position(name, '.'))
    }
}

/// The stem of the file that a path leads to.
pub open spec fn file_stem_of(path: Seq<char>) -> Option<Seq<char>> {
    match file_name_of(path) {
        Some(name) => Some(stem_of_name(name)),
        None => None,
    }
}

/// The stem of the file that a path leads to.
pub fn file_stem(path: &str) -> (r: Option<String>)
    ensures
        match r {
            Some(stem) => file_stem_of(path@) == Some(stem@),
            None => file_stem_of(path@) is None,
        },
{
    match file_name(path) {
        Some(name) => {
            let v = chars_of(name.as_str());
            let dot: usize = find_last(v.as_slice(), '.');
            if dot <= 1 {
                Some(name)
            } else {
                let head = slice_subrange(v.as_slice(), 0, dot - 1);
                assert(head@ =~= name@.take(dot - 1));
                Some(string_of(head))
            }
        },
        None => None,
    }
}

/// The prefix of an index: the labels of the database's stem, the model and the backend.
pub open spec fn base_prefix_of(
    database_path: Seq<char>,
    model: Seq<char>,
    backend_label: Seq<char>,
) -> Seq<char> {
    let stem = match file_stem_of(database_path) {
        Some(stem) => stem,
        None => "index"@,
    };
    label_of(stem) + "-"@ + label_of(model) + "-"@ + label_of(backend_label)
}

/// The prefix of an index over a database, a model and a backend.
pub fn ann_base_prefix(database_path: &str, model: &str, backend_label: &str) -> (r: String)
    ensures
        r@ == base_prefix_of(database_path@, model@, backend_label@),
{
    let stem = match file_stem(database_path) {
        Some(stem) => stem,
        None => "index".to_owned(),
    };
    let mut out = sanitize_label(stem.as_str());
    out.append("-");
    out.append(sanitize_label(model).as_str());
    out.append("-");
    out.append(sanitize_label(backend_label).as_str());
    out
}

/// A prefix can stand in a file name: it is a label itself.
pub proof fn law_prefix_is_label(
    database_path: Seq<char>,
    model: Seq<char>,
    backend_label: Seq<char>,
)
    ensures
        label_of(base_prefix_of(database_path, model, backend_label)) == base_prefix_of(
            database_path,
            model,
            backend_label,
        ),
{
    let stem = match file_stem_of(database_path) {
        Some(stem) => stem,
        None => "index"@,
    };
    law_label_alphabet(stem);
    law_label_alphabet(model);
    law_label_alphabet(backend_label);
    reveal_strlit("-");
    let p = base_prefix_of(database_path, model, backend_label);
    assert(label_of(p) =~= p);
}

/// The base name that an index is written under: the label of its prefix and an
/// identifier.
pub fn index_basename(base_prefix: &str, id: &str) -> (r: String)
    ensures
        r@ == label_of(base_prefix@) + "-"@ + id@,
{
    let mut out = sanitize_label(base_prefix);
    out.append("-");
    out.append(id);
    out
}

// ---------------------------------------------------------------------------
// Where an index lies
// ---------------------------------------------------------------------------

/// The parts up to the last one that names something. A dot names something where it is
/// the first part of a path.
pub open spec fn parts_to_last_named(parts: Seq<Seq<char>>) -> Seq<Seq<char>>
    decreases parts.len(),
{
    if parts.len() == 0 || is_real(parts.last()) || (parts.len() == 1 && parts[0] == seq!['.']) {
        parts
    } else {
        parts_to_last_named(parts.drop_last())
    }
}

/// The directory of a path; `None` for the root of the file system and for the empty path.
pub open spec fn parent_of(path: Seq<char>) -> Option<Seq<char>> {
    let named = parts_to_last_named(split_on(path, '/'));
    if named.len() == 0 {
        None
    } else {
        let above = parts_to_last_named(named.drop_last());
        Some(
            if above.len() > 0 {
                joined(above, "/"@)
            } else if is_rooted(path) {
                "/"@
            } else {
                Seq::empty()
            },
        )
    }
}

/// How many parts stand up to the last of the first `n` that names something.
fn count_to_last_named(parts: &Vec<String>, n: usize) -> (r: usize)
    requires
        n <= parts@.len(),
    ensures
        r <= n,
        parts_to_last_named(texts(parts@).take(n as int)) == texts(parts@).take(r as int),
{
    let ghost all = texts(parts@);
    let mut k: usize = n;
    while k > 0 && !names_something(parts[k - 1].as_str())
        invariant
            k <= n <= parts@.len(),
            all == texts(parts@),
            parts_to_last_named(all.take(n as int)) == parts_to_last_named(all.take(k as int)),
        decreases k,
    {
        assert(all.take(k as int).last() == parts@[k - 1]@);
        if k == 1 && !parts[0].as_str().is_empty() {
            assert(parts@[0]@ == seq!['.']);
            return 1;
        }
        proof {
            if k == 1 {
                assert(parts@[0]@.len() == 0);
            }
        }
        assert(all.take(k as int).drop_last() =~= all.take(k - 1));
        k -= 1;
    }
    proof {
        if k > 0 {
            assert(all.take(k as int).last() == parts@[k - 1]@);
        }
    }
    k
}

/// The directory of a path; `None` for the root of the file system and for the empty path.
pub fn parent(path: &str) -> (r: Option<String>)
    ensures
        match r {
            Some(dir) => parent_of(path@) == Some(dir@),
            None => parent_of(path@) is None,
        },
{
    let v = chars_of(path);
    let parts = split(v.as_slice(), '/');
    let ghost all = texts(parts@);
    assert(all.take(parts.len() as int) =~= all);
    let named = count_to_last_named(&parts, parts.len());
    if named == 0 {
        return None;
    }
    assert(all.take(named as int).drop_last() =~= all.take(named - 1));
    let above = count_to_last_named(&parts, named - 1);
    if above == 0 {
        let dir = if is_absolute(path) {
            "/"
        } else {
            ""
        };
        proof {
            reveal_strlit("");
            assert(""@ =~= Seq::<char>::empty());
        }
        return Some(dir.to_owned());
    }
    let dirs = slice_subrange(parts.as_slice(), 0, above);
    assert(texts(dirs@) =~= all.take(above as int));
    Some(join(dirs, "/"))
}

/// The directory that indexes of a database lie in: `.ann` beside the database.
pub fn ann_directory(database_path: &str) -> (r: String)
    ensures
        r@ == match parent_of(database_path@) {
            Some(dir) => path_in(dir, ".ann"@),
            None => ".ann"@,
        },
{
    match parent(database_path) {
        Some(dir) => join_path(dir.as_str(), ".ann"),
        None => ".ann".to_owned(),
    }
}

/// The files of an index.
#[derive(Debug, Clone)]
pub struct AnnFiles {
    pub graph: String,
    pub data: String,
    pub ids: String,
}

/// The files of the index with that base name; none for a blank name.
pub fn ann_files(basename: &str) -> (r: Option<AnnFiles>)
    ensures
        match r {
            Some(files) => {
                &&& trimmed(basename@).len() > 0
                &&& files.graph@ == basename@ + ".hnsw.graph"@
                &&& files.data@ == basename@ + ".hnsw.data"@
                &&& files.ids@ == basename@ + ".ids"@
            },
            None => trimmed(basename@).len() == 0,
        },
{
    if trim_str(basename).as_str().is_empty() {
        return None;
    }
    let mut graph = basename.to_owned();
    graph.append(".hnsw.graph");
    let mut data = basename.to_owned();
    data.append(".hnsw.data");
    let mut ids = basename.to_owned();
    ids.append(".ids");
    Some(AnnFiles { graph, data, ids })
}

/// What is recorded of an index that was written under a base name.
pub fn index_info(basename: String, dimension: usize) -> (r: AnnIndexInfo)
    ensures
        r.basename == basename,
        r.mapping_filename@ == basename@ + ".ids"@,
        r.dimension == dimension,
{
    let mut mapping_filename = basename.clone();
    mapping_filename.append(".ids");
    AnnIndexInfo { basename, mapping_filename, dimension }
}

// ---------------------------------------------------------------------------
// What goes into an index
// ---------------------------------------------------------------------------

/// The positions of the vectors with as many components as the first one.
pub open spec fn alike(dimensions: Seq<usize>, n: int) -> Seq<int>
    decreases n,
{
    if n <= 0 {
        Seq::empty()
    } else if dimensions[n - 1] == dimensions[0] {
        alike(dimensions, n - 1).push(n - 1)
    } else {
        alike(dimensions, n - 1)
    }
}

/// The dimension of an index over vectors with these dimensions, and the positions of
/// those that it holds; `None` where there is nothing to index.
pub fn indexed_vectors(dimensions: &[usize]) -> (r: Option<(usize, Vec<usize>)>)
    ensures
        match r {
            Some((dimension, kept)) => {
                &&& dimensions@.len() > 0
                &&& dimension == dimensions@[0]
                &&& dimension > 0
                &&& kept@.len() == alike(dimensions@, dimensions@.len() as int).len()
                &&& forall|k: int|
                    0 <= k < kept@.len() ==> #[trigger] kept@[k] == alike(
                        dimensions@,
                        dimensions@.len() as int,
                    )[k]
            },
            None => dimensions@.len() == 0 || dimensions@[0] == 0,
        },
{
    if dimensions.len() == 0 || dimensions[0] == 0 {
        return None;
    }
    let dimension: usize = dimensions[0];
    let mut kept: Vec<usize> = Vec::new();
    let mut i: usize = 0;
    while i < dimensions.len()
        invariant
            i <= dimensions@.len(),
            dimensions@.len() > 0,
            dimension == dimensions@[0],
            kept@.len() == alike(dimensions@, i as int).len(),
            forall|k: int|
                0 <= k < kept@.len() ==> #[trigger] kept@[k] == alike(dimensions@, i as int)[k],
        decreases dimensions.len() - i,
    {
        if dimensions[i] == dimension {
            kept.push(i);
        }
        i += 1;
    }
    Some((dimension, kept))
}

// ---------------------------------------------------------------------------
// The mapping file
// ---------------------------------------------------------------------------

/// The mapping file over these identifiers: one on each line.
pub open spec fn mapping_of(ids: Seq<Seq<char>>) -> Seq<char>
    decreases ids.len(),
{
    if ids.len() == 0 {
        Seq::empty()
    } else {
        mapping_of(ids.drop_last()) + ids.last() + "\n"@
    }
}

/// The mapping file over these identifiers.
pub fn mapping_text(ids: &Vec<String>) -> (r: String)
    ensures
        r@ == mapping_of(texts(ids@)),
{
    let ghost all = texts(ids@);
    let mut out = String::new();
    let mut i: usize = 0;
    assert(out@ =~= mapping_of(all.take(0)));
    while i < ids.len()
        invariant
            i <= ids@.len(),
            all == texts(ids@),
            out@ == mapping_of(all.take(i as int)),
        decreases ids.len() - i,
    {
        proof {
            assert(all.take(i + 1).drop_last() =~= all.take(i as int));
            assert(all.take(i + 1).last() == ids@[i as int]@);
        }
        out.append(ids[i].as_str());
        out.append("\n");
        i += 1;
    }
    assert(all.take(i as int) =~= all);
    out
}

/// The identifiers of a mapping file: its lines that hold something.
pub fn read_mapping(content: &str) -> (r: Vec<String>)
    ensures
        texts(r@) == filled(lines_of(content@)),
{
    let lines = str_lines(content);
    keep_filled(&lines)
}

/// The identifier keeps to one line: it is not empty, holds no line feed and does not end
/// in a carriage return.
pub open spec fn on_one_line(id: Seq<char>) -> bool {
    id.len() > 0 && !id.contains('\n') && id.last() != '\r'
}

/// Of a text whose first line is `id`, the lines are `id` and those of the rest.
proof fn lemma_first_line(id: Seq<char>, rest: Seq<char>)
    requires
        on_one_line(id),
    ensures
        lines_of(id + "\n"@ + rest) == seq![id] + lines_of(rest),
{
    reveal_strlit("\n");
    let s = id + "\n"@ + rest;
    assert(s[id.len() as int] == '\n');
    assert forall|i: int| 0 <= i < id.len() implies s[i] != '\n' by {
        assert(s[i] == id[i]);
        assert(id.contains(id[i]));
    }
    lemma_position_of(s, '\n');
    lemma_position_unique(s, '\n', id.len() as int);
    assert(s.take(id.len() as int) =~= id);
    assert(s.skip((id.len() + 1) as int) =~= rest);
    assert(without_cr(id) == id);
}

proof fn lemma_mapping_front(ids: Seq<Seq<char>>)
    requires
        ids.len() > 0,
    ensures
        mapping_of(ids) == ids[0] + "\n"@ + mapping_of(ids.drop_first()),
    decreases ids.len(),
{
    if ids.len() == 1 {
        assert(mapping_of(ids.drop_last()) == Seq::<char>::empty());
        assert(mapping_of(ids.drop_first()) == Seq::<char>::empty());
        assert(mapping_of(ids) =~= ids[0] + "\n"@ + mapping_of(ids.drop_first()));
    } else {
        lemma_mapping_front(ids.drop_last());
        assert(ids.drop_last().drop_first() =~= ids.drop_first().drop_last());
        assert(mapping_of(ids) =~= ids[0] + "\n"@ + mapping_of(ids.drop_first()));
    }
}

proof fn lemma_lines_of_mapping(ids: Seq<Seq<char>>)
    requires
        forall|i: int| 0 <= i < ids.len() ==> on_one_line(#[trigger] ids[i]),
    ensures
        lines_of(mapping_of(ids)) == ids,
    decreases ids.len(),
{
    if ids.len() == 0 {
        assert(lines_of(mapping_of(ids)) =~= ids);
    } else {
        lemma_mapping_front(ids);
        lemma_first_line(ids[0], mapping_of(ids.drop_first()));
        lemma_lines_of_mapping(ids.drop_first());
        assert(seq![ids[0]] + ids.drop_first() =~= ids);
    }
}

/// Reading a mapping file gives back the identifiers that were written.
pub proof fn law_mapping_read_back(ids: Seq<Seq<char>>)
    requires
        forall|i: int| 0 <= i < ids.len() ==> on_one_line(#[trigger] ids[i]),
    ensures
        filled(lines_of(mapping_of(ids))) == ids,
{
    lemma_lines_of_mapping(ids);
    lemma_filled_all(ids);
}

/// A label keeps what may stand in one where it stood, and nothing else.
pub proof fn law_label_places(input: Seq<char>, i: int)
    requires
        0 <= i < input.len(),
    ensures
        label_of(input).len() == input.len(),
        is_ascii_alnum(input[i]) || input[i] == '-' || input[i] == '_' || input[i] == '.'
            ==> label_of(input)[i] == input[i],
        !(is_ascii_alnum(input[i]) || input[i] == '-' || input[i] == '_' || input[i] == '.')
            ==> label_of(input)[i] == '_',
        label_of(Seq::empty()) == "ann"@,
{
}

proof fn lemma_last_position(s: Seq<char>, c: char)
    ensures
        -1 <= last_position(s, c) < s.len(),
        last_position(s, c) >= 0 ==> s[last_position(s, c)] == c,
        forall|i: int| last_position(s, c) < i < s.len() ==> s[i] != c,
    decreases s.len(),
{
    if s.len() > 0 && s.last() != c {
        lemma_last_position(s.drop_last(), c);
        assert forall|i: int| last_position(s, c) < i < s.len() implies s[i] != c by {
            if i < s.len() - 1 {
                assert(s[i] == s.drop_last()[i]);
            }
        }
    }
}

/// A file name is its stem with an extension behind it. A name without a dot, or with its only
/// dot in front, is its own stem.
pub proof fn law_stem(stem: Seq<char>, extension: Seq<char>)
    requires
        !extension.contains('.'),
    ensures
        stem.len() > 0 ==> stem_of_name(stem + seq!['.'] + extension) == stem,
        stem_of_name(seq!['.'] + extension) == seq!['.'] + extension,
        stem_of_name(extension) == extension,
{
    let name = stem + seq!['.'] + extension;
    lemma_last_position(name, '.');
    assert(name[stem.len() as int] == '.');
    let p = last_position(name, '.');
    if p > stem.len() {
        assert(extension[p - stem.len() - 1] == '.');
        assert(extension.contains('.'));
    }
    assert(name.take(stem.len() as int) =~= stem);
    let hidden = seq!['.'] + extension;
    lemma_last_position(hidden, '.');
    let q = last_position(hidden, '.');
    if q > 0 {
        assert(extension[q - 1] == '.');
        assert(extension.contains('.'));
    }
    lemma_last_position(extension, '.');
    let o = last_position(extension, '.');
    if o >= 0 {
        assert(extension.contains(extension[o]));
    }
}

/// The prefix of an index begins with the database's label and ends with the backend's.
pub proof fn law_base_prefix(
    database_path: Seq<char>,
    model: Seq<char>,
    backend_label: Seq<char>,
)
    ensures
        ({
            let prefix = base_prefix_of(database_path, model, backend_label);
            &&& file_stem_of(database_path) matches Some(stem) ==> label_of(stem).is_prefix_of(
                prefix,
            )
            &&& file_stem_of(database_path) is None ==> "index-"@.is_prefix_of(prefix)
            &&& ("-"@ + label_of(model) + "-"@ + label_of(backend_label)).is_suffix_of(prefix)
        }),
{
    reveal_strlit("-");
    reveal_strlit("index");
    reveal_strlit("index-");
    let prefix = base_prefix_of(database_path, model, backend_label);
    let tail = "-"@ + label_of(model) + "-"@ + label_of(backend_label);
    let stem = match file_stem_of(database_path) {
        Some(stem) => stem,
        None => "index"@,
    };
    let head = label_of(stem);
    assert(prefix =~= head + tail);
    assert(prefix.subrange(0, head.len() as int) =~= head);
    assert(prefix.subrange(prefix.len() - tail.len(), prefix.len() as int) =~= tail);
    if file_stem_of(database_path) is None {
        assert(label_of("index"@) =~= "index"@);
        assert(prefix.subrange(0, 6) =~= "index-"@);
    }
}

/// The directory of a file that lies in a directory is that directory.
pub proof fn law_parent(dir: Seq<char>, name: Seq<char>)
    requires
        is_real(split_on(dir, '/').last()),
        is_real(name),
        !name.contains('/'),
    ensures
        parent_of(dir + seq!['/'] + name) == Some(dir),
        parent_of(name) == Some(Seq::<char>::empty()),
        parent_of(seq!['/'] + name) == Some("/"@),
        parent_of(Seq::<char>::empty()) is None,
{
    reveal_strlit("/");
    assert("/"@ =~= seq!['/']);
    let parts = split_on(dir, '/');
    crate::pieces::law_split_joined(dir, '/');
    lemma_joined_push(parts, name, '/');
    let all = parts.push(name);
    assert forall|k: int| 0 <= k < all.len() implies !(#[trigger] all[k]).contains('/') by {
        if k < parts.len() {
            assert(all[k] == parts[k]);
        }
    }
    crate::pieces::law_joined_split(all, '/');
    assert(all.drop_last() =~= parts);
    let one = seq![name];
    crate::pieces::law_joined_split(one, '/');
    assert(joined(one, seq!['/']) =~= name) by {
        reveal_with_fuel(joined, 2);
    }
    assert(one.drop_last() =~= Seq::<Seq<char>>::empty());
    assert(name[0] == name[0]);
    if is_rooted(name) {
        assert(name.contains(name[0]));
    }
    let none = Seq::<char>::empty();
    crate::pieces::lemma_split_first(none, '/', name);
    assert(none + seq!['/'] + name =~= seq!['/'] + name);
    assert(split_on(seq!['/'] + name, '/') =~= seq![none, name]);
    assert(seq![none, name].drop_last() =~= seq![none]);
    assert(seq![none].drop_last() =~= Seq::<Seq<char>>::empty());
    reveal_with_fuel(parts_to_last_named, 3);
    crate::pieces::law_split_joined(none, '/');
    assert(split_on(none, '/') =~= seq![none]);
}

proof fn lemma_joined_push(parts: Seq<Seq<char>>, name: Seq<char>, c: char)
    requires
        parts.len() > 0,
    ensures
        joined(parts.push(name), seq![c]) == joined(parts, seq![c]) + seq![c] + name,
    decreases parts.len(),
{
    let all = parts.push(name);
    assert(all.drop_last() =~= parts);
}

/// The vectors that are indexed are exactly those with as many components as the first one,
/// in their order.
pub proof fn law_alike(dimensions: Seq<usize>, n: int)
    requires
        0 <= n <= dimensions.len(),
    ensures
        forall|k: int|
            0 <= k < alike(dimensions, n).len() ==> 0 <= #[trigger] alike(dimensions, n)[k] < n
                && dimensions[alike(dimensions, n)[k]] == dimensions[0],
        forall|i: int|
            0 <= i < n && #[trigger] dimensions[i] == dimensions[0] ==> alike(
                dimensions,
                n,
            ).contains(i),
        forall|j: int, k: int|
            0 <= j < k < alike(dimensions, n).len() ==> #[trigger] alike(dimensions, n)[j]
                < #[trigger] alike(dimensions, n)[k],
    decreases n,
{
    if n > 0 {
        law_alike(dimensions, n - 1);
        let before = alike(dimensions, n - 1);
        let now = alike(dimensions, n);
        assert forall|i: int| 0 <= i < n && #[trigger] dimensions[i] == dimensions[0] implies
            now.contains(i) by {
            if i < n - 1 {
                assert(before.contains(i));
                let k = choose|k: int| 0 <= k < before.len() && before[k] == i;
                assert(now[k] == i);
            } else {
                assert(now.last() == i);
                assert(now[now.len() - 1] == i);
            }
        }
    }
}

/// A mapping file is that of its first identifiers and that of the others.
pub proof fn law_mapping_parts(a: Seq<Seq<char>>, b: Seq<Seq<char>>, id: Seq<char>)
    ensures
        mapping_of(seq![id]) == id + "\n"@,
        mapping_of(a + b) == mapping_of(a) + mapping_of(b),
    decreases b.len(),
{
    reveal_strlit("\n");
    assert(seq![id].drop_last() =~= Seq::<Seq<char>>::empty());
    assert(mapping_of(Seq::<Seq<char>>::empty()) =~= Seq::<char>::empty());
    assert(mapping_of(seq![id]) =~= id + "\n"@);
    if b.len() == 0 {
        assert(a + b =~= a);
        assert(mapping_of(a) + mapping_of(b) =~= mapping_of(a));
    } else {
        law_mapping_parts(a, b.drop_last(), id);
        assert((a + b).drop_last() =~= a + b.drop_last());
        assert(mapping_of(a + b) =~= mapping_of(a) + mapping_of(b));
    }
}

/// An index has three files beside each other, named after it, and the mapping that is recorded
/// of it is the last of them.
pub proof fn law_index_files(
    basename: &str,
    files: Option<AnnFiles>,
    name: String,
    dimension: usize,
    info: AnnIndexInfo,
)
    requires
        name@ == basename@,
        call_ensures(ann_files, (basename,), files),
        call_ensures(index_info, (name, dimension), info),
    ensures
        files is Some <==> trimmed(basename@).len() > 0,
        files matches Some(f) ==> f.graph@ == basename@ + ".hnsw.graph"@ && f.data@ == basename@
            + ".hnsw.data"@ && f.ids@ == info.mapping_filename@,
        info.mapping_filename@ == basename@ + ".ids"@,
        info.dimension == dimension,
{
}

} // verus!
