//! The JSON form of the ref index
//!
//! An index is an object of `version`, `head`, `refs`, `packs` and `parent`. Absent
//! options are left out, so is a pack's `stream` flag while it is unset, and whatever is
//! left out reads back as its default. An array stands for an object by position.

use vstd::prelude::*;

use crate::index;
use crate::index::{Index, IndexView, PackEntry, PackEntryView};
use crate::json;
use crate::json::{Node, Tree};
use crate::refs;
use crate::refs::Refs;
use crate::text;

verus! {

/// Why bytes are not a ref index
#[derive(Debug)]
pub enum DecodeError {
    /// They are not a JSON document, for the reason that the JSON reader gives
    NotJson(String),
    /// They are a document, but not one of an index
    NotAnIndex,
}

/// Why bytes are not a ref index
pub enum DecodeErrorView {
    NotJson(Seq<char>),
    NotAnIndex,
}

impl View for DecodeError {
    type V = DecodeErrorView;

    open spec fn view(&self) -> DecodeErrorView {
        match self {
            DecodeError::NotJson(trouble) => DecodeErrorView::NotJson(trouble@),
            DecodeError::NotAnIndex => DecodeErrorView::NotAnIndex,
        }
    }
}

/// Why an index could not be written
#[derive(Clone, Copy, Debug, PartialEq, Eq, Structural)]
pub enum EncodeError {
    /// The JSON writer gave up
    NotWritten,
}

/// Members of an index, in the order they are written
pub open spec fn index_fields() -> Seq<Seq<char>> {
    seq!["version"@, "head"@, "refs"@, "packs"@, "parent"@]
}

/// Members of a pack entry, in the order they are written
pub open spec fn pack_fields() -> Seq<Seq<char>> {
    seq!["track"@, "size"@, "digest"@, "stream"@]
}

/// The members of a record: those of an object, or the items of an array under the record's
/// own field names
pub open spec fn record(tree: Tree, names: Seq<Seq<char>>) -> Option<Seq<(Seq<char>, Tree)>> {
    match tree {
        Tree::Object(fields) => Some(fields),
        Tree::Array(items) => if items.len() <= names.len() {
            Some(Seq::new(items.len(), |i: int| (names[i], items[i])))
        } else {
            None
        },
        _ => None,
    }
}

/// A member that has to be an unsigned integer
pub open spec fn number_of(tree: Option<Tree>) -> Option<u64> {
    match tree {
        Some(Tree::Number(n)) => n,
        _ => None,
    }
}

/// A member that has to be text
pub open spec fn text_of(tree: Option<Tree>) -> Option<Seq<char>> {
    match tree {
        Some(Tree::Text(s)) => Some(s),
        _ => None,
    }
}

/// A member that may be text, `null` or missing
pub open spec fn optional_text_of(tree: Option<Tree>) -> Option<Option<Seq<char>>> {
    match tree {
        None => Some(None),
        Some(Tree::Null) => Some(None),
        Some(Tree::Text(s)) => Some(Some(s)),
        _ => None,
    }
}

/// A member that may be an unsigned integer, `null` or missing
pub open spec fn optional_number_of(tree: Option<Tree>) -> Option<Option<u64>> {
    match tree {
        None => Some(None),
        Some(Tree::Null) => Some(None),
        Some(Tree::Number(Some(n))) => Some(Some(n)),
        _ => None,
    }
}

/// A flag that is unset when it is missing
pub open spec fn flag_of(tree: Option<Tree>) -> Option<bool> {
    match tree {
        None => Some(false),
        Some(Tree::Bool(b)) => Some(b),
        _ => None,
    }
}

/// Whether every member is text
pub open spec fn all_text(fields: Seq<(Seq<char>, Tree)>) -> bool {
    forall|i: int| 0 <= i < fields.len() ==> (#[trigger] fields[i]).1 is Text
}

/// Members of text as pairs
pub open spec fn text_pairs(fields: Seq<(Seq<char>, Tree)>) -> Seq<refs::Pair> {
    fields.map_values(|f: (Seq<char>, Tree)| (f.0, f.1->Text_0))
}

/// Refs from an object of texts, none when it is missing
pub open spec fn refs_of(tree: Option<Tree>) -> Option<Map<Seq<char>, Seq<char>>> {
    match tree {
        None => Some(Map::empty()),
        Some(Tree::Object(fields)) => if all_text(fields) {
            Some(refs::map_of(text_pairs(fields)))
        } else {
            None
        },
        _ => None,
    }
}

/// The digest of a pack entry, under its own name or the older one, but not both
pub open spec fn digest_of(fields: Seq<(Seq<char>, Tree)>) -> Option<Seq<char>> {
    let digest = json::member(fields, "digest"@);
    let sha256 = json::member(fields, "sha256"@);
    if digest is Some && sha256 is Some {
        None
    } else if digest is Some {
        text_of(digest)
    } else {
        text_of(sha256)
    }
}

/// The pack entry a document part stands for
pub open spec fn pack_of(tree: Tree) -> Option<PackEntryView> {
    match record(tree, pack_fields()) {
        None => None,
        Some(fields) => {
            let track = number_of(json::member(fields, "track"@));
            let size = number_of(json::member(fields, "size"@));
            let digest = digest_of(fields);
            let stream = flag_of(json::member(fields, "stream"@));
            if track is Some && size is Some && digest is Some && stream is Some {
                Some(
                    PackEntryView {
                        track: track->0,
                        size: size->0,
                        digest: digest->0,
                        stream: stream->0,
                    },
                )
            } else {
                None
            }
        },
    }
}

/// Whether every item is a pack entry
pub open spec fn all_packs(items: Seq<Tree>) -> bool {
    forall|i: int| 0 <= i < items.len() ==> pack_of(#[trigger] items[i]) is Some
}

/// Packs from an array of pack entries, none when it is missing
pub open spec fn packs_of(tree: Option<Tree>) -> Option<Seq<PackEntryView>> {
    match tree {
        None => Some(seq![]),
        Some(Tree::Array(items)) => if all_packs(items) {
            Some(items.map_values(|t: Tree| pack_of(t)->0))
        } else {
            None
        },
        _ => None,
    }
}

/// The index a document stands for
pub open spec fn index_of(tree: Tree) -> Option<IndexView> {
    match record(tree, index_fields()) {
        None => None,
        Some(fields) => {
            let version = number_of(json::member(fields, "version"@));
            let head = optional_text_of(json::member(fields, "head"@));
            let refs = refs_of(json::member(fields, "refs"@));
            let packs = packs_of(json::member(fields, "packs"@));
            let parent = optional_number_of(json::member(fields, "parent"@));
            if version is Some && head is Some && refs is Some && packs is Some && parent is Some {
                Some(
                    IndexView {
                        version: version->0,
                        head: head->0,
                        refs: refs->0,
                        packs: packs->0,
                        parent: parent->0,
                    },
                )
            } else {
                None
            }
        },
    }
}

/// The document part a pack entry is written as
pub open spec fn pack_tree(pack: PackEntryView) -> Tree {
    let fields = seq![
        ("track"@, Tree::Number(Some(pack.track))),
        ("size"@, Tree::Number(Some(pack.size))),
        ("digest"@, Tree::Text(pack.digest)),
    ];
    Tree::Object(
        if pack.stream {
            fields.push(("stream"@, Tree::Bool(true)))
        } else {
            fields
        },
    )
}

/// The document part refs are written as, in name order
pub open spec fn refs_tree(refs: Map<Seq<char>, Seq<char>>) -> Tree {
    Tree::Object(refs::listing(refs).map_values(|p: refs::Pair| (p.0, Tree::Text(p.1))))
}

/// The members an index is written with
pub open spec fn index_members(index: IndexView) -> Seq<(Seq<char>, Tree)> {
    let version = seq![("version"@, Tree::Number(Some(index.version)))];
    let head = match index.head {
        Some(head) => seq![("head"@, Tree::Text(head))],
        None => seq![],
    };
    let refs = seq![("refs"@, refs_tree(index.refs))];
    let packs = seq![
        ("packs"@, Tree::Array(index.packs.map_values(|p: PackEntryView| pack_tree(p)))),
    ];
    let parent = match index.parent {
        Some(parent) => seq![("parent"@, Tree::Number(Some(parent)))],
        None => seq![],
    };
    version + head + refs + packs + parent
}

/// The document an index is written as
pub open spec fn index_tree(index: IndexView) -> Tree {
    Tree::Object(index_members(index))
}

/// The field names differ from one another
proof fn field_names_differ()
    ensures
        "version"@ != "head"@,
        "version"@ != "refs"@,
        "version"@ != "packs"@,
        "version"@ != "parent"@,
        "head"@ != "refs"@,
        "head"@ != "packs"@,
        "head"@ != "parent"@,
        "refs"@ != "packs"@,
        "refs"@ != "parent"@,
        "packs"@ != "parent"@,
        "track"@ != "size"@,
        "track"@ != "digest"@,
        "track"@ != "stream"@,
        "track"@ != "sha256"@,
        "size"@ != "digest"@,
        "size"@ != "stream"@,
        "size"@ != "sha256"@,
        "digest"@ != "stream"@,
        "digest"@ != "sha256"@,
        "stream"@ != "sha256"@,
{
    reveal_strlit("version");
    reveal_strlit("head");
    reveal_strlit("refs");
    reveal_strlit("packs");
    reveal_strlit("parent");
    reveal_strlit("track");
    reveal_strlit("size");
    reveal_strlit("digest");
    reveal_strlit("stream");
    reveal_strlit("sha256");
    assert("head"@[0] != "refs"@[0]);
    assert("digest"@[0] != "stream"@[0]);
    assert("digest"@[0] != "sha256"@[0]);
    assert("stream"@[1] != "sha256"@[1]);
    assert("version"@.len() == 7 && "packs"@.len() == 5 && "parent"@.len() == 6);
    assert("head"@.len() == 4 && "refs"@.len() == 4);
    assert("track"@.len() == 5 && "size"@.len() == 4 && "digest"@.len() == 6);
    assert("stream"@.len() == 6 && "sha256"@.len() == 6);
}

/// Members of a record, in an object or by position
fn read_record(value: serde_json::Value, names: Vec<String>) -> (fields: Option<
    Vec<(String, serde_json::Value)>,
>)
    requires
        forall|i: int, j: int|
            0 <= i < j < names@.len() ==> #[trigger] names@[i]@ != #[trigger] names@[j]@,
    ensures
        match fields {
            Some(fields) => record(json::value_tree(value), text::views(names@)) == Some(
                json::members(fields@),
            ) && json::distinct_names(json::members(fields@)),
            None => record(json::value_tree(value), text::views(names@)) is None,
        },
{
    match json::open(value) {
        Node::Object(fields) => Some(fields),
        Node::Array(items) => {
            if items.len() > names.len() {
                return None;
            }
            let ghost all = json::trees(items@);
            let mut rest = items;
            let mut fields: Vec<(String, serde_json::Value)> = Vec::new();
            let n = rest.len();
            let mut i: usize = 0;
            while i < n
                invariant
                    i <= n == all.len(),
                    n <= names@.len(),
                    fields@.len() == i,
                    rest@.len() == n - i,
                    forall|k: int| 0 <= k < n - i ==> json::value_tree(#[trigger] rest@[k]) == all[k + i],
                    forall|k: int|
                        0 <= k < i ==> (#[trigger] json::members(fields@)[k]) == (names@[k]@, all[k]),
                decreases n - i,
            {
                let item = rest.remove(0);
                let ghost before = json::members(fields@);
                fields.push((names[i].clone(), item));
                assert(json::members(fields@) =~= before.push((names@[i as int]@, all[i as int])));
                i = i + 1;
            }
            proof {
                let got = json::members(fields@);
                let views = text::views(names@);
                assert(got =~= Seq::new(all.len(), |k: int| (views[k], all[k])));
                assert forall|p: int, q: int| 0 <= p < q < got.len() implies #[trigger] got[p].0
                    != #[trigger] got[q].0 by {
                    assert(names@[p]@ != names@[q]@);
                }
            }
            Some(fields)
        },
        _ => None,
    }
}

/// An unsigned integer
fn read_number(value: Option<serde_json::Value>) -> (n: Option<u64>)
    ensures
        n == number_of(opt_tree(value)),
{
    match value {
        Some(value) => match json::open(value) {
            Node::Number(n) => n,
            _ => None,
        },
        None => None,
    }
}

/// Text
fn read_text(value: Option<serde_json::Value>) -> (s: Option<String>)
    ensures
        text::opt_view(s) == text_of(opt_tree(value)),
{
    match value {
        Some(value) => match json::open(value) {
            Node::Text(s) => Some(s),
            _ => None,
        },
        None => None,
    }
}

/// Text, `null` or nothing
fn read_optional_text(value: Option<serde_json::Value>) -> (s: Option<Option<String>>)
    ensures
        match s {
            Some(s) => optional_text_of(opt_tree(value)) == Some(text::opt_view(s)),
            None => optional_text_of(opt_tree(value)) is None,
        },
{
    match value {
        Some(value) => match json::open(value) {
            Node::Null => Some(None),
            Node::Text(s) => Some(Some(s)),
            _ => None,
        },
        None => Some(None),
    }
}

/// An unsigned integer, `null` or nothing
fn read_optional_number(value: Option<serde_json::Value>) -> (n: Option<Option<u64>>)
    ensures
        n == optional_number_of(opt_tree(value)),
{
    match value {
        Some(value) => match json::open(value) {
            Node::Null => Some(None),
            Node::Number(Some(n)) => Some(Some(n)),
            _ => None,
        },
        None => Some(None),
    }
}

/// A flag, or nothing
fn read_flag(value: Option<serde_json::Value>) -> (b: Option<bool>)
    ensures
        b == flag_of(opt_tree(value)),
{
    match value {
        Some(value) => match json::open(value) {
            Node::Bool(b) => Some(b),
            _ => None,
        },
        None => Some(false),
    }
}

/// Content of a value that may be missing
pub open spec fn opt_tree(value: Option<serde_json::Value>) -> Option<Tree> {
    match value {
        Some(value) => Some(json::value_tree(value)),
        None => None,
    }
}

/// Refs, or nothing
fn read_refs(value: Option<serde_json::Value>) -> (refs: Option<Refs>)
    ensures
        match refs {
            Some(refs) => refs_of(opt_tree(value)) == Some(refs@),
            None => refs_of(opt_tree(value)) is None,
        },
{
    let present = match value {
        Some(present) => present,
        None => {
            return Some(Refs::new());
        },
    };
    match json::open(present) {
        Node::Object(fields) => {
            let ghost all = json::members(fields@);
            let mut rest = fields;
            let mut refs = Refs::new();
            let n = rest.len();
            let mut i: usize = 0;
            assert(text_pairs(all).take(0) =~= seq![]);
            while i < n
                invariant
                    i <= n == all.len(),
                    rest@.len() == n - i,
                    forall|k: int| 0 <= k < n - i ==> (#[trigger] json::members(rest@)[k]) == all[k + i],
                    forall|k: int| 0 <= k < i ==> (#[trigger] all[k]).1 is Text,
                    refs@ == refs::map_of(text_pairs(all).take(i as int)),
                    refs_of(opt_tree(value)) == (if all_text(all) {
                        Some(refs::map_of(text_pairs(all)))
                    } else {
                        None
                    }),
                decreases n - i,
            {
                assert(json::members(rest@)[0] == all[i as int]);
                let ghost before = json::members(rest@);
                let field = rest.remove(0);
                assert(json::members(rest@) =~= before.remove(0));
                let (name, id) = field;
                match json::open(id) {
                    Node::Text(id) => {
                        refs.insert(name, id);
                        proof {
                            let seen = text_pairs(all).take(i + 1);
                            assert(seen.drop_last() =~= text_pairs(all).take(i as int));
                            assert(seen.last() == (name@, id@));
                        }
                    },
                    _ => {
                        assert(!(all[i as int].1 is Text));
                        return None;
                    },
                }
                i = i + 1;
            }
            assert(text_pairs(all).take(n as int) =~= text_pairs(all));
            Some(refs)
        },
        _ => None,
    }
}

/// One pack entry
fn read_pack(value: serde_json::Value) -> (pack: Option<PackEntry>)
    ensures
        match pack {
            Some(pack) => pack_of(json::value_tree(value)) == Some(pack@),
            None => pack_of(json::value_tree(value)) is None,
        },
{
    proof {
        field_names_differ();
    }
    let mut names: Vec<String> = Vec::new();
    names.push("track".to_owned());
    names.push("size".to_owned());
    names.push("digest".to_owned());
    names.push("stream".to_owned());
    assert(text::views(names@) =~= pack_fields());
    let mut fields = match read_record(value, names) {
        Some(fields) => fields,
        None => {
            return None;
        },
    };
    let track = read_number(json::take_member(&mut fields, "track"));
    let size = read_number(json::take_member(&mut fields, "size"));
    let stream = read_flag(json::take_member(&mut fields, "stream"));
    let digest = json::take_member(&mut fields, "digest");
    let sha256 = json::take_member(&mut fields, "sha256");
    let digest = if digest.is_some() && sha256.is_some() {
        None
    } else if digest.is_some() {
        read_text(digest)
    } else {
        read_text(sha256)
    };
    match (track, size, digest, stream) {
        (Some(track), Some(size), Some(digest), Some(stream)) => Some(
            PackEntry { track, size, digest, stream },
        ),
        _ => None,
    }
}

/// Packs, or nothing
fn read_packs(value: Option<serde_json::Value>) -> (packs: Option<Vec<PackEntry>>)
    ensures
        match packs {
            Some(packs) => packs_of(opt_tree(value)) == Some(index::entries(packs@)),
            None => packs_of(opt_tree(value)) is None,
        },
{
    let present = match value {
        Some(present) => present,
        None => {
            let packs: Vec<PackEntry> = Vec::new();
            assert(index::entries(packs@) =~= seq![]);
            return Some(packs);
        },
    };
    match json::open(present) {
        Node::Array(items) => {
            let ghost all = json::trees(items@);
            let mut rest = items;
            let mut packs: Vec<PackEntry> = Vec::new();
            let n = rest.len();
            let mut i: usize = 0;
            while i < n
                invariant
                    i <= n == all.len(),
                    rest@.len() == n - i,
                    forall|k: int| 0 <= k < n - i ==> json::value_tree(#[trigger] rest@[k]) == all[k + i],
                    packs@.len() == i,
                    forall|k: int| 0 <= k < i ==> pack_of(#[trigger] all[k]) == Some(packs@[k]@),
                    packs_of(opt_tree(value)) == (if all_packs(all) {
                        Some(all.map_values(|t: Tree| pack_of(t)->0))
                    } else {
                        None
                    }),
                decreases n - i,
            {
                assert(json::value_tree(rest@[0]) == all[i as int]);
                let item = rest.remove(0);
                match read_pack(item) {
                    Some(pack) => {
                        packs.push(pack);
                    },
                    None => {
                        assert(pack_of(all[i as int]) is None);
                        return None;
                    },
                }
                i = i + 1;
            }
            assert(index::entries(packs@) =~= all.map_values(|t: Tree| pack_of(t)->0));
            Some(packs)
        },
        _ => None,
    }
}

/// A whole index
fn read_index(value: serde_json::Value) -> (index: Option<Index>)
    ensures
        match index {
            Some(index) => index_of(json::value_tree(value)) == Some(index@),
            None => index_of(json::value_tree(value)) is None,
        },
{
    proof {
        field_names_differ();
    }
    let mut names: Vec<String> = Vec::new();
    names.push("version".to_owned());
    names.push("head".to_owned());
    names.push("refs".to_owned());
    names.push("packs".to_owned());
    names.push("parent".to_owned());
    assert(text::views(names@) =~= index_fields());
    let mut fields = match read_record(value, names) {
        Some(fields) => fields,
        None => {
            return None;
        },
    };
    let version = read_number(json::take_member(&mut fields, "version"));
    let head = read_optional_text(json::take_member(&mut fields, "head"));
    let refs = read_refs(json::take_member(&mut fields, "refs"));
    let packs = read_packs(json::take_member(&mut fields, "packs"));
    let parent = read_optional_number(json::take_member(&mut fields, "parent"));
    match (version, head, refs, packs, parent) {
        (Some(version), Some(head), Some(refs), Some(packs), Some(parent)) => Some(
            Index { version, head, refs, packs, parent },
        ),
        _ => None,
    }
}

/// What bytes decode to
pub open spec fn decoded(bytes: Seq<u8>) -> Result<IndexView, DecodeErrorView> {
    match json::document(bytes) {
        Err(trouble) => Err(DecodeErrorView::NotJson(trouble)),
        Ok(tree) => match index_of(tree) {
            None => Err(DecodeErrorView::NotAnIndex),
            Some(index) => Ok(index),
        },
    }
}

/// A written pack entry is plain, and reads back as itself
proof fn pack_tree_reads_back(pack: PackEntryView, depth: nat)
    requires
        depth > 0,
    ensures
        json::is_plain(pack_tree(pack), depth),
        pack_of(pack_tree(pack)) == Some(pack),
{
    field_names_differ();
    let fields = pack_tree(pack)->Object_0;
    assert(json::distinct_names(fields));
    assert forall|i: int| 0 <= i < fields.len() implies json::is_plain(
        (#[trigger] fields[i]).1,
        (depth - 1) as nat,
    ) by {}
    json::member_at(fields, 0);
    json::member_at(fields, 1);
    json::member_at(fields, 2);
    json::member_absent(fields, "sha256"@);
    if pack.stream {
        json::member_at(fields, 3);
    } else {
        json::member_absent(fields, "stream"@);
    }
}

/// Written refs are plain, and read back as themselves
proof fn refs_tree_reads_back(refs: Map<Seq<char>, Seq<char>>, depth: nat)
    requires
        refs::is_listing(refs::listing(refs), refs),
        depth > 0,
    ensures
        json::is_plain(refs_tree(refs), depth),
        refs_of(Some(refs_tree(refs))) == Some(refs),
{
    let pairs = refs::listing(refs);
    let fields = refs_tree(refs)->Object_0;
    assert forall|i: int, j: int| 0 <= i < j < fields.len() implies #[trigger] fields[i].0
        != #[trigger] fields[j].0 by {
        assert(text::precedes(pairs[i].0, pairs[j].0));
        text::precedes_irreflexive(pairs[i].0);
    }
    assert forall|i: int| 0 <= i < fields.len() implies json::is_plain(
        (#[trigger] fields[i]).1,
        (depth - 1) as nat,
    ) by {}
    assert(text_pairs(fields) =~= pairs);
    refs::listing_builds_its_map(pairs, refs);
}

/// A written index is plain, and reads back as itself
proof fn index_tree_reads_back(index: IndexView)
    requires
        refs::is_listing(refs::listing(index.refs), index.refs),
    ensures
        json::is_plain(index_tree(index), json::max_depth()),
        index_of(index_tree(index)) == Some(index),
{
    field_names_differ();
    let depth = (json::max_depth() - 1) as nat;
    let fields = index_members(index);
    let h: int = if index.head is Some {
        1
    } else {
        0
    };
    let packs_written = index.packs.map_values(|p: PackEntryView| pack_tree(p));
    assert(fields[0].0 == "version"@);
    assert(index.head is Some ==> fields[1] == ("head"@, Tree::Text(index.head->0)));
    assert(fields[1 + h] == ("refs"@, refs_tree(index.refs)));
    assert(fields[2 + h] == ("packs"@, Tree::Array(packs_written)));
    assert(index.parent is Some ==> fields[3 + h] == (
        "parent"@,
        Tree::Number(Some(index.parent->0)),
    ));
    assert(fields.len() == 3 + h + if index.parent is Some {
        1int
    } else {
        0
    });
    assert(json::distinct_names(fields));
    refs_tree_reads_back(index.refs, depth);
    assert forall|i: int| 0 <= i < packs_written.len() implies json::is_plain(
        #[trigger] packs_written[i],
        (depth - 1) as nat,
    ) && pack_of(packs_written[i]) == Some(index.packs[i]) by {
        pack_tree_reads_back(index.packs[i], (depth - 1) as nat);
    }
    assert(json::is_plain(Tree::Array(packs_written), depth));
    assert forall|i: int| 0 <= i < fields.len() implies json::is_plain(
        (#[trigger] fields[i]).1,
        depth,
    ) by {}
    assert(all_packs(packs_written));
    assert(packs_written.map_values(|t: Tree| pack_of(t)->0) =~= index.packs);
    json::member_at(fields, 0);
    json::member_at(fields, 1 + h);
    json::member_at(fields, 2 + h);
    if index.head is Some {
        json::member_at(fields, 1);
    } else {
        json::member_absent(fields, "head"@);
    }
    if index.parent is Some {
        json::member_at(fields, 3 + h);
    } else {
        json::member_absent(fields, "parent"@);
    }
}

fn write_pack(pack: &PackEntry) -> (value: serde_json::Value)
    ensures
        json::value_tree(value) == pack_tree(pack@),
{
    let mut fields: Vec<(String, serde_json::Value)> = Vec::new();
    fields.push(("track".to_owned(), json::number(pack.track)));
    fields.push(("size".to_owned(), json::number(pack.size)));
    fields.push(("digest".to_owned(), json::string(pack.digest.clone())));
    if pack.stream {
        fields.push(("stream".to_owned(), json::boolean(true)));
    }
    proof {
        assert(json::members(fields@) =~= pack_tree(pack@)->Object_0);
        pack_tree_reads_back(pack@, 1);
    }
    json::object(fields)
}

fn write_packs(packs: &Vec<PackEntry>) -> (value: serde_json::Value)
    ensures
        json::value_tree(value) == Tree::Array(
            index::entries(packs@).map_values(|p: PackEntryView| pack_tree(p)),
        ),
{
    let mut items: Vec<serde_json::Value> = Vec::new();
    let mut i: usize = 0;
    while i < packs.len()
        invariant
            i <= packs@.len(),
            items@.len() == i,
            forall|k: int|
                0 <= k < i ==> json::value_tree(#[trigger] items@[k]) == pack_tree(packs@[k]@),
        decreases packs.len() - i,
    {
        items.push(write_pack(&packs[i]));
        i = i + 1;
    }
    assert(json::trees(items@) =~= index::entries(packs@).map_values(
        |p: PackEntryView| pack_tree(p),
    ));
    json::array(items)
}

fn write_refs(refs: &Refs) -> (value: serde_json::Value)
    ensures
        json::value_tree(value) == refs_tree(refs@),
        refs::is_listing(refs::listing(refs@), refs@),
{
    let mut fields: Vec<(String, serde_json::Value)> = Vec::new();
    let n = refs.len();
    let mut i: usize = 0;
    while i < n
        invariant
            i <= n == refs::listing(refs@).len(),
            fields@.len() == i,
            forall|k: int|
                0 <= k < i ==> (#[trigger] json::members(fields@)[k]) == (
                    refs::listing(refs@)[k].0,
                    Tree::Text(refs::listing(refs@)[k].1),
                ),
        decreases n - i,
    {
        let name = refs.name_at(i).clone();
        let id = refs.id_at(i).clone();
        let ghost before = json::members(fields@);
        fields.push((name, json::string(id)));
        assert(json::members(fields@) =~= before.push((name@, Tree::Text(id@))));
        i = i + 1;
    }
    proof {
        assert(json::members(fields@) =~= refs_tree(refs@)->Object_0);
        refs_tree_reads_back(refs@, 1);
    }
    json::object(fields)
}

impl Index {
    /// Read an index from its JSON form
    ///
    /// Members it does not know are passed over, though they too have to be text, numbers
    /// and nesting that a `serde_json::Value` can hold. Where an object has two members of
    /// one name, the last of them counts.
    pub fn decode(bytes: &[u8]) -> (index: Result<Index, DecodeError>)
        ensures
            match index {
                Ok(index) => decoded(bytes@) == Ok::<IndexView, DecodeErrorView>(index@),
                Err(error) => decoded(bytes@) == Err::<IndexView, DecodeErrorView>(error@),
            },
    {
        match json::parse(bytes) {
            Err(trouble) => Err(DecodeError::NotJson(trouble)),
            Ok(value) => match read_index(value) {
                None => Err(DecodeError::NotAnIndex),
                Some(index) => Ok(index),
            },
        }
    }

    /// Write an index in its JSON form
    ///
    /// What is written decodes to the index it was written from.
    pub fn encode(&self) -> (bytes: Result<Vec<u8>, EncodeError>)
        ensures
            bytes is Ok,
            bytes->Ok_0@ == json::document_text(index_tree(self@)),
            decoded(bytes->Ok_0@) == Ok::<IndexView, DecodeErrorView>(self@),
    {
        let mut fields: Vec<(String, serde_json::Value)> = Vec::new();
        fields.push(("version".to_owned(), json::number(self.version)));
        if let Some(head) = &self.head {
            fields.push(("head".to_owned(), json::string(head.clone())));
        }
        fields.push(("refs".to_owned(), write_refs(&self.refs)));
        fields.push(("packs".to_owned(), write_packs(&self.packs)));
        if let Some(parent) = self.parent {
            fields.push(("parent".to_owned(), json::number(parent)));
        }
        proof {
            assert(json::members(fields@) =~= index_members(self@));
            index_tree_reads_back(self@);
        }
        let value = json::object(fields);
        match json::write(&value) {
            Some(bytes) => Ok(bytes),
            None => Err(EncodeError::NotWritten),
        }
    }
}

/// A document of members stands for an index exactly when it has a version that is an unsigned
/// integer, and whatever else it has of HEAD, refs, packs and parent is what these have to be
pub proof fn indexes_have_to_be_well_formed(fields: Seq<(Seq<char>, Tree)>)
    ensures
        index_of(Tree::Object(fields)) is Some <==> {
            &&& json::member(fields, "version"@) matches Some(Tree::Number(Some(_)))
            &&& match json::member(fields, "head"@) {
                None | Some(Tree::Null) | Some(Tree::Text(_)) => true,
                _ => false,
            }
            &&& match json::member(fields, "refs"@) {
                None => true,
                Some(Tree::Object(members)) => forall|i: int|
                    0 <= i < members.len() ==> (#[trigger] members[i]).1 is Text,
                _ => false,
            }
            &&& match json::member(fields, "packs"@) {
                None => true,
                Some(Tree::Array(items)) => forall|i: int|
                    0 <= i < items.len() ==> pack_of(#[trigger] items[i]) is Some,
                _ => false,
            }
            &&& match json::member(fields, "parent"@) {
                None | Some(Tree::Null) | Some(Tree::Number(Some(_))) => true,
                _ => false,
            }
        },
{
}

/// What an index holds is what the members of its document say, under their names, with nothing
/// for those that are missing
pub proof fn indexes_hold_what_their_members_say(
    fields: Seq<(Seq<char>, Tree)>,
    members: Seq<(Seq<char>, Tree)>,
    items: Seq<Tree>,
    at: int,
)
    requires
        index_of(Tree::Object(fields)) is Some,
    ensures
        ({
            let index = index_of(Tree::Object(fields))->0;
            &&& json::member(fields, "version"@) == Some(Tree::Number(Some(index.version)))
            &&& index.head matches Some(head) ==> json::member(fields, "head"@) == Some(
                Tree::Text(head),
            )
            &&& json::member(fields, "head"@) matches Some(Tree::Text(head)) ==> index.head
                == Some(head)
            &&& index.parent matches Some(parent) ==> json::member(fields, "parent"@) == Some(
                Tree::Number(Some(parent)),
            )
            &&& json::member(fields, "parent"@) matches Some(Tree::Number(Some(parent)))
                ==> index.parent == Some(parent)
            &&& json::member(fields, "refs"@) is None ==> index.refs == Map::<
                Seq<char>,
                Seq<char>,
            >::empty()
            &&& json::member(fields, "refs"@) == Some(Tree::Object(members))
                && json::distinct_names(members) && 0 <= at < members.len() ==> {
                &&& index.refs.contains_key(members[at].0)
                &&& members[at].1 == Tree::Text(index.refs[members[at].0])
            }
            &&& json::member(fields, "refs"@) == Some(Tree::Object(members)) ==> forall|
                name: Seq<char>,
            | #[trigger]
                index.refs.contains_key(name) ==> exists|i: int|
                    0 <= i < members.len() && (#[trigger] members[i]).0 == name
            &&& json::member(fields, "packs"@) is None ==> index.packs.len() == 0
            &&& json::member(fields, "packs"@) == Some(Tree::Array(items)) ==> {
                &&& index.packs.len() == items.len()
                &&& 0 <= at < items.len() ==> pack_of(items[at]) == Some(index.packs[at])
            }
        }),
{
    if json::member(fields, "refs"@) == Some(Tree::Object(members)) {
        let pairs = text_pairs(members);
        assert forall|name: Seq<char>| #[trigger]
            refs::map_of(pairs).contains_key(name) implies exists|i: int|
            0 <= i < members.len() && (#[trigger] members[i]).0 == name by {
            map_of_names(pairs, name);
            let i = choose|i: int| 0 <= i < pairs.len() && (#[trigger] pairs[i]).0 == name;
            assert(members[i].0 == name);
        }
        if json::distinct_names(members) && 0 <= at < members.len() {
            assert forall|i: int, j: int| 0 <= i < j < pairs.len() implies (#[trigger] pairs[i]).0
                != (#[trigger] pairs[j]).0 by {
                assert(members[i].0 != members[j].0);
            }
            map_of_distinct(pairs, at);
            assert(members[at].1 is Text);
        }
    }
}

/// The names that a list of pairs builds a map of
proof fn map_of_names(pairs: Seq<refs::Pair>, name: Seq<char>)
    ensures
        refs::map_of(pairs).contains_key(name) <==> exists|i: int|
            0 <= i < pairs.len() && (#[trigger] pairs[i]).0 == name,
    decreases pairs.len(),
{
    if pairs.len() > 0 {
        let init = pairs.drop_last();
        map_of_names(init, name);
        if exists|i: int| 0 <= i < pairs.len() && (#[trigger] pairs[i]).0 == name {
            let i = choose|i: int| 0 <= i < pairs.len() && (#[trigger] pairs[i]).0 == name;
            if i < init.len() {
                assert(init[i].0 == name);
            }
        }
        if refs::map_of(init).contains_key(name) {
            let i = choose|i: int| 0 <= i < init.len() && (#[trigger] init[i]).0 == name;
            assert(pairs[i].0 == name);
        }
        assert(pairs[pairs.len() - 1] == pairs.last());
    }
}

/// Where a name of its own leads in the map that a list of pairs builds
proof fn map_of_distinct(pairs: Seq<refs::Pair>, at: int)
    requires
        forall|i: int, j: int|
            0 <= i < j < pairs.len() ==> (#[trigger] pairs[i]).0 != (#[trigger] pairs[j]).0,
        0 <= at < pairs.len(),
    ensures
        refs::map_of(pairs).contains_key(pairs[at].0),
        refs::map_of(pairs)[pairs[at].0] == pairs[at].1,
    decreases pairs.len(),
{
    let init = pairs.drop_last();
    if at < init.len() {
        assert forall|i: int, j: int| 0 <= i < j < init.len() implies (#[trigger] init[i]).0 != (
        #[trigger] init[j]).0 by {
            assert(pairs[i].0 != pairs[j].0);
        }
        map_of_distinct(init, at);
        assert(pairs[at].0 != pairs[pairs.len() - 1].0);
    }
}

/// A document of members stands for a pack entry exactly when it has a track and a size that are
/// unsigned integers, a digest that is text under its own name or the older one but not both, and
/// no flag or a proper one; the entry is then what they say
pub proof fn entries_hold_what_their_members_say(fields: Seq<(Seq<char>, Tree)>)
    ensures
        ({
            let digest = json::member(fields, "digest"@);
            let sha256 = json::member(fields, "sha256"@);
            let stream = json::member(fields, "stream"@);
            let entry = pack_of(Tree::Object(fields));
            &&& entry is Some <==> {
                &&& json::member(fields, "track"@) matches Some(Tree::Number(Some(_)))
                &&& json::member(fields, "size"@) matches Some(Tree::Number(Some(_)))
                &&& (digest is Some && digest->0 is Text && sha256 is None) || (sha256 is Some
                    && sha256->0 is Text && digest is None)
                &&& stream is None || stream->0 is Bool
            }
            &&& entry matches Some(entry) ==> {
                &&& json::member(fields, "track"@) == Some(Tree::Number(Some(entry.track)))
                &&& json::member(fields, "size"@) == Some(Tree::Number(Some(entry.size)))
                &&& digest is Some ==> digest == Some(Tree::Text(entry.digest))
                &&& digest is None ==> sha256 == Some(Tree::Text(entry.digest))
                &&& stream is None ==> !entry.stream
                &&& stream is Some ==> stream == Some(Tree::Bool(entry.stream))
            }
        }),
{
}

/// A record may be written as an array too, its items standing for the members in their order;
/// what is neither an object nor an array, or has too many items, stands for nothing
pub proof fn records_may_be_arrays(items: Seq<Tree>, tree: Tree)
    ensures
        items.len() > 5 ==> index_of(Tree::Array(items)) is None,
        items.len() > 4 ==> pack_of(Tree::Array(items)) is None,
        items.len() <= 5 ==> index_of(Tree::Array(items)) == index_of(
            Tree::Object(
                Seq::new(
                    items.len(),
                    |i: int|
                        (
                            seq!["version"@, "head"@, "refs"@, "packs"@, "parent"@][i],
                            items[i],
                        ),
                ),
            ),
        ),
        items.len() <= 4 ==> pack_of(Tree::Array(items)) == pack_of(
            Tree::Object(
                Seq::new(
                    items.len(),
                    |i: int| (seq!["track"@, "size"@, "digest"@, "stream"@][i], items[i]),
                ),
            ),
        ),
        !(tree is Object) && !(tree is Array) ==> index_of(tree) is None && pack_of(tree) is None,
{
    if items.len() <= 5 {
        assert(record(Tree::Array(items), index_fields())->0 =~= Seq::new(
            items.len(),
            |i: int| (seq!["version"@, "head"@, "refs"@, "packs"@, "parent"@][i], items[i]),
        ));
    }
    if items.len() <= 4 {
        assert(record(Tree::Array(items), pack_fields())->0 =~= Seq::new(
            items.len(),
            |i: int| (seq!["track"@, "size"@, "digest"@, "stream"@][i], items[i]),
        ));
    }
}

/// An index is written with its version, refs and packs, and with HEAD and its parent only where
/// it has them, each under its name and once, in this order
pub proof fn indexes_are_written_under_their_names(index: IndexView)
    ensures
        ({
            let fields = index_members(index);
            let names = fields.map_values(|field: (Seq<char>, Tree)| field.0);
            let head = if index.head is Some {
                seq!["head"@]
            } else {
                seq![]
            };
            let parent = if index.parent is Some {
                seq!["parent"@]
            } else {
                seq![]
            };
            &&& index_tree(index) == Tree::Object(fields)
            &&& names == seq!["version"@] + head + seq!["refs"@, "packs"@] + parent
            &&& fields[0].1 == Tree::Number(Some(index.version))
            &&& index.head matches Some(head) ==> fields[1].1 == Tree::Text(head)
            &&& index.parent matches Some(parent) ==> fields.last().1 == Tree::Number(
                Some(parent),
            )
        }),
{
    let fields = index_members(index);
    let names = fields.map_values(|field: (Seq<char>, Tree)| field.0);
    let head = if index.head is Some {
        seq!["head"@]
    } else {
        seq![]
    };
    let parent = if index.parent is Some {
        seq!["parent"@]
    } else {
        seq![]
    };
    assert(names =~= seq!["version"@] + head + seq!["refs"@, "packs"@] + parent);
}

/// A pack entry is written with its track, size and digest, and flagged only where it is a stream
pub proof fn entries_are_written_under_their_names(entry: PackEntryView)
    ensures
        ({
            let fields = pack_tree(entry)->Object_0;
            &&& pack_tree(entry) is Object
            &&& fields.len() == if entry.stream {
                4int
            } else {
                3int
            }
            &&& fields[0] == ("track"@, Tree::Number(Some(entry.track)))
            &&& fields[1] == ("size"@, Tree::Number(Some(entry.size)))
            &&& fields[2] == ("digest"@, Tree::Text(entry.digest))
            &&& entry.stream ==> fields[3] == ("stream"@, Tree::Bool(true))
        }),
{
}

/// Refs are written by name, each name with its object id
pub proof fn refs_are_written_by_name(refs: Map<Seq<char>, Seq<char>>, name: Seq<char>)
    requires
        refs.dom().finite(),
    ensures
        ({
            let fields = refs_tree(refs)->Object_0;
            &&& refs_tree(refs) is Object
            &&& fields.len() == refs.dom().len()
            &&& refs.contains_key(name) ==> fields.contains((name, Tree::Text(refs[name])))
            &&& forall|i: int, j: int|
                0 <= i < j < fields.len() ==> text::precedes(
                    (#[trigger] fields[i]).0,
                    (#[trigger] fields[j]).0,
                )
        }),
{
    refs::listing_exists(refs);
    let pairs = refs::listing(refs);
    refs::listing_builds_its_map(pairs, refs);
    refs::ascending_lists_its_map(pairs);
    let fields = refs_tree(refs)->Object_0;
    if refs.contains_key(name) {
        let i = choose|i: int| 0 <= i < pairs.len() && #[trigger] pairs[i].0 == name;
        assert(fields[i] == (name, Tree::Text(refs[name])));
    }
    assert forall|i: int, j: int| 0 <= i < j < fields.len() implies text::precedes(
        (#[trigger] fields[i]).0,
        (#[trigger] fields[j]).0,
    ) by {
        assert(text::precedes(pairs[i].0, pairs[j].0));
    }
}

/// Bytes decode to the index that their document stands for; what is no document is told apart
/// from a document that stands for no index
pub proof fn decoding_goes_by_the_document(bytes: Seq<u8>)
    ensures
        match json::document(bytes) {
            Err(trouble) => decoded(bytes) == Err::<IndexView, DecodeErrorView>(
                DecodeErrorView::NotJson(trouble),
            ),
            Ok(tree) => {
                &&& index_of(tree) matches Some(index) ==> decoded(bytes) == Ok::<
                    IndexView,
                    DecodeErrorView,
                >(index)
                &&& index_of(tree) is None ==> decoded(bytes) == Err::<
                    IndexView,
                    DecodeErrorView,
                >(DecodeErrorView::NotAnIndex)
            },
        },
{
}

} // verus!
