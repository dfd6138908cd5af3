//! The asset collector.
//!
//! The directory walk itself is outside work; the collector here receives the
//! walk's raw entries as plain values and does the part with design content:
//! it keeps exactly the regular files, derives each route key from the entry's
//! path relative to the scanned root, and captures the contents verbatim.

use vstd::prelude::*;
use crate::error::BuildError;

verus! {

/// The mathematical value of an asset: a route key and the exact bytes
/// served for it.
#[verifier::ext_equal]
pub struct AssetModel {
    pub route: Seq<char>,
    pub content: Seq<u8>,
}

/// An immutable asset: a route key (the file's path relative to the scanned
/// root) paired with the file's exact, unmodified bytes.
#[derive(Debug)]
pub struct Asset {
    pub route: String,
    pub content: Vec<u8>,
}

impl View for Asset {
    type V = AssetModel;

    open spec fn view(&self) -> AssetModel {
        AssetModel { route: self.route@, content: self.content@ }
    }
}

/// The models of a sequence of assets.
pub open spec fn views(assets: Seq<Asset>) -> Seq<AssetModel> {
    assets.map_values(|a: Asset| a@)
}

/// What kind of filesystem entry a walk handed back.
#[derive(Clone, Copy, Debug, PartialEq, Eq, Structural)]
pub enum EntryKind {
    /// A regular file; the only kind that becomes an asset.
    RegularFile,
    /// A directory: a traversal intermediate, never an asset.
    Directory,
    /// Anything else a walk can meet (a symlink to a non-file, a special file).
    Other,
}

/// One raw entry of a directory walk, as plain values: its kind, its full
/// path as text, and, for a regular file, its contents. The contents of a
/// non-file entry are never looked at.
#[derive(Debug)]
pub struct RawEntry {
    pub kind: EntryKind,
    pub path: String,
    pub content: Vec<u8>,
}

/// `prefix` is an initial segment of `s`.
pub open spec fn is_prefix_of(prefix: Seq<char>, s: Seq<char>) -> bool {
    prefix.len() <= s.len() && s.subrange(0, prefix.len() as int) == prefix
}

/// The route key of a file at `path`: what remains of the path once the root
/// prefix is removed.
pub open spec fn route_of(root: Seq<char>, path: Seq<char>) -> Seq<char> {
    path.skip(root.len() as int)
}

/// Every regular-file entry lies under the root: its path carries the root
/// as a prefix.
pub open spec fn all_files_under_root(root: Seq<char>, entries: Seq<RawEntry>) -> bool {
    forall|i: int|
        0 <= i < entries.len() && entries[i].kind is RegularFile ==> is_prefix_of(
            root,
            #[trigger] entries[i].path@,
        )
}

/// The asset model a regular-file entry yields: the route derived from its
/// path and its bytes kept verbatim.
pub open spec fn model_of(root: Seq<char>, e: RawEntry) -> AssetModel {
    AssetModel { route: route_of(root, e.path@), content: e.content@ }
}

/// The asset models that a walk's entries yield: one per regular file, in
/// walk order, with the route derived from the path and the content kept
/// verbatim. Non-file entries yield nothing.
pub open spec fn collected(root: Seq<char>, entries: Seq<RawEntry>) -> Seq<AssetModel>
    decreases entries.len(),
{
    if entries.len() == 0 {
        Seq::empty()
    } else {
        let rest = collected(root, entries.drop_last());
        let e = entries.last();
        if e.kind is RegularFile {
            rest.push(model_of(root, e))
        } else {
            rest
        }
    }
}

/// Character-for-character string equality.
pub fn str_eq(a: &str, b: &str) -> (r: bool)
    ensures
        r == (a@ == b@),
{
    let a_len = a.unicode_len();
    let b_len = b.unicode_len();
    if a_len != b_len {
        return false;
    }
    let mut i: usize = 0;
    while i < a_len
        invariant
            a_len == a@.len(),
            a_len == b@.len(),
            i <= a_len,
            forall|j: int| 0 <= j < i ==> a@[j] == b@[j],
        decreases a_len - i,
    {
        if a.get_char(i) != b.get_char(i) {
            return false;
        }
        i = i + 1;
    }
    proof {
        assert(a@ =~= b@);
    }
    true
}

/// The route key of `path` relative to `root`: `Some` of the remainder when
/// `root` is a prefix of `path`, `None` otherwise.
pub fn route_from_path(root: &str, path: &str) -> (r: Option<String>)
    ensures
        r is Some <==> is_prefix_of(root@, path@),
        r matches Some(s) ==> s@ == route_of(root@, path@),
{
    let root_len = root.unicode_len();
    let path_len = path.unicode_len();
    if path_len < root_len {
        return None;
    }
    let mut i: usize = 0;
    while i < root_len
        invariant
            root_len == root@.len(),
            path_len == path@.len(),
            root_len <= path_len,
            i <= root_len,
            forall|j: int| 0 <= j < i ==> root@[j] == path@[j],
        decreases root_len - i,
    {
        if root.get_char(i) != path.get_char(i) {
            proof {
                assert(!is_prefix_of(root@, path@)) by {
                    if is_prefix_of(root@, path@) {
                        assert(path@.subrange(0, root@.len() as int)[i as int] == root@[i as int]);
                    }
                }
            }
            return None;
        }
        i = i + 1;
    }
    proof {
        assert(path@.subrange(0, root@.len() as int) =~= root@);
    }
    let rest = path.substring_char(root_len, path_len);
    Some(String::from_str(rest))
}

/// A byte-for-byte copy.
pub fn copy_bytes(src: &Vec<u8>) -> (r: Vec<u8>)
    ensures
        r@ == src@,
{
    let mut r: Vec<u8> = Vec::new();
    let mut i: usize = 0;
    while i < src.len()
        invariant
            i <= src@.len(),
            r@ == src@.take(i as int),
        decreases src@.len() - i,
    {
        r.push(src[i]);
        i = i + 1;
        proof {
            assert(r@ =~= src@.take(i as int));
        }
    }
    proof {
        assert(src@.take(src@.len() as int) =~= src@);
    }
    r
}

/// Collect the assets of a directory walk: keep every regular file, derive
/// its route from its path relative to `root`, and keep its bytes verbatim.
/// A regular file whose path does not lie under the root is a fatal
/// traversal error: no partial asset set is produced.
pub fn collect(root: &str, entries: &Vec<RawEntry>) -> (r: Result<Vec<Asset>, BuildError>)
    ensures
        r is Ok <==> all_files_under_root(root@, entries@),
        r matches Ok(assets) ==> views(assets@) == collected(root@, entries@),
        r matches Err(e) ==> e == BuildError::Traversal,
{
    let mut assets: Vec<Asset> = Vec::new();
    let mut i: usize = 0;
    while i < entries.len()
        invariant
            i <= entries@.len(),
            views(assets@) == collected(root@, entries@.take(i as int)),
            all_files_under_root(root@, entries@.take(i as int)),
        decreases entries@.len() - i,
    {
        let entry = &entries[i];
        match entry.kind {
            EntryKind::RegularFile => {
                match route_from_path(root, entry.path.as_str()) {
                    Some(route) => {
                        let content = copy_bytes(&entry.content);
                        assets.push(Asset { route, content });
                    },
                    None => {
                        proof {
                            assert(entries@[i as int].kind is RegularFile);
                            assert(!is_prefix_of(root@, entries@[i as int].path@));
                        }
                        return Err(BuildError::Traversal);
                    },
                }
            },
            _ => {},
        }
        i = i + 1;
        proof {
            lemma_collected_step(root@, entries@, i as int);
            assert(views(assets@) =~= collected(root@, entries@.take(i as int)));
            assert forall|j: int|
                0 <= j < i && entries@.take(i as int)[j].kind is RegularFile implies is_prefix_of(
                root@,
                entries@.take(i as int)[j].path@,
            ) by {
                assert(entries@.take(i as int)[j] == entries@[j]);
            }
        }
    }
    proof {
        assert(entries@.take(entries@.len() as int) =~= entries@);
    }
    Ok(assets)
}

/// Taking one more entry extends the collected models by that entry's model
/// when it is a regular file, and leaves them unchanged otherwise.
proof fn lemma_collected_step(root: Seq<char>, entries: Seq<RawEntry>, i: int)
    requires
        0 < i <= entries.len(),
    ensures
        entries[i - 1].kind is RegularFile ==> collected(root, entries.take(i)) == collected(
            root,
            entries.take(i - 1),
        ).push(model_of(root, entries[i - 1])),
        !(entries[i - 1].kind is RegularFile) ==> collected(root, entries.take(i)) == collected(
            root,
            entries.take(i - 1),
        ),
{
    assert(entries.take(i).drop_last() =~= entries.take(i - 1));
    assert(entries.take(i).last() == entries[i - 1]);
}

} // verus!
