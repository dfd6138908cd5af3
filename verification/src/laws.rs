//! The guarantees the library gives, stated as proof functions.
//!
//! Each states a law over the collector's and the synthesizer's models: what
//! a reader may rely on of every route table this library builds.

use vstd::prelude::*;
use crate::asset::{AssetModel, RawEntry, all_files_under_root, is_prefix_of, model_of, route_of,
    collected, views};
use crate::table::{RouteTable, entry_route, has_entry_document, lookup, unique_routes,
    lemma_lookup_first_match};

verus! {

/// Non-file entries never produce table entries: inserting a directory or
/// any other non-file entry anywhere in a walk leaves the collected assets
/// unchanged.
pub proof fn lemma_non_file_yields_no_entry(
    root: Seq<char>,
    entries: Seq<RawEntry>,
    k: int,
    e: RawEntry,
)
    requires
        0 <= k <= entries.len(),
        !(e.kind is RegularFile),
    ensures
        collected(root, entries.insert(k, e)) == collected(root, entries),
    decreases entries.len(),
{
    let extended = entries.insert(k, e);
    if k == entries.len() {
        assert(extended.drop_last() =~= entries);
        assert(extended.last() == e);
    } else {
        assert(extended.drop_last() =~= entries.drop_last().insert(k, e));
        assert(extended.last() == entries.last());
        lemma_non_file_yields_no_entry(root, entries.drop_last(), k, e);
    }
}

/// A walk that meets no regular file collects no assets at all.
pub proof fn lemma_no_files_no_assets(root: Seq<char>, entries: Seq<RawEntry>)
    requires
        forall|i: int| 0 <= i < entries.len() ==> !((#[trigger] entries[i].kind) is RegularFile),
    ensures
        collected(root, entries) == Seq::<AssetModel>::empty(),
    decreases entries.len(),
{
    if entries.len() > 0 {
        lemma_no_files_no_assets(root, entries.drop_last());
    }
}

/// Every regular file of the walk appears among the collected assets, with
/// its route derived from its path relative to the root and its bytes kept
/// byte-for-byte.
pub proof fn lemma_file_is_collected(root: Seq<char>, entries: Seq<RawEntry>, k: int)
    requires
        0 <= k < entries.len(),
        entries[k].kind is RegularFile,
    ensures
        exists|j: int|
            0 <= j < collected(root, entries).len() && collected(root, entries)[j] == model_of(
                root,
                entries[k],
            ),
    decreases entries.len(),
{
    let c = collected(root, entries);
    let m = model_of(root, entries[k]);
    if k == entries.len() - 1 {
        assert(entries.last() == entries[k]);
        assert(c[c.len() - 1] == m);
    } else {
        assert(entries.drop_last()[k] == entries[k]);
        lemma_file_is_collected(root, entries.drop_last(), k);
        let rest = collected(root, entries.drop_last());
        let j = choose|j: int|
            0 <= j < rest.len() && rest[j] == model_of(root, entries.drop_last()[k]);
        assert(c[j] == m);
    }
}

/// Conversely, every collected asset stems from some regular file of the
/// walk: collection invents nothing.
pub proof fn lemma_collected_from_files(root: Seq<char>, entries: Seq<RawEntry>, j: int)
    requires
        0 <= j < collected(root, entries).len(),
    ensures
        exists|k: int|
            0 <= k < entries.len() && (#[trigger] entries[k].kind) is RegularFile && collected(
                root,
                entries,
            )[j] == model_of(root, entries[k]),
    decreases entries.len(),
{
    let c = collected(root, entries);
    let prior = entries.drop_last();
    let rest = collected(root, prior);
    if entries.last().kind is RegularFile && j == rest.len() {
        assert(entries[entries.len() - 1].kind is RegularFile);
        assert(c[j] == model_of(root, entries[entries.len() - 1]));
    } else {
        lemma_collected_from_files(root, prior, j);
        let k = choose|k: int|
            0 <= k < prior.len() && (#[trigger] prior[k].kind) is RegularFile && rest[j]
                == model_of(root, prior[k]);
        assert(prior[k] == entries[k]);
        assert(entries[k].kind is RegularFile);
        assert(c[j] == model_of(root, entries[k]));
    }
}

/// No two regular files of the walk share a path.
pub open spec fn distinct_file_paths(entries: Seq<RawEntry>) -> bool {
    forall|k1: int, k2: int|
        0 <= k1 < k2 < entries.len() && (#[trigger] entries[k1].kind) is RegularFile && (
        #[trigger] entries[k2].kind) is RegularFile ==> entries[k1].path@ != entries[k2].path@
}

/// Duplicate routes cannot occur: a walk of distinct file paths under the
/// root collects assets whose routes are unique.
pub proof fn lemma_unique_paths_unique_routes(root: Seq<char>, entries: Seq<RawEntry>)
    requires
        all_files_under_root(root, entries),
        distinct_file_paths(entries),
    ensures
        unique_routes(collected(root, entries)),
    decreases entries.len(),
{
    if entries.len() > 0 {
        let prior = entries.drop_last();
        assert forall|i: int|
            0 <= i < prior.len() && prior[i].kind is RegularFile implies is_prefix_of(
            root,
            #[trigger] prior[i].path@,
        ) by {
            assert(prior[i] == entries[i]);
        }
        lemma_unique_paths_unique_routes(root, prior);
        let c = collected(root, entries);
        let rest = collected(root, prior);
        if entries.last().kind is RegularFile {
            let last = entries.len() - 1;
            assert forall|i: int, j: int| 0 <= i < j < c.len() implies (#[trigger] c[i].route) != (
            #[trigger] c[j].route) by {
                if j < rest.len() {
                    assert(rest[i].route != rest[j].route);
                } else {
                    lemma_collected_from_files(root, prior, i);
                    let k = choose|k: int|
                        0 <= k < prior.len() && (#[trigger] prior[k].kind) is RegularFile && rest[i]
                            == model_of(root, prior[k]);
                    assert(prior[k] == entries[k]);
                    assert(c[j] == model_of(root, entries[last]));
                    if c[i].route == c[j].route {
                        assert(is_prefix_of(root, entries[k].path@));
                        assert(is_prefix_of(root, entries[last].path@));
                        lemma_route_injective(root, entries[k].path@, entries[last].path@);
                        assert(entries[k].path@ != entries[last].path@);
                        assert(false);
                    }
                }
            }
        }
    }
}

/// The complete round trip: in a table whose entries are what a walk of
/// distinct file paths collected, every regular file is served at its
/// derived route with byte-for-byte its contents.
pub proof fn lemma_build_round_trip(
    root: Seq<char>,
    entries: Seq<RawEntry>,
    t: RouteTable,
    k: int,
)
    requires
        all_files_under_root(root, entries),
        distinct_file_paths(entries),
        views(t.entries@) == collected(root, entries),
        0 <= k < entries.len(),
        entries[k].kind is RegularFile,
    ensures
        t.served(route_of(root, entries[k].path@)) == entries[k].content@,
{
    lemma_unique_paths_unique_routes(root, entries);
    lemma_file_is_collected(root, entries, k);
    let c = collected(root, entries);
    let j = choose|j: int| 0 <= j < c.len() && c[j] == model_of(root, entries[k]);
    lemma_exact_route_round_trip(t, j);
}

/// Routes derive one-to-one from paths: two paths under the root that yield
/// the same route are the same path, so a walk of distinct paths can never
/// produce a duplicate route.
pub proof fn lemma_route_injective(root: Seq<char>, p1: Seq<char>, p2: Seq<char>)
    requires
        is_prefix_of(root, p1),
        is_prefix_of(root, p2),
        route_of(root, p1) == route_of(root, p2),
    ensures
        p1 == p2,
{
    assert(p1.skip(root.len() as int).len() == p1.len() - root.len());
    assert(p2.skip(root.len() as int).len() == p2.len() - root.len());
    assert(p1 =~= p2) by {
        assert forall|i: int| 0 <= i < p1.len() implies p1[i] == p2[i] by {
            if i < root.len() {
                assert(p1.subrange(0, root.len() as int)[i] == p1[i]);
                assert(p2.subrange(0, root.len() as int)[i] == p2[i]);
            } else {
                assert(p1.skip(root.len() as int)[i - root.len()] == p1[i]);
                assert(p2.skip(root.len() as int)[i - root.len()] == p2[i]);
            }
        }
    }
}

/// An entry document exists exactly when some asset's route is
/// `/index.html`.
pub proof fn lemma_entry_document_exists_iff(models: Seq<AssetModel>)
    ensures
        has_entry_document(models) <==> exists|i: int|
            0 <= i < models.len() && (#[trigger] models[i].route) == entry_route(),
    decreases models.len(),
{
    if models.len() > 0 {
        let rest = models.drop_first();
        lemma_entry_document_exists_iff(rest);
        if models[0].route == entry_route() {
            assert(models[0].route == entry_route());
        } else {
            if has_entry_document(models) {
                let i = choose|i: int|
                    0 <= i < rest.len() && (#[trigger] rest[i].route) == entry_route();
                assert(models[i + 1].route == entry_route());
            }
            if exists|i: int|
                0 <= i < models.len() && (#[trigger] models[i].route) == entry_route() {
                let i = choose|i: int|
                    0 <= i < models.len() && (#[trigger] models[i].route) == entry_route();
                assert(rest[i - 1].route == entry_route());
            }
        }
    }
}

/// Round trip: when routes are unique, serving an entry's own route answers
/// with exactly that entry's bytes — byte-for-byte what was collected, with
/// no transformation.
pub proof fn lemma_exact_route_round_trip(t: RouteTable, i: int)
    requires
        unique_routes(views(t.entries@)),
        0 <= i < views(t.entries@).len(),
    ensures
        t.served(views(t.entries@)[i].route) == views(t.entries@)[i].content,
{
    let models = views(t.entries@);
    assert forall|j: int| 0 <= j < i implies (#[trigger] models[j].route) != models[i].route by {
        assert(models[j].route != models[i].route);
    }
    lemma_lookup_first_match(models, models[i].route, i);
}

/// The fallback always serves the entry document: any path with no
/// exact-match entry is answered with exactly the `/index.html` asset's
/// bytes, whatever the path was.
pub proof fn lemma_fallback_serves_entry_document(t: RouteTable, path: Seq<char>)
    requires
        t.wf(),
        lookup(views(t.entries@), path) is None,
    ensures
        lookup(views(t.entries@), entry_route()) matches Some(doc) && t.served(path) == doc,
{
}

/// Exact-match lookup takes precedence, and both ways to the entry document
/// agree: a request for `/index.html` is answered by its exact-match entry,
/// an unmatched path by the fallback, and the bytes are identical.
pub proof fn lemma_entry_document_precedence(t: RouteTable, path: Seq<char>)
    requires
        t.wf(),
        lookup(views(t.entries@), path) is None,
    ensures
        lookup(views(t.entries@), entry_route()) is Some,
        t.served(entry_route()) == t.fallback@,
        t.served(path) == t.served(entry_route()),
{
}

} // verus!
