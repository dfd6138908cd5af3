//! The route table synthesizer and the synthesized table.
//!
//! Synthesis validates the asset set (the entry document at `/index.html`
//! must exist), then produces one exact-match entry per asset plus a single
//! fallback whose bytes are always the entry document's, served tagged as an
//! HTML document. The table is write-once: nothing mutates it afterwards.

use vstd::prelude::*;
use crate::asset::{Asset, AssetModel, RawEntry, all_files_under_root, collected, copy_bytes,
    collect, str_eq, views};
use crate::error::BuildError;

verus! {

/// The route of the entry document.
pub open spec fn entry_route() -> Seq<char> {
    "/index.html"@
}

/// First-match lookup among asset models: the content of the first model
/// whose route equals `route`, if any.
pub open spec fn lookup(models: Seq<AssetModel>, route: Seq<char>) -> Option<Seq<u8>>
    decreases models.len(),
{
    if models.len() == 0 {
        None
    } else if models[0].route == route {
        Some(models[0].content)
    } else {
        lookup(models.drop_first(), route)
    }
}

/// The asset set holds an entry document: some asset's route is `/index.html`.
pub open spec fn has_entry_document(models: Seq<AssetModel>) -> bool {
    lookup(models, entry_route()) is Some
}

/// No two asset models share a route.
pub open spec fn unique_routes(models: Seq<AssetModel>) -> bool {
    forall|i: int, j: int|
        0 <= i < j < models.len() ==> (#[trigger] models[i].route) != (#[trigger] models[j].route)
}

/// The synthesized route table: one exact-match entry per asset, plus the
/// fallback bytes served for every otherwise-unmatched path.
#[derive(Debug)]
pub struct RouteTable {
    pub entries: Vec<Asset>,
    pub fallback: Vec<u8>,
}

impl RouteTable {
    /// The table's invariant: the fallback bytes are exactly the entry
    /// document's bytes, and the entry document exists among the entries.
    pub open spec fn wf(&self) -> bool {
        lookup(views(self.entries@), entry_route()) == Some(self.fallback@)
    }

    /// The bytes served for a request path: the first exact-match entry's
    /// content when one exists, the fallback bytes otherwise.
    pub open spec fn served(&self, path: Seq<char>) -> Seq<u8> {
        match lookup(views(self.entries@), path) {
            Some(content) => content,
            None => self.fallback@,
        }
    }

    /// The exact-match entry for `path`, if any: the first entry whose route
    /// equals `path`.
    pub fn lookup_exact<'a>(&'a self, path: &str) -> (r: Option<&'a Vec<u8>>)
        ensures
            match r {
                Some(content) => lookup(views(self.entries@), path@) == Some(content@),
                None => lookup(views(self.entries@), path@) is None,
            },
    {
        let mut i: usize = 0;
        while i < self.entries.len()
            invariant
                i <= self.entries@.len(),
                forall|j: int| 0 <= j < i ==> (#[trigger] views(self.entries@)[j].route) != path@,
            decreases self.entries@.len() - i,
        {
            if str_eq(self.entries[i].route.as_str(), path) {
                proof {
                    lemma_lookup_first_match(views(self.entries@), path@, i as int);
                }
                return Some(&self.entries[i].content);
            }
            i = i + 1;
        }
        proof {
            lemma_lookup_none(views(self.entries@), path@);
        }
        None
    }

    /// Serve a request path: the exact-match entry's bytes when one exists,
    /// else the fallback bytes. The flag is true exactly when the fallback
    /// answered; only then are the bytes tagged as an HTML document.
    pub fn serve<'a>(&'a self, path: &str) -> (r: (&'a Vec<u8>, bool))
        ensures
            r.0@ == self.served(path@),
            r.1 == (lookup(views(self.entries@), path@) is None),
    {
        match self.lookup_exact(path) {
            Some(content) => (content, false),
            None => (&self.fallback, true),
        }
    }

    /// The fallback bytes.
    pub fn fallback_bytes<'a>(&'a self) -> (r: &'a Vec<u8>)
        ensures
            r@ == self.fallback@,
    {
        &self.fallback
    }

    /// How many exact-match entries the table holds.
    pub fn entry_count(&self) -> (n: usize)
        ensures
            n == views(self.entries@).len(),
    {
        self.entries.len()
    }
}

/// Synthesize the route table from an asset set: validate that the entry
/// document exists (else fail with the distinct missing-entry-document
/// error), then emit one exact-match entry per asset and the single fallback
/// carrying the entry document's bytes.
pub fn synthesize(assets: Vec<Asset>) -> (r: Result<RouteTable, BuildError>)
    ensures
        r is Ok <==> has_entry_document(views(assets@)),
        r matches Ok(t) ==> views(t.entries@) == views(assets@) && t.wf(),
        r matches Err(e) ==> e == BuildError::MissingEntryDocument,
{
    let mut i: usize = 0;
    while i < assets.len()
        invariant
            i <= assets@.len(),
            forall|j: int| 0 <= j < i ==> (#[trigger] views(assets@)[j].route) != entry_route(),
        decreases assets@.len() - i,
    {
        if str_eq(assets[i].route.as_str(), "/index.html") {
            let fallback = copy_bytes(&assets[i].content);
            proof {
                lemma_lookup_first_match(views(assets@), entry_route(), i as int);
            }
            return Ok(RouteTable { entries: assets, fallback });
        }
        i = i + 1;
    }
    proof {
        lemma_lookup_none(views(assets@), entry_route());
    }
    Err(BuildError::MissingEntryDocument)
}

/// The whole build-time pass: collect the assets of a directory walk, then
/// synthesize the route table. Fails fatally, with no partial output, when a
/// regular file lies outside the root or when no asset maps to
/// `/index.html`.
pub fn build_table(root: &str, entries: &Vec<RawEntry>) -> (r: Result<RouteTable, BuildError>)
    ensures
        r is Ok <==> all_files_under_root(root@, entries@) && has_entry_document(
            collected(root@, entries@),
        ),
        r matches Ok(t) ==> views(t.entries@) == collected(root@, entries@) && t.wf(),
        r matches Err(e) ==> (e == BuildError::Traversal || e
            == BuildError::MissingEntryDocument),
        r matches Err(e) ==> (e == BuildError::Traversal <==> !all_files_under_root(
            root@,
            entries@,
        )),
{
    let assets = match collect(root, entries) {
        Ok(assets) => assets,
        Err(e) => {
            return Err(e);
        },
    };
    synthesize(assets)
}

/// When the first `i` models miss `route` and model `i` carries it, lookup
/// answers with model `i`'s content.
pub proof fn lemma_lookup_first_match(models: Seq<AssetModel>, route: Seq<char>, i: int)
    requires
        0 <= i < models.len(),
        models[i].route == route,
        forall|j: int| 0 <= j < i ==> (#[trigger] models[j].route) != route,
    ensures
        lookup(models, route) == Some(models[i].content),
    decreases i,
{
    if i > 0 {
        lemma_lookup_first_match(models.drop_first(), route, i - 1);
    }
}

/// When no model carries `route`, lookup answers with nothing.
pub proof fn lemma_lookup_none(models: Seq<AssetModel>, route: Seq<char>)
    requires
        forall|j: int| 0 <= j < models.len() ==> (#[trigger] models[j].route) != route,
    ensures
        lookup(models, route) is None,
    decreases models.len(),
{
    if models.len() > 0 {
        lemma_lookup_none(models.drop_first(), route);
    }
}

} // verus!
