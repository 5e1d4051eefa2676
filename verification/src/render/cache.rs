//! The process-wide cache of decoded static base images, keyed by
//! (schema identity, asset path).

use vstd::prelude::*;

use super::raster::{raster_eq, Raster};

verus! {

/// One cached decoded image.
pub struct ImageBufCacheEntry {
    /// The identity of the schema the image belongs to.
    pub schema_id: String,
    /// The schema-relative path of the decoded asset.
    pub asset_path: String,
    /// The decoded image.
    pub img_buf: Raster,
}

/// The cache store: entries accumulate in insertion order, with no
/// deduplication and no eviction.
pub struct ImageBufCache {
    /// The accumulated entries, oldest first.
    pub entries: Vec<ImageBufCacheEntry>,
}

/// Whether an entry satisfies both filters; an absent filter is a wildcard.
pub open spec fn spec_entry_matches(
    e: ImageBufCacheEntry,
    schema_id: Option<String>,
    asset_path: Option<String>,
) -> bool {
    &&& match schema_id {
        Some(sid) => e.schema_id@ == sid@,
        None => true,
    }
    &&& match asset_path {
        Some(ap) => e.asset_path@ == ap@,
        None => true,
    }
}

/// The first entry matching both filters, scanning oldest first.
pub open spec fn spec_first_match(
    entries: Seq<ImageBufCacheEntry>,
    schema_id: Option<String>,
    asset_path: Option<String>,
) -> Option<ImageBufCacheEntry>
    decreases entries.len(),
{
    if entries.len() == 0 {
        None
    } else if spec_entry_matches(entries[0], schema_id, asset_path) {
        Some(entries[0])
    } else {
        spec_first_match(entries.drop_first(), schema_id, asset_path)
    }
}

impl ImageBufCache {
    /// An empty cache.
    pub fn new() -> (r: Self)
        ensures
            r.entries@.len() == 0,
    {
        ImageBufCache { entries: Vec::new() }
    }

    /// Returns a copy of the first cached entry matching every given
    /// filter, or nothing when no entry matches.
    pub fn filter_for(&self, schema_id: Option<String>, asset_path: Option<String>) -> (r: Option<
        Raster,
    >)
        ensures
            match spec_first_match(self.entries@, schema_id, asset_path) {
                Some(e) => r matches Some(img) && raster_eq(img, e.img_buf),
                None => r is None,
            },
    {
        let mut i: usize = 0;
        proof {
            assert(self.entries@.skip(0) =~= self.entries@);
        }
        while i < self.entries.len()
            invariant
                i <= self.entries@.len(),
                spec_first_match(self.entries@, schema_id, asset_path) == spec_first_match(
                    self.entries@.skip(i as int),
                    schema_id,
                    asset_path,
                ),
            decreases self.entries@.len() - i,
        {
            let ghost rest = self.entries@.skip(i as int);
            let entry = &self.entries[i];
            let mut matches = true;
            if let Some(schema_id_val) = &schema_id {
                if !crate::strutil::str_eq(schema_id_val.as_str(), entry.schema_id.as_str()) {
                    matches = false;
                }
            }
            if let Some(asset_path_val) = &asset_path {
                if !crate::strutil::str_eq(asset_path_val.as_str(), entry.asset_path.as_str()) {
                    matches = false;
                }
            }
            proof {
                assert(rest[0] == self.entries@[i as int]);
                assert(matches == spec_entry_matches(self.entries@[i as int], schema_id, asset_path));
                assert(rest.drop_first() =~= self.entries@.skip(i + 1));
            }
            if matches {
                return Some(entry.img_buf.duplicate());
            }
            i = i + 1;
        }
        None
    }

    /// Appends a new entry unconditionally: no deduplication, no capacity
    /// bound, no eviction.
    pub fn add_entry(&mut self, schema_id: &str, asset_path: &str, img_buf: Raster)
        ensures
            final(self).entries@.len() == old(self).entries@.len() + 1,
            forall|i: int|
                0 <= i < old(self).entries@.len() ==> final(self).entries@[i] == old(
                    self,
                ).entries@[i],
            final(self).entries@.last().schema_id@ == schema_id@,
            final(self).entries@.last().asset_path@ == asset_path@,
            final(self).entries@.last().img_buf == img_buf,
    {
        let mut sid = String::new();
        sid.append(schema_id);
        let mut ap = String::new();
        ap.append(asset_path);
        self.entries.push(ImageBufCacheEntry { schema_id: sid, asset_path: ap, img_buf });
    }
}

/// After an entry is inserted into a cache where nothing matched its
/// identity and path, a lookup filtering on exactly that identity and path
/// finds the inserted image; and the lookup does not change the cache, so
/// any number of successive lookups find that same image.
pub proof fn lemma_cache_lookup_after_insert(
    entries: Seq<ImageBufCacheEntry>,
    e: ImageBufCacheEntry,
    schema_id: String,
    asset_path: String,
)
    requires
        spec_first_match(entries, Some(schema_id), Some(asset_path)) is None,
        e.schema_id@ == schema_id@,
        e.asset_path@ == asset_path@,
    ensures
        spec_first_match(entries.push(e), Some(schema_id), Some(asset_path)) == Some(e),
    decreases entries.len(),
{
    if entries.len() == 0 {
        assert(entries.push(e)[0] == e);
    } else {
        assert(entries.push(e)[0] == entries[0]);
        assert(entries.push(e).drop_first() =~= entries.drop_first().push(e));
        lemma_cache_lookup_after_insert(entries.drop_first(), e, schema_id, asset_path);
    }
}

/// A lookup whose filters match no entry finds nothing.
pub proof fn lemma_cache_lookup_no_match(
    entries: Seq<ImageBufCacheEntry>,
    schema_id: Option<String>,
    asset_path: Option<String>,
)
    requires
        forall|i: int|
            0 <= i < entries.len() ==> !spec_entry_matches(entries[i], schema_id, asset_path),
    ensures
        spec_first_match(entries, schema_id, asset_path) is None,
    decreases entries.len(),
{
    if entries.len() > 0 {
        assert(forall|i: int|
            0 <= i < entries.drop_first().len() ==> entries.drop_first()[i] == entries[i + 1]);
        lemma_cache_lookup_no_match(entries.drop_first(), schema_id, asset_path);
    }
}

} // verus!
