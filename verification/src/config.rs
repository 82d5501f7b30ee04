//! Per-content-type size limits.
//!
//! A `SizeLimitConfig` maps a normalized content type to an effective byte
//! limit: an exact match in `specific_limits` wins, then a wildcard match
//! (`type/*`) in `wildcard_limits`, then `default_limit`.
//!
//! The two tables are association lists keyed by lowercased content-type
//! bytes; a later entry for the same key replaces an earlier one, so their
//! mathematical model is a `Map`.

use vstd::prelude::*;
use vstd::string::StringSliceAdditionalSpecFns;
use vstd::std_specs::convert::IntoSpec;

use crate::normalize::{
    has_subtype, lower_bytes, lower_bytes_of, normalize_content_type, normalize_ct, wildcard_key,
    wildcard_key_of,
};
use crate::size::SizeLimit;

verus! {

/// The limit that applies when no entry matches: one megabyte.
pub const DEFAULT_SIZE_LIMIT: usize = 1000000;

/// The contents of an association list, entry by entry, as sequences.
pub open spec fn entries_view(m: Seq<(Vec<u8>, usize)>) -> Seq<(Seq<u8>, usize)> {
    m.map_values(|e: (Vec<u8>, usize)| (e.0@, e.1))
}

/// The map described by an association list; a later entry for a key
/// overrides an earlier one.
pub open spec fn entries_map(m: Seq<(Seq<u8>, usize)>) -> Map<Seq<u8>, usize>
    decreases m.len(),
{
    if m.len() == 0 {
        Map::empty()
    } else {
        entries_map(m.drop_last()).insert(m.last().0, m.last().1)
    }
}

/// Lookup in the map described by an association list.
pub open spec fn map_get(m: Seq<(Seq<u8>, usize)>, k: Seq<u8>) -> Option<usize> {
    if entries_map(m).contains_key(k) {
        Some(entries_map(m)[k])
    } else {
        None
    }
}

/// Find the value for `key`, scanning the association list from its end so
/// that the latest entry for a key wins.
fn assoc_get(m: &Vec<(Vec<u8>, usize)>, key: &Vec<u8>) -> (r: Option<usize>)
    ensures
        r == map_get(entries_view(m@), key@),
{
    let ghost ev = entries_view(m@);
    proof {
        assert(ev.take(m@.len() as int) =~= ev);
    }
    let mut i = m.len();
    while i > 0
        invariant
            i <= m@.len(),
            ev == entries_view(m@),
            map_get(ev, key@) == map_get(ev.take(i as int), key@),
        decreases i,
    {
        i -= 1;
        proof {
            assert(ev.take(i as int + 1).drop_last() =~= ev.take(i as int));
            assert(ev.take(i as int + 1).last() == ev[i as int]);
        }
        if crate::normalize::bytes_eq(m[i].0.as_slice(), key.as_slice()) {
            return Some(m[i].1);
        }
    }
    proof {
        assert(ev.take(0).len() == 0);
    }
    None
}

/// Append an entry; in the map model this is an insert.
fn assoc_set(m: &mut Vec<(Vec<u8>, usize)>, key: Vec<u8>, value: usize)
    ensures
        entries_map(entries_view(final(m)@)) == entries_map(entries_view(old(m)@)).insert(
            key@,
            value,
        ),
{
    let ghost pre = m@;
    m.push((key, value));
    proof {
        assert(entries_view(m@).drop_last() =~= entries_view(pre));
        assert(entries_view(m@).last() == (key@, value));
    }
}

/// Size limits per content type: exact matches, wildcard matches, and a
/// default, in that order of precedence.
#[derive(Clone, Debug)]
pub struct SizeLimitConfig {
    /// Limit for any content type not matched below, in bytes.
    pub default_limit: usize,
    /// Limits for exact content types, keyed by lowercased type bytes,
    /// for example `application/json`.
    pub specific_limits: Vec<(Vec<u8>, usize)>,
    /// Limits for wildcard patterns, keyed by lowercased pattern bytes,
    /// for example `image/*`.
    pub wildcard_limits: Vec<(Vec<u8>, usize)>,
}

impl SizeLimitConfig {
    /// The exact-match table as a map.
    pub open spec fn specific_map(&self) -> Map<Seq<u8>, usize> {
        entries_map(entries_view(self.specific_limits@))
    }

    /// The wildcard table as a map.
    pub open spec fn wildcard_map(&self) -> Map<Seq<u8>, usize> {
        entries_map(entries_view(self.wildcard_limits@))
    }

    /// The limit that this configuration resolves for a content type:
    /// the exact match for the normalized type if one is configured, else
    /// the wildcard match for its primary type, else the default.
    pub open spec fn resolved_limit(&self, ct: Seq<u8>) -> usize {
        let n = normalize_ct(ct);
        if self.specific_map().contains_key(n) {
            self.specific_map()[n]
        } else if has_subtype(n) && self.wildcard_map().contains_key(wildcard_key(n)) {
            self.wildcard_map()[wildcard_key(n)]
        } else {
            self.default_limit
        }
    }

    /// Resolve the effective byte limit for a content-type header value.
    pub fn get_limit_for_content_type(&self, content_type: &str) -> (r: usize)
        ensures
            r == self.resolved_limit(content_type.spec_bytes()),
    {
        let n = normalize_content_type(content_type);
        if let Some(limit) = assoc_get(&self.specific_limits, &n) {
            return limit;
        }
        if let Some(w) = wildcard_key_of(&n) {
            if let Some(limit) = assoc_get(&self.wildcard_limits, &w) {
                return limit;
            }
        }
        self.default_limit
    }

    /// Set the default limit.
    pub fn with_default_limit<L: Into<SizeLimit>>(self, limit: L) -> (r: Self)
        ensures
            r.specific_limits == self.specific_limits,
            r.wildcard_limits == self.wildcard_limits,
            <L as IntoSpec<SizeLimit>>::obeys_into_spec() ==> r.default_limit
                == limit.into_spec().0,
    {
        let mut this = self;
        let v: SizeLimit = limit.into();
        this.default_limit = v.0;
        this
    }

    /// Set the limit for one exact content type; the key is stored
    /// lowercased, and a repeated key replaces the earlier limit.
    pub fn with_specific_limit<L: Into<SizeLimit>>(self, mime_type: &str, limit: L) -> (r:
        Self)
        ensures
            r.default_limit == self.default_limit,
            r.wildcard_limits == self.wildcard_limits,
            r.specific_map().contains_key(lower_bytes(mime_type.spec_bytes())),
            forall|k: Seq<u8>| k != lower_bytes(mime_type.spec_bytes()) ==> (
            #[trigger] r.specific_map().contains_key(k) == self.specific_map().contains_key(k)
                && (self.specific_map().contains_key(k) ==> r.specific_map()[k]
                == self.specific_map()[k])),
            <L as IntoSpec<SizeLimit>>::obeys_into_spec() ==> r.specific_map()
                == self.specific_map().insert(
                lower_bytes(mime_type.spec_bytes()),
                limit.into_spec().0,
            ),
    {
        let mut this = self;
        let key = lower_bytes_of(mime_type);
        let v: SizeLimit = limit.into();
        assoc_set(&mut this.specific_limits, key, v.0);
        this
    }

    /// Set the limit for one wildcard pattern such as `image/*`; the key is
    /// stored lowercased, and a repeated key replaces the earlier limit.
    pub fn with_wildcard_limit<L: Into<SizeLimit>>(self, wildcard: &str, limit: L) -> (r:
        Self)
        ensures
            r.default_limit == self.default_limit,
            r.specific_limits == self.specific_limits,
            r.wildcard_map().contains_key(lower_bytes(wildcard.spec_bytes())),
            forall|k: Seq<u8>| k != lower_bytes(wildcard.spec_bytes()) ==> (
            #[trigger] r.wildcard_map().contains_key(k) == self.wildcard_map().contains_key(k)
                && (self.wildcard_map().contains_key(k) ==> r.wildcard_map()[k]
                == self.wildcard_map()[k])),
            <L as IntoSpec<SizeLimit>>::obeys_into_spec() ==> r.wildcard_map()
                == self.wildcard_map().insert(
                lower_bytes(wildcard.spec_bytes()),
                limit.into_spec().0,
            ),
    {
        let mut this = self;
        let key = lower_bytes_of(wildcard);
        let v: SizeLimit = limit.into();
        assoc_set(&mut this.wildcard_limits, key, v.0);
        this
    }

    /// An empty configuration with the one-megabyte default.
    pub fn new() -> (c: Self)
        ensures
            c.default_limit == DEFAULT_SIZE_LIMIT,
            c.specific_map() == Map::<Seq<u8>, usize>::empty(),
            c.wildcard_map() == Map::<Seq<u8>, usize>::empty(),
    {
        SizeLimitConfig {
            default_limit: DEFAULT_SIZE_LIMIT,
            specific_limits: Vec::new(),
            wildcard_limits: Vec::new(),
        }
    }

    /// Remove every exact-match limit.
    pub fn clear_specific_limits(&mut self)
        ensures
            final(self).specific_map() == Map::<Seq<u8>, usize>::empty(),
            final(self).default_limit == old(self).default_limit,
            final(self).wildcard_limits == old(self).wildcard_limits,
    {
        self.specific_limits.clear();
    }

    /// Remove every wildcard limit.
    pub fn clear_wildcard_limits(&mut self)
        ensures
            final(self).wildcard_map() == Map::<Seq<u8>, usize>::empty(),
            final(self).default_limit == old(self).default_limit,
            final(self).specific_limits == old(self).specific_limits,
    {
        self.wildcard_limits.clear();
    }

    /// Remove every configured limit and reset the default to one megabyte.
    pub fn clear_all_limits(&mut self)
        ensures
            final(self).default_limit == DEFAULT_SIZE_LIMIT,
            final(self).specific_map() == Map::<Seq<u8>, usize>::empty(),
            final(self).wildcard_map() == Map::<Seq<u8>, usize>::empty(),
    {
        self.default_limit = DEFAULT_SIZE_LIMIT;
        self.specific_limits.clear();
        self.wildcard_limits.clear();
    }

    /// An empty configuration with a custom default limit.
    pub fn with_default<L: Into<SizeLimit>>(limit: L) -> (c: Self)
        ensures
            c.specific_map() == Map::<Seq<u8>, usize>::empty(),
            c.wildcard_map() == Map::<Seq<u8>, usize>::empty(),
            <L as IntoSpec<SizeLimit>>::obeys_into_spec() ==> c.default_limit
                == limit.into_spec().0,
    {
        Self::new().with_default_limit(limit)
    }
}

impl Default for SizeLimitConfig {
    /// An empty configuration with the one-megabyte default.
    fn default() -> (c: Self)
        ensures
            c.default_limit == DEFAULT_SIZE_LIMIT,
            c.specific_map() == Map::<Seq<u8>, usize>::empty(),
            c.wildcard_map() == Map::<Seq<u8>, usize>::empty(),
    {
        Self::new()
    }
}

/// Resolution is a function of the configured maps alone and follows the
/// three-tier precedence: the exact entry for the normalized content type
/// wins, even when a wildcard entry also matches; a wildcard entry wins
/// over the default; everything else falls back to the default.
pub proof fn lemma_resolve_precedence(c: SizeLimitConfig, ct: Seq<u8>)
    ensures
        ({
            let n = normalize_ct(ct);
            &&& c.specific_map().contains_key(n) ==> c.resolved_limit(ct) == c.specific_map()[n]
            &&& !c.specific_map().contains_key(n) && has_subtype(n)
                && c.wildcard_map().contains_key(wildcard_key(n)) ==> c.resolved_limit(ct)
                == c.wildcard_map()[wildcard_key(n)]
            &&& !c.specific_map().contains_key(n) && !(has_subtype(n)
                && c.wildcard_map().contains_key(wildcard_key(n))) ==> c.resolved_limit(ct)
                == c.default_limit
        }),
{
}

/// A configuration resolves the same limit for a content type and for its
/// normalized form.
pub proof fn lemma_resolve_normalized(c: SizeLimitConfig, ct: Seq<u8>)
    ensures
        c.resolved_limit(normalize_ct(ct)) == c.resolved_limit(ct),
{
    crate::normalize::lemma_normalize_idempotent(ct);
}

/// A configuration resolves the same limit whether or not the content type
/// carries a `;`-separated parameter section.
pub proof fn lemma_resolve_param_insensitive(c: SizeLimitConfig, ct: Seq<u8>, params: Seq<u8>)
    ensures
        c.resolved_limit(ct + seq![crate::normalize::SEMICOLON] + params) == c.resolved_limit(
            ct,
        ),
{
    crate::normalize::lemma_normalize_param_insensitive(ct, params);
}

} // verus!
