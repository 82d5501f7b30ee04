//! Buffer-or-stream decisions per content type.
//!
//! A `BufferStrategy` holds two pattern lists, one for content types whose
//! bodies are buffered whole and one for content types whose bodies are
//! streamed, plus a default for everything else.  Patterns are exact types
//! (`application/json`) or wildcards (`image/*`).  Exact matches win over
//! wildcard matches for either list, and a buffered match wins over a
//! streamed match of the same tier.

use vstd::prelude::*;
use vstd::string::StringSliceAdditionalSpecFns;
use vstd::string::StrSliceExecFns;

use crate::normalize::{
    bytes_eq, has_subtype, normalize_content_type, normalize_ct, wildcard_key, wildcard_key_of,
    SLASH, STAR,
};

verus! {

/// The contents of a pattern list, pattern by pattern, as sequences.
pub open spec fn pats_view(pats: Seq<Vec<u8>>) -> Seq<Seq<u8>> {
    pats.map_values(|p: Vec<u8>| p@)
}

/// A defensive wildcard match: `p` ends in `/*` and the text before the `*`
/// (slash included) is a prefix of `n`.
pub open spec fn wildcard_prefix_covers(p: Seq<u8>, n: Seq<u8>) -> bool {
    &&& p.len() >= 2
    &&& p[p.len() - 2] == SLASH
    &&& p[p.len() - 1] == STAR
    &&& n.len() >= p.len() - 1
    &&& n.take(p.len() - 1) == p.take(p.len() - 1)
}

/// The byte sequences of a list of strings.
pub open spec fn strs_bytes(ts: Seq<&str>) -> Seq<Seq<u8>> {
    ts.map_values(|t: &str| t.spec_bytes())
}

/// Whether any pattern of the list is a defensive wildcard match for `n`.
pub open spec fn some_prefix_covers(pats: Seq<Seq<u8>>, n: Seq<u8>) -> bool {
    exists|i: int| 0 <= i < pats.len() && wildcard_prefix_covers(#[trigger] pats[i], n)
}

/// Whether to buffer or to stream a request body, decided by its content
/// type.
#[derive(Clone, Debug)]
pub struct BufferStrategy {
    /// Patterns of content types whose bodies are buffered whole.
    pub buffered_types: Vec<Vec<u8>>,
    /// Patterns of content types whose bodies are streamed.
    pub streamed_types: Vec<Vec<u8>>,
    /// Whether an unmatched content type is buffered.
    pub default_is_buffered: bool,
}

impl BufferStrategy {
    /// The buffered pattern list as sequences.
    pub open spec fn buffered_view(&self) -> Seq<Seq<u8>> {
        pats_view(self.buffered_types@)
    }

    /// The streamed pattern list as sequences.
    pub open spec fn streamed_view(&self) -> Seq<Seq<u8>> {
        pats_view(self.streamed_types@)
    }

    /// The buffering decision for a content type: exact buffered match,
    /// exact streamed match, wildcard buffered match, wildcard streamed
    /// match, defensive prefix match on either list, then the default —
    /// first tier that applies wins.
    pub open spec fn decides_buffer(&self, ct: Seq<u8>) -> bool {
        let n = normalize_ct(ct);
        if self.buffered_view().contains(n) {
            true
        } else if self.streamed_view().contains(n) {
            false
        } else if has_subtype(n) && self.buffered_view().contains(wildcard_key(n)) {
            true
        } else if has_subtype(n) && self.streamed_view().contains(wildcard_key(n)) {
            false
        } else if some_prefix_covers(self.buffered_view(), n) {
            true
        } else if some_prefix_covers(self.streamed_view(), n) {
            false
        } else {
            self.default_is_buffered
        }
    }

    /// An empty strategy that streams unmatched types.
    pub fn new() -> (r: Self)
        ensures
            r.buffered_view() == Seq::<Seq<u8>>::empty(),
            r.streamed_view() == Seq::<Seq<u8>>::empty(),
            r.default_is_buffered == false,
    {
        let r = BufferStrategy {
            buffered_types: Vec::new(),
            streamed_types: Vec::new(),
            default_is_buffered: false,
        };
        proof {
            assert(r.buffered_view() =~= Seq::<Seq<u8>>::empty());
            assert(r.streamed_view() =~= Seq::<Seq<u8>>::empty());
        }
        r
    }

    /// A strategy with common defaults: structured text formats are
    /// buffered, media and raw binary are streamed, unmatched types are
    /// streamed.
    pub fn with_defaults() -> (r: Self)
        ensures
            r.buffered_view() == seq![
                "application/json".spec_bytes(),
                "multipart/form-data".spec_bytes(),
                "text/*".spec_bytes(),
                "application/xml".spec_bytes(),
                "application/x-www-form-urlencoded".spec_bytes(),
            ],
            r.streamed_view() == seq![
                "video/*".spec_bytes(),
                "image/*".spec_bytes(),
                "audio/*".spec_bytes(),
                "application/octet-stream".spec_bytes(),
            ],
            r.default_is_buffered == false,
    {
        let mut buffered: Vec<Vec<u8>> = Vec::new();
        buffered.push("application/json".as_bytes_vec());
        buffered.push("multipart/form-data".as_bytes_vec());
        buffered.push("text/*".as_bytes_vec());
        buffered.push("application/xml".as_bytes_vec());
        buffered.push("application/x-www-form-urlencoded".as_bytes_vec());
        let mut streamed: Vec<Vec<u8>> = Vec::new();
        streamed.push("video/*".as_bytes_vec());
        streamed.push("image/*".as_bytes_vec());
        streamed.push("audio/*".as_bytes_vec());
        streamed.push("application/octet-stream".as_bytes_vec());
        let r = BufferStrategy { buffered_types: buffered, streamed_types: streamed, default_is_buffered: false };
        proof {
            assert(r.buffered_view() =~= seq![
                "application/json".spec_bytes(),
                "multipart/form-data".spec_bytes(),
                "text/*".spec_bytes(),
                "application/xml".spec_bytes(),
                "application/x-www-form-urlencoded".spec_bytes(),
            ]);
            assert(r.streamed_view() =~= seq![
                "video/*".spec_bytes(),
                "image/*".spec_bytes(),
                "audio/*".spec_bytes(),
                "application/octet-stream".spec_bytes(),
            ]);
        }
        r
    }

    /// A strategy that buffers every body.
    pub fn all_buffered() -> (r: Self)
        ensures
            r.buffered_view() == Seq::<Seq<u8>>::empty(),
            r.streamed_view() == Seq::<Seq<u8>>::empty(),
            r.default_is_buffered == true,
    {
        let r = BufferStrategy {
            buffered_types: Vec::new(),
            streamed_types: Vec::new(),
            default_is_buffered: true,
        };
        proof {
            assert(r.buffered_view() =~= Seq::<Seq<u8>>::empty());
            assert(r.streamed_view() =~= Seq::<Seq<u8>>::empty());
        }
        r
    }

    /// A strategy that streams every body.
    pub fn all_streamed() -> (r: Self)
        ensures
            r.buffered_view() == Seq::<Seq<u8>>::empty(),
            r.streamed_view() == Seq::<Seq<u8>>::empty(),
            r.default_is_buffered == false,
    {
        Self::new()
    }

    /// Append patterns to the buffered list.
    pub fn with_buffered_types(self, types: &[&str]) -> (r: Self)
        ensures
            r.streamed_types == self.streamed_types,
            r.default_is_buffered == self.default_is_buffered,
            r.buffered_view() == self.buffered_view() + strs_bytes(types@),
    {
        let mut this = self;
        let ghost pre = this.buffered_types@;
        let n = types.len();
        let mut i: usize = 0;
        while i < n
            invariant
                n == types@.len(),
                i <= n,
                this.streamed_types == self.streamed_types,
                this.default_is_buffered == self.default_is_buffered,
                this.buffered_types@.len() == pre.len() + i,
                forall|j: int| 0 <= j < pre.len() ==> this.buffered_types@[j] == pre[j],
                forall|j: int| pre.len() <= j < pre.len() + i ==> (
                #[trigger] this.buffered_types@[j])@ == types@[j - pre.len()].spec_bytes(),
            decreases n - i,
        {
            this.buffered_types.push(types[i].as_bytes_vec());
            i += 1;
        }
        proof {
            assert(this.buffered_view() =~= pats_view(pre) + strs_bytes(types@));
        }
        this
    }

    /// Append patterns to the streamed list.
    pub fn with_streamed_types(self, types: &[&str]) -> (r: Self)
        ensures
            r.buffered_types == self.buffered_types,
            r.default_is_buffered == self.default_is_buffered,
            r.streamed_view() == self.streamed_view() + strs_bytes(types@),
    {
        let mut this = self;
        let ghost pre = this.streamed_types@;
        let n = types.len();
        let mut i: usize = 0;
        while i < n
            invariant
                n == types@.len(),
                i <= n,
                this.buffered_types == self.buffered_types,
                this.default_is_buffered == self.default_is_buffered,
                this.streamed_types@.len() == pre.len() + i,
                forall|j: int| 0 <= j < pre.len() ==> this.streamed_types@[j] == pre[j],
                forall|j: int| pre.len() <= j < pre.len() + i ==> (
                #[trigger] this.streamed_types@[j])@ == types@[j - pre.len()].spec_bytes(),
            decreases n - i,
        {
            this.streamed_types.push(types[i].as_bytes_vec());
            i += 1;
        }
        proof {
            assert(this.streamed_view() =~= pats_view(pre) + strs_bytes(types@));
        }
        this
    }

    /// Set the default decision for unmatched content types.
    pub fn with_default_buffered(self, is_buffered: bool) -> (r: Self)
        ensures
            r.buffered_types == self.buffered_types,
            r.streamed_types == self.streamed_types,
            r.default_is_buffered == is_buffered,
    {
        let mut this = self;
        this.default_is_buffered = is_buffered;
        this
    }

    /// Remove every buffered pattern.
    pub fn clear_buffered_types(&mut self)
        ensures
            final(self).buffered_view() == Seq::<Seq<u8>>::empty(),
            final(self).streamed_types == old(self).streamed_types,
            final(self).default_is_buffered == old(self).default_is_buffered,
    {
        self.buffered_types.clear();
        proof {
            assert(self.buffered_view() =~= Seq::<Seq<u8>>::empty());
        }
    }

    /// Remove every streamed pattern.
    pub fn clear_streamed_types(&mut self)
        ensures
            final(self).streamed_view() == Seq::<Seq<u8>>::empty(),
            final(self).buffered_types == old(self).buffered_types,
            final(self).default_is_buffered == old(self).default_is_buffered,
    {
        self.streamed_types.clear();
        proof {
            assert(self.streamed_view() =~= Seq::<Seq<u8>>::empty());
        }
    }

    /// Remove every pattern from both lists.
    pub fn clear_all_types(&mut self)
        ensures
            final(self).buffered_view() == Seq::<Seq<u8>>::empty(),
            final(self).streamed_view() == Seq::<Seq<u8>>::empty(),
            final(self).default_is_buffered == old(self).default_is_buffered,
    {
        self.buffered_types.clear();
        self.streamed_types.clear();
        proof {
            assert(self.buffered_view() =~= Seq::<Seq<u8>>::empty());
            assert(self.streamed_view() =~= Seq::<Seq<u8>>::empty());
        }
    }

    /// Decide whether a request body with this content-type header value is
    /// buffered (`true`) or streamed (`false`).
    pub fn should_buffer(&self, content_type: &str) -> (r: bool)
        ensures
            r == self.decides_buffer(content_type.spec_bytes()),
    {
        let n = normalize_content_type(content_type);
        if pats_contain(&self.buffered_types, &n) {
            return true;
        }
        if pats_contain(&self.streamed_types, &n) {
            return false;
        }
        match wildcard_key_of(&n) {
            Some(w) => {
                if pats_contain(&self.buffered_types, &w) {
                    return true;
                }
                if pats_contain(&self.streamed_types, &w) {
                    return false;
                }
            },
            None => {},
        }
        if any_prefix_covers(&self.buffered_types, &n) {
            return true;
        }
        if any_prefix_covers(&self.streamed_types, &n) {
            return false;
        }
        self.default_is_buffered
    }
}

impl Default for BufferStrategy {
    /// The strategy of `BufferStrategy::with_defaults`.
    fn default() -> (r: Self)
        ensures
            r.buffered_view() == seq![
                "application/json".spec_bytes(),
                "multipart/form-data".spec_bytes(),
                "text/*".spec_bytes(),
                "application/xml".spec_bytes(),
                "application/x-www-form-urlencoded".spec_bytes(),
            ],
            r.streamed_view() == seq![
                "video/*".spec_bytes(),
                "image/*".spec_bytes(),
                "audio/*".spec_bytes(),
                "application/octet-stream".spec_bytes(),
            ],
            r.default_is_buffered == false,
    {
        Self::with_defaults()
    }
}

/// Whether the list holds `key` as a pattern.
fn pats_contain(pats: &Vec<Vec<u8>>, key: &Vec<u8>) -> (r: bool)
    ensures
        r == pats_view(pats@).contains(key@),
{
    let n = pats.len();
    let mut i: usize = 0;
    while i < n
        invariant
            n == pats@.len(),
            i <= n,
            forall|j: int| 0 <= j < i ==> pats_view(pats@)[j] != key@,
        decreases n - i,
    {
        if bytes_eq(pats[i].as_slice(), key.as_slice()) {
            proof {
                assert(pats_view(pats@)[i as int] == key@);
            }
            return true;
        }
        i += 1;
    }
    proof {
        assert(!pats_view(pats@).contains(key@)) by {
            if pats_view(pats@).contains(key@) {
                let j = choose|j: int| 0 <= j < pats_view(pats@).len() && pats_view(pats@)[j]
                    == key@;
                assert(pats_view(pats@)[j] != key@);
            }
        }
    }
    false
}

/// Whether one pattern is a defensive wildcard match for `n`.
fn pattern_prefix_covers(p: &Vec<u8>, n: &Vec<u8>) -> (r: bool)
    ensures
        r == wildcard_prefix_covers(p@, n@),
{
    let plen = p.len();
    if plen < 2 {
        return false;
    }
    if p[plen - 2] != SLASH || p[plen - 1] != STAR {
        return false;
    }
    let k = plen - 1;
    if n.len() < k {
        return false;
    }
    let mut i: usize = 0;
    while i < k
        invariant
            k == p@.len() - 1,
            k <= n@.len(),
            i <= k,
            forall|j: int| 0 <= j < i ==> n@[j] == p@[j],
        decreases k - i,
    {
        if n[i] != p[i] {
            proof {
                assert(n@.take(k as int)[i as int] != p@.take(k as int)[i as int]);
            }
            return false;
        }
        i += 1;
    }
    proof {
        assert(n@.take(k as int) =~= p@.take(k as int));
    }
    true
}

/// Whether any pattern of the list is a defensive wildcard match for `n`.
fn any_prefix_covers(pats: &Vec<Vec<u8>>, n: &Vec<u8>) -> (r: bool)
    ensures
        r == some_prefix_covers(pats_view(pats@), n@),
{
    let len = pats.len();
    let mut i: usize = 0;
    while i < len
        invariant
            len == pats@.len(),
            i <= len,
            forall|j: int| 0 <= j < i ==> !wildcard_prefix_covers(
                #[trigger] pats_view(pats@)[j],
                n@,
            ),
        decreases len - i,
    {
        if pattern_prefix_covers(&pats[i], n) {
            proof {
                assert(wildcard_prefix_covers(pats_view(pats@)[i as int], n@));
            }
            return true;
        }
        i += 1;
    }
    false
}

/// An exact entry decides the path, whatever wildcard entries either list
/// also holds: an exact buffered match buffers, and an exact streamed match
/// without an exact buffered match streams.
pub proof fn lemma_exact_match_wins_buffering(s: BufferStrategy, ct: Seq<u8>)
    ensures
        s.buffered_view().contains(normalize_ct(ct)) ==> s.decides_buffer(ct),
        !s.buffered_view().contains(normalize_ct(ct)) && s.streamed_view().contains(
            normalize_ct(ct),
        ) ==> !s.decides_buffer(ct),
{
}

} // verus!
