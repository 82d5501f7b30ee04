//! The service-side pieces of the pipeline that are plain data and plain
//! computation: the service and layer values that carry a configuration,
//! and the recovery of a byte count from a downstream error message.

use vstd::prelude::*;
use vstd::string::StringSliceAdditionalSpecFns;

use crate::config::SizeLimitConfig;
use crate::digits::{parse_usize_spec, parse_usize_bytes};
use crate::normalize::{byte_is_space, is_space_byte, space_prefix_len, lemma_space_prefix_len_unique};

verus! {

/// A service value pairing an inner service with the size-limit
/// configuration that governs its requests.
#[derive(Clone)]
pub struct SizeLimitService<S> {
    inner: S,
    config: SizeLimitConfig,
}

impl<S> SizeLimitService<S> {
    /// The configuration this service enforces.
    pub closed spec fn config_spec(&self) -> SizeLimitConfig {
        self.config
    }

    /// The wrapped inner service.
    pub closed spec fn inner_spec(&self) -> &S {
        &self.inner
    }

    /// Wrap `inner` so that its request bodies are size-limited by
    /// `config`.
    pub fn new(inner: S, config: SizeLimitConfig) -> (r: Self)
        ensures
            r.config_spec() == config,
    {
        SizeLimitService { inner, config }
    }

    /// The configuration, for the layer that drives the request.
    pub fn config(&self) -> (c: &SizeLimitConfig)
        ensures
            c == self.config_spec(),
    {
        &self.config
    }

    /// The wrapped inner service.
    pub fn inner(&self) -> (i: &S)
        ensures
            i == self.inner_spec(),
    {
        &self.inner
    }
}

/// A layer value holding the configuration that each wrapped service will
/// enforce.
#[derive(Clone)]
pub struct SizeLimitLayer {
    config: SizeLimitConfig,
}

impl SizeLimitLayer {
    /// The configuration this layer hands to each service.
    pub closed spec fn config_spec(&self) -> SizeLimitConfig {
        self.config
    }

    /// A layer enforcing `config`.
    pub fn new(config: SizeLimitConfig) -> (r: Self)
        ensures
            r.config_spec() == config,
    {
        SizeLimitLayer { config }
    }

    /// The configuration.
    pub fn config(&self) -> (c: &SizeLimitConfig)
        ensures
            c == self.config_spec(),
    {
        &self.config
    }

    /// Wrap a service with this layer's configuration.
    pub fn into_service<S>(self, inner: S) -> (r: SizeLimitService<S>)
        ensures
            r.config_spec() == self.config_spec(),
    {
        SizeLimitService::new(inner, self.config)
    }
}

/// The marker `got ` starts at position `j` of `s`.
pub open spec fn is_got_at(s: Seq<u8>, j: int) -> bool {
    &&& 0 <= j
    &&& j + 4 <= s.len()
    &&& s[j] == 103
    &&& s[j + 1] == 111
    &&& s[j + 2] == 116
    &&& s[j + 3] == 32
}

/// Position of the first `got ` marker, or -1.
pub open spec fn got_scan(s: Seq<u8>) -> int
    decreases s.len(),
{
    if s.len() < 4 {
        -1
    } else if s[0] == 103 && s[1] == 111 && s[2] == 116 && s[3] == 32 {
        0
    } else {
        let r = got_scan(s.drop_first());
        if r < 0 {
            -1
        } else {
            1 + r
        }
    }
}

proof fn lemma_got_scan(s: Seq<u8>)
    ensures
        got_scan(s) >= 0 ==> is_got_at(s, got_scan(s)) && forall|j: int|
            0 <= j < got_scan(s) ==> !is_got_at(s, j),
        got_scan(s) < 0 ==> forall|j: int| !#[trigger] is_got_at(s, j),
    decreases s.len(),
{
    if s.len() >= 4 && !(s[0] == 103 && s[1] == 111 && s[2] == 116 && s[3] == 32) {
        lemma_got_scan(s.drop_first());
        let d = s.drop_first();
        assert(forall|j: int| 0 <= j && j + 1 <= s.len() - 4 ==> (is_got_at(s, j + 1)
            <==> #[trigger] is_got_at(d, j)));
        if got_scan(s) >= 0 {
            assert forall|j: int| 0 <= j < got_scan(s) implies !is_got_at(s, j) by {
                if j > 0 {
                    assert(!is_got_at(d, j - 1));
                }
            }
        } else {
            assert forall|j: int| !#[trigger] is_got_at(s, j) by {
                if is_got_at(s, j) {
                    assert(j != 0);
                    assert(is_got_at(d, j - 1));
                }
            }
        }
    }
}

proof fn lemma_got_scan_unique(s: Seq<u8>, n: int)
    requires
        is_got_at(s, n),
        forall|j: int| 0 <= j < n ==> !#[trigger] is_got_at(s, j),
    ensures
        n == got_scan(s),
{
    lemma_got_scan(s);
    let p = got_scan(s);
    if p < 0 {
        assert(!is_got_at(s, n));
    } else if n < p {
        assert(!is_got_at(s, n));
    } else if p < n {
        assert(!is_got_at(s, p));
    }
}

/// Length of the leading run of non-whitespace bytes.
pub open spec fn nonspace_scan_len(s: Seq<u8>) -> int
    decreases s.len(),
{
    if s.len() == 0 {
        0
    } else if is_space_byte(s[0]) {
        0
    } else {
        1 + nonspace_scan_len(s.drop_first())
    }
}

proof fn lemma_nonspace_scan_len(s: Seq<u8>)
    ensures
        0 <= nonspace_scan_len(s) <= s.len(),
        forall|i: int| 0 <= i < nonspace_scan_len(s) ==> !is_space_byte(s[i]),
        nonspace_scan_len(s) < s.len() ==> is_space_byte(s[nonspace_scan_len(s)]),
    decreases s.len(),
{
    if s.len() != 0 && !is_space_byte(s[0]) {
        lemma_nonspace_scan_len(s.drop_first());
        assert forall|i: int| 0 <= i < nonspace_scan_len(s) implies !is_space_byte(s[i]) by {
            if i > 0 {
                assert(s.drop_first()[i - 1] == s[i]);
            }
        }
    }
}

proof fn lemma_nonspace_scan_len_unique(s: Seq<u8>, n: int)
    requires
        0 <= n <= s.len(),
        forall|i: int| 0 <= i < n ==> !is_space_byte(s[i]),
        n < s.len() ==> is_space_byte(s[n]),
    ensures
        n == nonspace_scan_len(s),
{
    lemma_nonspace_scan_len(s);
    let p = nonspace_scan_len(s);
    if n < p {
        assert(!is_space_byte(s[n]));
    } else if p < n {
        assert(!is_space_byte(s[p]));
    }
}

/// Position of the first `got ` marker, if one occurs.
fn find_got(b: &[u8]) -> (r: Option<usize>)
    ensures
        r matches Some(gg) ==> gg as int == got_scan(b@),
        r is None ==> got_scan(b@) < 0,
{
    let n = b.len();
    if n < 4 {
        proof {
            lemma_got_scan(b@);
            if got_scan(b@) >= 0 {
                assert(is_got_at(b@, got_scan(b@)));
            }
        }
        return None;
    }
    let mut i: usize = 0;
    while i <= n - 4
        invariant
            4 <= n,
            n == b@.len(),
            i <= n - 3,
            forall|j: int| 0 <= j < i ==> !#[trigger] is_got_at(b@, j),
        decreases n - i,
    {
        if b[i] == 103 && b[i + 1] == 111 && b[i + 2] == 116 && b[i + 3] == 32 {
            proof {
                lemma_got_scan_unique(b@, i as int);
            }
            return Some(i);
        }
        proof {
            assert(!is_got_at(b@, i as int));
        }
        i += 1;
    }
    proof {
        assert forall|j: int| !#[trigger] is_got_at(b@, j) by {
            if is_got_at(b@, j) {
                assert(j <= n - 4);
                assert(j < i);
            }
        }
        lemma_got_scan(b@);
        if got_scan(b@) >= 0 {
            assert(is_got_at(b@, got_scan(b@)));
        }
    }
    None
}

/// The byte count recovered from an error message: the first
/// whitespace-delimited token after the first `got ` marker, read as a
/// number, if all of that exists.
pub open spec fn extract_size_spec(s: Seq<u8>) -> Option<usize> {
    let g = got_scan(s);
    if g < 0 {
        None
    } else {
        let rest = s.skip(g + 4);
        let tok_area = rest.skip(space_prefix_len(rest));
        if tok_area.len() == 0 {
            None
        } else {
            parse_usize_spec(tok_area.take(nonspace_scan_len(tok_area)))
        }
    }
}

/// Recover the actual byte count from a downstream error message of the
/// shape `... got <n> bytes ...`, when the message carries one.
pub fn extract_actual_size_from_error(error: &str) -> (r: Option<usize>)
    ensures
        r == extract_size_spec(error.spec_bytes()),
{
    let b = error.as_bytes();
    let n = b.len();

    let g = match find_got(b) {
        Some(gg) => gg,
        None => {
            return None;
        },
    };
    proof {
        lemma_got_scan(b@);
    }
    let ghost rest = b@.skip(g + 4);
    proof {
        assert(forall|j: int| 0 <= j < rest.len() ==> rest[j] == b@[g + 4 + j]);
    }

    let mut ts: usize = g + 4;
    while ts < n && byte_is_space(b[ts])
        invariant
            n == b@.len(),
            g + 4 <= ts <= n,
            forall|j: int| g + 4 <= j < ts ==> is_space_byte(b@[j]),
        decreases n - ts,
    {
        ts += 1;
    }
    proof {
        assert forall|j: int| 0 <= j < ts - (g + 4) implies is_space_byte(rest[j]) by {
            assert(rest[j] == b@[g + 4 + j]);
        }
        if ts < n {
            assert(rest[ts - (g + 4)] == b@[ts as int]);
        }
        lemma_space_prefix_len_unique(rest, ts - (g + 4));
    }
    let ghost tok_area = rest.skip(space_prefix_len(rest));
    proof {
        assert(forall|j: int| 0 <= j < tok_area.len() ==> tok_area[j] == b@[ts + j]);
    }
    if ts == n {
        return None;
    }

    let mut te: usize = ts;
    while te < n && !byte_is_space(b[te])
        invariant
            n == b@.len(),
            ts <= te <= n,
            forall|j: int| ts <= j < te ==> !is_space_byte(b@[j]),
        decreases n - te,
    {
        te += 1;
    }
    proof {
        assert forall|j: int| 0 <= j < te - ts implies !is_space_byte(tok_area[j]) by {
            assert(tok_area[j] == b@[ts + j]);
        }
        if te < n {
            assert(tok_area[te - ts] == b@[te as int]);
        }
        lemma_nonspace_scan_len_unique(tok_area, te - ts);
    }

    let mut tok: Vec<u8> = Vec::new();
    let mut k = ts;
    while k < te
        invariant
            ts <= k <= te <= n,
            n == b@.len(),
            tok@.len() == k - ts,
            forall|j: int| 0 <= j < tok@.len() ==> tok@[j] == b@[ts + j],
        decreases te - k,
    {
        tok.push(b[k]);
        k += 1;
    }
    proof {
        assert(tok@ =~= tok_area.take(nonspace_scan_len(tok_area)));
    }
    parse_usize_bytes(tok.as_slice())
}

} // verus!
