//! Normalization of content-type strings.
//!
//! A content-type header value is normalized by cutting it at the first `;`
//! (dropping any parameters such as `charset=utf-8`), trimming surrounding
//! ASCII whitespace, and lowercasing ASCII letters.  All reasoning is done on
//! the UTF-8 bytes of the string; multi-byte characters pass through
//! untouched, since the bytes that matter (`;`, `/`, `*`, whitespace, ASCII
//! letters) never occur inside a multi-byte UTF-8 sequence.

use vstd::prelude::*;
use vstd::string::StringSliceAdditionalSpecFns;

verus! {

/// The byte `;`, which separates a MIME type from its parameters.
pub const SEMICOLON: u8 = 59;

/// The byte `/`, which separates a MIME type from its subtype.
pub const SLASH: u8 = 47;

/// The byte `*`, used in wildcard patterns such as `image/*`.
pub const STAR: u8 = 42;

/// Lowercase an ASCII letter; any other byte is unchanged.
pub open spec fn lower_byte(b: u8) -> u8 {
    if 65 <= b && b <= 90 {
        (b + 32) as u8
    } else {
        b
    }
}

/// Lowercase the ASCII letters of a byte sequence.
pub open spec fn lower_bytes(s: Seq<u8>) -> Seq<u8> {
    s.map_values(|b: u8| lower_byte(b))
}

/// ASCII whitespace: space, tab, line feed, vertical tab, form feed,
/// carriage return.
pub open spec fn is_space_byte(b: u8) -> bool {
    b == 32 || (9 <= b && b <= 13)
}

/// Length of the longest prefix of `s` that does not contain `stop`.
pub open spec fn prefix_len_until(s: Seq<u8>, stop: u8) -> int
    decreases s.len(),
{
    if s.len() == 0 {
        0
    } else if s[0] == stop {
        0
    } else {
        1 + prefix_len_until(s.drop_first(), stop)
    }
}

/// Number of whitespace bytes at the start of `s`.
pub open spec fn space_prefix_len(s: Seq<u8>) -> int
    decreases s.len(),
{
    if s.len() == 0 {
        0
    } else if is_space_byte(s[0]) {
        1 + space_prefix_len(s.drop_first())
    } else {
        0
    }
}

/// Number of whitespace bytes at the end of `s`.
pub open spec fn space_suffix_len(s: Seq<u8>) -> int
    decreases s.len(),
{
    if s.len() == 0 {
        0
    } else if is_space_byte(s[s.len() - 1]) {
        1 + space_suffix_len(s.drop_last())
    } else {
        0
    }
}

/// The part of a content type before its first `;`.
pub open spec fn cut_params(s: Seq<u8>) -> Seq<u8> {
    s.take(prefix_len_until(s, SEMICOLON))
}

/// `s` without leading and trailing ASCII whitespace.
pub open spec fn trim_spaces(s: Seq<u8>) -> Seq<u8> {
    let t = s.skip(space_prefix_len(s));
    t.take(t.len() - space_suffix_len(t))
}

/// The normalized form of a content type: parameters cut off, whitespace
/// trimmed, ASCII letters lowercased.
pub open spec fn normalize_ct(s: Seq<u8>) -> Seq<u8> {
    lower_bytes(trim_spaces(cut_params(s)))
}

/// Whether a normalized content type names a subtype, that is, contains `/`.
pub open spec fn has_subtype(n: Seq<u8>) -> bool {
    prefix_len_until(n, SLASH) < n.len()
}

/// The wildcard pattern `type/*` formed from the primary type of `n`.
pub open spec fn wildcard_key(n: Seq<u8>) -> Seq<u8> {
    n.take(prefix_len_until(n, SLASH)).push(SLASH).push(STAR)
}

pub proof fn lemma_prefix_len_until(s: Seq<u8>, stop: u8)
    ensures
        0 <= prefix_len_until(s, stop) <= s.len(),
        forall|i: int| 0 <= i < prefix_len_until(s, stop) ==> s[i] != stop,
        prefix_len_until(s, stop) < s.len() ==> s[prefix_len_until(s, stop)] == stop,
    decreases s.len(),
{
    if s.len() != 0 && s[0] != stop {
        lemma_prefix_len_until(s.drop_first(), stop);
        assert forall|i: int| 0 <= i < prefix_len_until(s, stop) implies s[i] != stop by {
            if i > 0 {
                assert(s.drop_first()[i - 1] == s[i]);
            }
        }
    }
}

pub proof fn lemma_prefix_len_until_unique(s: Seq<u8>, stop: u8, n: int)
    requires
        0 <= n <= s.len(),
        forall|i: int| 0 <= i < n ==> s[i] != stop,
        n < s.len() ==> s[n] == stop,
    ensures
        n == prefix_len_until(s, stop),
{
    lemma_prefix_len_until(s, stop);
    let p = prefix_len_until(s, stop);
    if n < p {
        assert(s[n] != stop);
    } else if p < n {
        assert(s[p] != stop);
    }
}

pub proof fn lemma_space_prefix_len(s: Seq<u8>)
    ensures
        0 <= space_prefix_len(s) <= s.len(),
        forall|i: int| 0 <= i < space_prefix_len(s) ==> is_space_byte(s[i]),
        space_prefix_len(s) < s.len() ==> !is_space_byte(s[space_prefix_len(s)]),
    decreases s.len(),
{
    if s.len() != 0 && is_space_byte(s[0]) {
        lemma_space_prefix_len(s.drop_first());
        assert forall|i: int| 0 <= i < space_prefix_len(s) implies is_space_byte(s[i]) by {
            if i > 0 {
                assert(s.drop_first()[i - 1] == s[i]);
            }
        }
    }
}

pub proof fn lemma_space_prefix_len_unique(s: Seq<u8>, n: int)
    requires
        0 <= n <= s.len(),
        forall|i: int| 0 <= i < n ==> is_space_byte(s[i]),
        n < s.len() ==> !is_space_byte(s[n]),
    ensures
        n == space_prefix_len(s),
{
    lemma_space_prefix_len(s);
    let p = space_prefix_len(s);
    if n < p {
        assert(is_space_byte(s[n]));
    } else if p < n {
        assert(is_space_byte(s[p]));
    }
}

pub proof fn lemma_space_suffix_len(s: Seq<u8>)
    ensures
        0 <= space_suffix_len(s) <= s.len(),
        forall|i: int| s.len() - space_suffix_len(s) <= i < s.len() ==> is_space_byte(s[i]),
        space_suffix_len(s) < s.len() ==> !is_space_byte(
            s[s.len() - space_suffix_len(s) - 1],
        ),
    decreases s.len(),
{
    if s.len() != 0 && is_space_byte(s[s.len() - 1]) {
        lemma_space_suffix_len(s.drop_last());
        assert forall|i: int| s.len() - space_suffix_len(s) <= i < s.len() implies is_space_byte(
            s[i],
        ) by {
            if i < s.len() - 1 {
                assert(s.drop_last()[i] == s[i]);
            }
        }
        if space_suffix_len(s) < s.len() {
            assert(s.drop_last()[s.len() - space_suffix_len(s) - 1 - 1 + 1] == s[s.len()
                - space_suffix_len(s) - 1]);
        }
    }
}

pub proof fn lemma_space_suffix_len_unique(s: Seq<u8>, n: int)
    requires
        0 <= n <= s.len(),
        forall|i: int| s.len() - n <= i < s.len() ==> is_space_byte(s[i]),
        n < s.len() ==> !is_space_byte(s[s.len() - n - 1]),
    ensures
        n == space_suffix_len(s),
{
    lemma_space_suffix_len(s);
    let p = space_suffix_len(s);
    if n < p {
        assert(is_space_byte(s[s.len() - n - 1]));
    } else if p < n {
        assert(is_space_byte(s[s.len() - p - 1]));
    }
}

/// Lowercase an ASCII letter byte.
pub fn byte_to_lower(b: u8) -> (r: u8)
    ensures
        r == lower_byte(b),
{
    if 65 <= b && b <= 90 {
        b + 32
    } else {
        b
    }
}

/// Recognize ASCII whitespace.
pub fn byte_is_space(b: u8) -> (r: bool)
    ensures
        r == is_space_byte(b),
{
    b == 32 || (9 <= b && b <= 13)
}

/// Compare two byte slices for equality.
pub fn bytes_eq(a: &[u8], b: &[u8]) -> (r: bool)
    ensures
        r == (a@ == b@),
{
    if a.len() != b.len() {
        return false;
    }
    let n = a.len();
    let mut i: usize = 0;
    while i < n
        invariant
            n == a@.len(),
            n == b@.len(),
            i <= n,
            forall|j: int| 0 <= j < i ==> a@[j] == b@[j],
        decreases n - i,
    {
        if a[i] != b[i] {
            return false;
        }
        i += 1;
    }
    proof {
        assert(a@ =~= b@);
    }
    true
}

/// Lowercase the ASCII letters of a string, as bytes.
pub fn lower_bytes_of(s: &str) -> (r: Vec<u8>)
    ensures
        r@ == lower_bytes(s.spec_bytes()),
{
    let b = s.as_bytes();
    let n = b.len();
    let mut out: Vec<u8> = Vec::new();
    let mut i: usize = 0;
    while i < n
        invariant
            n == b@.len(),
            i <= n,
            out@.len() == i as int,
            forall|j: int| 0 <= j < i ==> out@[j] == lower_byte(b@[j]),
        decreases n - i,
    {
        out.push(byte_to_lower(b[i]));
        i += 1;
    }
    proof {
        assert(out@ =~= lower_bytes(b@));
    }
    out
}

/// Normalize a content-type header value: cut at the first `;`, trim ASCII
/// whitespace, lowercase ASCII letters.
pub fn normalize_content_type(s: &str) -> (r: Vec<u8>)
    ensures
        r@ == normalize_ct(s.spec_bytes()),
{
    let b = s.as_bytes();
    let n = b.len();

    let mut cut: usize = 0;
    while cut < n && b[cut] != SEMICOLON
        invariant
            n == b@.len(),
            cut <= n,
            forall|j: int| 0 <= j < cut ==> b@[j] != SEMICOLON,
        decreases n - cut,
    {
        cut += 1;
    }
    proof {
        lemma_prefix_len_until_unique(b@, SEMICOLON, cut as int);
    }
    let ghost c: Seq<u8> = cut_params(b@);
    proof {
        assert(c =~= b@.take(cut as int));
    }

    let mut start: usize = 0;
    while start < cut && byte_is_space(b[start])
        invariant
            n == b@.len(),
            cut <= n,
            start <= cut,
            forall|j: int| 0 <= j < start ==> is_space_byte(b@[j]),
        decreases cut - start,
    {
        start += 1;
    }
    proof {
        assert(forall|j: int| 0 <= j < c.len() ==> c[j] == b@[j]);
        lemma_space_prefix_len_unique(c, start as int);
    }
    let ghost t: Seq<u8> = c.skip(start as int);
    proof {
        assert(forall|j: int| 0 <= j < t.len() ==> t[j] == b@[start + j]);
    }

    let mut end: usize = cut;
    while end > start && byte_is_space(b[end - 1])
        invariant
            n == b@.len(),
            start <= end <= cut <= n,
            forall|j: int| end <= j < cut ==> is_space_byte(b@[j]),
        decreases end,
    {
        end -= 1;
    }
    proof {
        let k = cut - end;
        assert forall|i: int| t.len() - k <= i < t.len() implies is_space_byte(t[i]) by {
            assert(t[i] == b@[start + i]);
        }
        if k < t.len() {
            assert(t[t.len() - k - 1] == b@[end - 1]);
        }
        lemma_space_suffix_len_unique(t, k as int);
        assert(trim_spaces(c) =~= b@.subrange(start as int, end as int));
    }

    let mut out: Vec<u8> = Vec::new();
    let mut i = start;
    while i < end
        invariant
            n == b@.len(),
            start <= i <= end <= n,
            out@.len() == i - start,
            forall|j: int| 0 <= j < out@.len() ==> out@[j] == lower_byte(b@[start + j]),
        decreases end - i,
    {
        out.push(byte_to_lower(b[i]));
        i += 1;
    }
    proof {
        assert(out@ =~= normalize_ct(b@));
    }
    out
}

/// Trim ASCII whitespace from both ends of a string and lowercase its ASCII
/// letters, as bytes.
pub fn trim_lower_of(s: &str) -> (r: Vec<u8>)
    ensures
        r@ == lower_bytes(trim_spaces(s.spec_bytes())),
{
    let b = s.as_bytes();
    let n = b.len();

    let mut start: usize = 0;
    while start < n && byte_is_space(b[start])
        invariant
            n == b@.len(),
            start <= n,
            forall|j: int| 0 <= j < start ==> is_space_byte(b@[j]),
        decreases n - start,
    {
        start += 1;
    }
    proof {
        lemma_space_prefix_len_unique(b@, start as int);
    }
    let ghost t: Seq<u8> = b@.skip(start as int);
    proof {
        assert(forall|j: int| 0 <= j < t.len() ==> t[j] == b@[start + j]);
    }

    let mut end: usize = n;
    while end > start && byte_is_space(b[end - 1])
        invariant
            n == b@.len(),
            start <= end <= n,
            forall|j: int| end <= j < n ==> is_space_byte(b@[j]),
        decreases end,
    {
        end -= 1;
    }
    proof {
        let k = n - end;
        assert forall|i: int| t.len() - k <= i < t.len() implies is_space_byte(t[i]) by {
            assert(t[i] == b@[start + i]);
        }
        if k < t.len() {
            assert(t[t.len() - k - 1] == b@[end - 1]);
        }
        lemma_space_suffix_len_unique(t, k as int);
        assert(trim_spaces(b@) =~= b@.subrange(start as int, end as int));
    }

    let mut out: Vec<u8> = Vec::new();
    let mut i = start;
    while i < end
        invariant
            n == b@.len(),
            start <= i <= end <= n,
            out@.len() == i - start,
            forall|j: int| 0 <= j < out@.len() ==> out@[j] == lower_byte(b@[start + j]),
        decreases end - i,
    {
        out.push(byte_to_lower(b[i]));
        i += 1;
    }
    proof {
        assert(out@ =~= lower_bytes(trim_spaces(b@)));
    }
    out
}

/// The tail of `t` from `from` on, trimmed of ASCII whitespace at both ends.
pub fn trimmed_tail(t: &Vec<u8>, from: usize) -> (u: Vec<u8>)
    requires
        from <= t@.len(),
    ensures
        u@ == trim_spaces(t@.skip(from as int)),
{
    let n = t.len();
    let ghost sk: Seq<u8> = t@.skip(from as int);
    proof {
        assert(forall|j: int| 0 <= j < sk.len() ==> sk[j] == t@[from + j]);
    }

    let mut start: usize = from;
    while start < n && byte_is_space(t[start])
        invariant
            n == t@.len(),
            from <= start <= n,
            forall|j: int| from <= j < start ==> is_space_byte(t@[j]),
        decreases n - start,
    {
        start += 1;
    }
    proof {
        assert forall|j: int| 0 <= j < start - from implies is_space_byte(sk[j]) by {
            assert(sk[j] == t@[from + j]);
        }
        if start < n {
            assert(sk[start - from] == t@[start as int]);
        }
        lemma_space_prefix_len_unique(sk, start - from);
    }
    let ghost t1: Seq<u8> = sk.skip(start - from);
    proof {
        assert(forall|j: int| 0 <= j < t1.len() ==> t1[j] == t@[start + j]);
    }

    let mut end: usize = n;
    while end > start && byte_is_space(t[end - 1])
        invariant
            n == t@.len(),
            start <= end <= n,
            forall|j: int| end <= j < n ==> is_space_byte(t@[j]),
        decreases end,
    {
        end -= 1;
    }
    proof {
        let k = n - end;
        assert forall|i: int| t1.len() - k <= i < t1.len() implies is_space_byte(t1[i]) by {
            assert(t1[i] == t@[start + i]);
        }
        if k < t1.len() {
            assert(t1[t1.len() - k - 1] == t@[end - 1]);
        }
        lemma_space_suffix_len_unique(t1, k as int);
        assert(trim_spaces(sk) =~= t@.subrange(start as int, end as int));
    }

    let mut out: Vec<u8> = Vec::new();
    let mut i = start;
    while i < end
        invariant
            n == t@.len(),
            start <= i <= end <= n,
            out@.len() == i - start,
            forall|j: int| 0 <= j < out@.len() ==> out@[j] == t@[start + j],
        decreases end - i,
    {
        out.push(t[i]);
        i += 1;
    }
    proof {
        assert(out@ =~= trim_spaces(sk));
    }
    out
}

/// The wildcard pattern `type/*` for the primary type of `n`, or `None` when
/// `n` contains no `/`.
pub fn wildcard_key_of(n: &Vec<u8>) -> (r: Option<Vec<u8>>)
    ensures
        r matches Some(w) ==> has_subtype(n@) && w@ == wildcard_key(n@),
        r is None ==> !has_subtype(n@),
{
    let len = n.len();
    let mut slash: usize = 0;
    while slash < len && n[slash] != SLASH
        invariant
            len == n@.len(),
            slash <= len,
            forall|j: int| 0 <= j < slash ==> n@[j] != SLASH,
        decreases len - slash,
    {
        slash += 1;
    }
    proof {
        lemma_prefix_len_until_unique(n@, SLASH, slash as int);
    }
    if slash == len {
        return None;
    }
    let mut w: Vec<u8> = Vec::new();
    let mut i: usize = 0;
    while i < slash
        invariant
            slash <= n@.len(),
            i <= slash,
            w@.len() == i as int,
            forall|j: int| 0 <= j < i ==> w@[j] == n@[j],
        decreases slash - i,
    {
        w.push(n[i]);
        i += 1;
    }
    w.push(SLASH);
    w.push(STAR);
    proof {
        assert(w@ =~= wildcard_key(n@));
    }
    Some(w)
}

/// A normalized content type contains no `;`, carries no whitespace at
/// either end, and is unchanged by further lowercasing.
pub proof fn lemma_normalized_shape(s: Seq<u8>)
    ensures
        forall|i: int| 0 <= i < normalize_ct(s).len() ==> normalize_ct(s)[i] != SEMICOLON,
        normalize_ct(s).len() > 0 ==> !is_space_byte(normalize_ct(s)[0]),
        normalize_ct(s).len() > 0 ==> !is_space_byte(
            normalize_ct(s)[normalize_ct(s).len() - 1],
        ),
        forall|i: int| 0 <= i < normalize_ct(s).len() ==> lower_byte(#[trigger] normalize_ct(s)[i])
            == normalize_ct(s)[i],
{
    let c = cut_params(s);
    let l = space_prefix_len(c);
    let t1 = c.skip(l);
    let r = space_suffix_len(t1);
    let t = t1.take(t1.len() - r);
    let n = normalize_ct(s);
    lemma_prefix_len_until(s, SEMICOLON);
    lemma_space_prefix_len(c);
    lemma_space_suffix_len(t1);
    assert(forall|i: int| 0 <= i < t.len() ==> t[i] == s[l + i]);
    assert(forall|i: int| 0 <= i < n.len() ==> n[i] == lower_byte(t[i]));
    assert(forall|i: int| 0 <= i < n.len() ==> #[trigger] n[i] != SEMICOLON) by {
        assert(forall|i: int| 0 <= i < t.len() ==> #[trigger] t[i] != SEMICOLON);
    }
    if n.len() > 0 {
        assert(t[0] == c[l]);
        assert(!is_space_byte(t[0]));
        assert(n[0] == lower_byte(t[0]));
        assert(t[t.len() - 1] == t1[t1.len() - r - 1]);
        assert(!is_space_byte(t[t.len() - 1]));
    }
}

/// Normalization is idempotent.
pub proof fn lemma_normalize_idempotent(s: Seq<u8>)
    ensures
        normalize_ct(normalize_ct(s)) == normalize_ct(s),
{
    let n = normalize_ct(s);
    lemma_normalized_shape(s);
    lemma_prefix_len_until_unique(n, SEMICOLON, n.len() as int);
    assert(cut_params(n) =~= n);
    lemma_space_prefix_len_unique(n, 0);
    assert(n.skip(0) =~= n);
    lemma_space_suffix_len_unique(n, 0);
    assert(trim_spaces(n) =~= n);
    assert(normalize_ct(n) =~= n);
}

/// Normalization ignores everything from the first `;` on: appending a
/// parameter section to a content type does not change its normal form.
pub proof fn lemma_normalize_param_insensitive(s: Seq<u8>, params: Seq<u8>)
    ensures
        normalize_ct(s + seq![SEMICOLON] + params) == normalize_ct(s),
{
    let w = s + seq![SEMICOLON] + params;
    let p = prefix_len_until(s, SEMICOLON);
    lemma_prefix_len_until(s, SEMICOLON);
    assert(forall|i: int| 0 <= i < p ==> w[i] == s[i]);
    if p < s.len() {
        assert(w[p] == s[p]);
    } else {
        assert(w[p] == SEMICOLON);
    }
    lemma_prefix_len_until_unique(w, SEMICOLON, p);
    assert(cut_params(w) =~= cut_params(s));
}

} // verus!
