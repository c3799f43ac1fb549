//! Fuzzy-match scoring for launcher candidates.
//!
//! The primary signal is the length of the longest common contiguous
//! substring between the candidate text and the query, measured in Unicode
//! scalar values. A candidate whose lowercased text starts with the
//! lowercased query earns a flat bonus on top.

use vstd::prelude::*;

verus! {

pub open spec fn spec_max(x: int, y: int) -> int {
    if x >= y {
        x
    } else {
        y
    }
}

/// A common run of length `k`: `k` characters of `a` starting at `i` match
/// `k` characters of `b` starting at `j`, all positions in bounds.
pub open spec fn common_run(a: Seq<char>, b: Seq<char>, i: int, j: int, k: int) -> bool {
    &&& 0 <= k
    &&& 0 <= i && i + k <= a.len()
    &&& 0 <= j && j + k <= b.len()
    &&& forall|t: int| 0 <= t < k ==> #[trigger] a[i + t] == b[j + t]
}

/// Length of the longest common suffix of `a.take(i)` and `b.take(j)`.
pub open spec fn common_suffix_len(a: Seq<char>, b: Seq<char>, i: int, j: int) -> int
    decreases i + j,
{
    if i <= 0 || j <= 0 {
        0
    } else if a[i - 1] == b[j - 1] {
        common_suffix_len(a, b, i - 1, j - 1) + 1
    } else {
        0
    }
}

/// Largest `common_suffix_len(a, b, i2, j)` over `0 <= i2 <= i`.
pub open spec fn col_max(a: Seq<char>, b: Seq<char>, j: int, i: int) -> int
    decreases i,
{
    if i <= 0 {
        0
    } else {
        spec_max(col_max(a, b, j, i - 1), common_suffix_len(a, b, i, j))
    }
}

/// Largest `col_max(a, b, j2, a.len())` over `0 <= j2 <= j`.
pub open spec fn best_through(a: Seq<char>, b: Seq<char>, j: int) -> int
    decreases j,
{
    if j <= 0 {
        0
    } else {
        spec_max(best_through(a, b, j - 1), col_max(a, b, j, a.len() as int))
    }
}

/// Length of the longest common contiguous substring of `a` and `b`.
pub open spec fn lcs_len(a: Seq<char>, b: Seq<char>) -> int {
    best_through(a, b, b.len() as int)
}

proof fn lemma_csl_bounds(a: Seq<char>, b: Seq<char>, i: int, j: int)
    ensures
        0 <= common_suffix_len(a, b, i, j),
        i >= 0 ==> common_suffix_len(a, b, i, j) <= i,
        j >= 0 ==> common_suffix_len(a, b, i, j) <= j,
    decreases i + j,
{
    if i <= 0 || j <= 0 {
    } else {
        lemma_csl_bounds(a, b, i - 1, j - 1);
    }
}

proof fn lemma_best_nonneg(a: Seq<char>, b: Seq<char>, j: int)
    ensures
        0 <= best_through(a, b, j),
    decreases j,
{
    if j > 0 {
        lemma_best_nonneg(a, b, j - 1);
    }
}

/// A common suffix of the prefixes `a.take(i)` and `b.take(j)` is a common
/// run ending at positions `i` and `j`.
proof fn lemma_csl_run(a: Seq<char>, b: Seq<char>, i: int, j: int)
    requires
        0 <= i <= a.len(),
        0 <= j <= b.len(),
    ensures
        common_run(
            a,
            b,
            i - common_suffix_len(a, b, i, j),
            j - common_suffix_len(a, b, i, j),
            common_suffix_len(a, b, i, j),
        ),
    decreases i + j,
{
    lemma_csl_bounds(a, b, i, j);
    let k = common_suffix_len(a, b, i, j);
    if i <= 0 || j <= 0 {
    } else if a[i - 1] == b[j - 1] {
        lemma_csl_run(a, b, i - 1, j - 1);
        assert forall|t: int| 0 <= t < k implies #[trigger] a[i - k + t] == b[j - k + t] by {
            if t < k - 1 {
                assert(a[(i - 1) - (k - 1) + t] == b[(j - 1) - (k - 1) + t]);
            }
        }
    }
}

/// A common run of length `k` ending at `(i + k, j + k)` forces the common
/// suffix there to have length at least `k`.
proof fn lemma_run_csl(a: Seq<char>, b: Seq<char>, i: int, j: int, k: int)
    requires
        common_run(a, b, i, j, k),
    ensures
        common_suffix_len(a, b, i + k, j + k) >= k,
    decreases k,
{
    lemma_csl_bounds(a, b, i + k, j + k);
    if k > 0 {
        assert(common_run(a, b, i, j, k - 1));
        lemma_run_csl(a, b, i, j, k - 1);
        assert(a[i + (k - 1)] == b[j + (k - 1)]);
        assert(common_suffix_len(a, b, i + k, j + k) == common_suffix_len(
            a,
            b,
            i + k - 1,
            j + k - 1,
        ) + 1);
    }
}

proof fn lemma_csl_le_col_max(a: Seq<char>, b: Seq<char>, j: int, i: int, ii: int)
    requires
        1 <= i <= ii,
    ensures
        common_suffix_len(a, b, i, j) <= col_max(a, b, j, ii),
    decreases ii,
{
    if i < ii {
        lemma_csl_le_col_max(a, b, j, i, ii - 1);
    }
}

proof fn lemma_col_max_le_best(a: Seq<char>, b: Seq<char>, j: int, jj: int)
    requires
        1 <= j <= jj,
    ensures
        col_max(a, b, j, a.len() as int) <= best_through(a, b, jj),
    decreases jj,
{
    if j < jj {
        lemma_col_max_le_best(a, b, j, jj - 1);
    }
}

proof fn lemma_col_max_mono(a: Seq<char>, b: Seq<char>, j: int, i: int, ii: int)
    requires
        0 <= i <= ii,
    ensures
        col_max(a, b, j, i) <= col_max(a, b, j, ii),
    decreases ii,
{
    if i < ii {
        lemma_col_max_mono(a, b, j, i, ii - 1);
    }
}

/// No common run is longer than `lcs_len`.
proof fn lemma_run_le_lcs(a: Seq<char>, b: Seq<char>, i: int, j: int, k: int)
    requires
        common_run(a, b, i, j, k),
    ensures
        k <= lcs_len(a, b),
{
    lemma_best_nonneg(a, b, b.len() as int);
    if k > 0 {
        lemma_run_csl(a, b, i, j, k);
        lemma_csl_le_col_max(a, b, j + k, i + k, a.len() as int);
        lemma_col_max_mono(a, b, j + k, i + k, a.len() as int);
        lemma_col_max_le_best(a, b, j + k, b.len() as int);
    }
}

/// `col_max` is either zero or attained by some common suffix length.
proof fn lemma_col_max_achieved(a: Seq<char>, b: Seq<char>, j: int, i: int)
    requires
        0 <= i,
    ensures
        col_max(a, b, j, i) == 0 || exists|i2: int|
            1 <= i2 <= i && col_max(a, b, j, i) == common_suffix_len(a, b, i2, j),
    decreases i,
{
    if i > 0 {
        lemma_col_max_achieved(a, b, j, i - 1);
    }
}

/// `best_through` is either zero or attained by some common suffix length.
proof fn lemma_best_achieved(a: Seq<char>, b: Seq<char>, j: int)
    requires
        0 <= j,
    ensures
        best_through(a, b, j) == 0 || exists|i2: int, j2: int|
            1 <= i2 <= a.len() && 1 <= j2 <= j && best_through(a, b, j) == common_suffix_len(
                a,
                b,
                i2,
                j2,
            ),
    decreases j,
{
    if j > 0 {
        lemma_best_achieved(a, b, j - 1);
        lemma_col_max_achieved(a, b, j, a.len() as int);
    }
}

/// Some common run of length `lcs_len` exists.
proof fn lemma_lcs_exists(a: Seq<char>, b: Seq<char>)
    ensures
        exists|i: int, j: int| common_run(a, b, i, j, lcs_len(a, b)),
{
    let m = lcs_len(a, b);
    lemma_best_nonneg(a, b, b.len() as int);
    lemma_best_achieved(a, b, b.len() as int);
    if m == 0 {
        assert(common_run(a, b, 0, 0, 0));
    } else {
        let (i2, j2): (int, int) = choose|i2: int, j2: int|
            1 <= i2 <= a.len() && 1 <= j2 <= b.len() && m == common_suffix_len(a, b, i2, j2);
        lemma_csl_run(a, b, i2, j2);
        assert(common_run(a, b, i2 - m, j2 - m, m));
    }
}

/// Collects the characters of a string slice.
fn chars_of(s: &str) -> (v: Vec<char>)
    ensures
        v@ == s@,
{
    let n = s.unicode_len();
    let mut v: Vec<char> = Vec::new();
    let mut i: usize = 0;
    while i < n
        invariant
            i <= n,
            n == s@.len(),
            v@ == s@.take(i as int),
        decreases n - i,
    {
        v.push(s.get_char(i));
        proof {
            assert(v@ =~= s@.take(i + 1 as int));
        }
        i += 1;
    }
    proof {
        assert(v@ =~= s@);
    }
    v
}

/// Longest common contiguous substring length between `s1` and `s2`,
/// measured in Unicode scalar values, by the classic dynamic programming
/// over a rolling row.
///
/// The result is exactly the length of the longest common run: one of that
/// length exists, and none is longer.
pub fn longest_common_substr(s1: &str, s2: &str) -> (res: i32)
    requires
        s1@.len() <= i32::MAX,
    ensures
        0 <= res,
        res as int == lcs_len(s1@, s2@),
        exists|i: int, j: int| common_run(s1@, s2@, i, j, res as int),
        forall|i: int, j: int, k: int| common_run(s1@, s2@, i, j, k) ==> k <= res as int,
{
    let ghost a = s1@;
    let ghost b = s2@;
    let chars1 = chars_of(s1);
    let m = chars1.len();
    let n = s2.unicode_len();

    let mut prev: Vec<i32> = Vec::new();
    let mut t: usize = 0;
    while t <= m
        invariant
            t <= m + 1,
            m <= i32::MAX,
            prev@.len() == t,
            forall|i2: int| 0 <= i2 < t ==> prev@[i2] == 0,
        decreases m + 1 - t,
    {
        prev.push(0);
        t += 1;
    }

    let mut res: i32 = 0;
    let mut j: usize = 0;
    while j < n
        invariant
            j <= n,
            m == a.len(),
            n == b.len(),
            m <= i32::MAX,
            chars1@ == a,
            b == s2@,
            prev@.len() == m + 1,
            forall|i2: int| 0 <= i2 <= m ==> prev@[i2] == common_suffix_len(a, b, i2, j as int),
            res == best_through(a, b, j as int),
            0 <= res,
        decreases n - j,
    {
        let c2 = s2.get_char(j);
        let mut curr: Vec<i32> = Vec::new();
        curr.push(0);
        let mut i: usize = 1;
        while i <= m
            invariant
                1 <= i <= m + 1,
                m == a.len(),
                n == b.len(),
                j < n,
                m <= i32::MAX,
                chars1@ == a,
                b == s2@,
                c2 == b[j as int],
                prev@.len() == m + 1,
                forall|i2: int| 0 <= i2 <= m ==> prev@[i2] == common_suffix_len(a, b, i2, j as int),
                curr@.len() == i,
                forall|i2: int| 0 <= i2 < i ==> curr@[i2] == common_suffix_len(
                    a,
                    b,
                    i2,
                    j + 1 as int,
                ),
                res == spec_max(best_through(a, b, j as int), col_max(a, b, j + 1 as int, i - 1)),
                0 <= res,
            decreases m + 1 - i,
        {
            proof {
                lemma_csl_bounds(a, b, i as int, j + 1 as int);
                lemma_csl_bounds(a, b, i - 1 as int, j as int);
            }
            if chars1[i - 1] == c2 {
                let v = prev[i - 1] + 1;
                curr.push(v);
                if v > res {
                    res = v;
                }
            } else {
                curr.push(0);
            }
            i += 1;
        }
        prev = curr;
        j += 1;
    }
    proof {
        lemma_lcs_exists(a, b);
        assert forall|i: int, jx: int, k: int| common_run(a, b, i, jx, k) implies k <= res as int by {
            lemma_run_le_lcs(a, b, i, jx, k);
        }
    }
    res
}

/// What lowercasing leaves of a string; a function of its characters alone.
pub uninterp spec fn lower_of(s: Seq<char>) -> Seq<char>;

/// Relies on str::to_lowercase: returns the lowercase equivalent of the
/// string, determined by its characters alone.
#[verifier::external_body]
fn lowercase(s: &str) -> (r: String)
    ensures
        r@ == lower_of(s@),
{
    s.to_lowercase()
}

/// Whether `p` is a prefix of `s`, compared character by character.
fn str_starts_with(s: &str, p: &str) -> (r: bool)
    ensures
        r == p@.is_prefix_of(s@),
{
    let np = p.unicode_len();
    let ns = s.unicode_len();
    if np > ns {
        proof {
            assert(!p@.is_prefix_of(s@));
        }
        return false;
    }
    let mut i: usize = 0;
    while i < np
        invariant
            i <= np,
            np == p@.len(),
            ns == s@.len(),
            np <= ns,
            forall|t: int| 0 <= t < i ==> p@[t] == s@[t],
        decreases np - i,
    {
        if p.get_char(i) != s.get_char(i) {
            proof {
                assert(p@[i as int] != s@.subrange(0, np as int)[i as int]);
            }
            return false;
        }
        i += 1;
    }
    proof {
        assert(p@ =~= s@.subrange(0, np as int));
    }
    true
}

/// The fuzzy-match score of `element_text` against `user_input`, before any
/// usage weighting: the longest common substring between the text and the
/// lowercased input, plus a flat bonus of two when the lowercased text
/// starts with the lowercased input.
pub open spec fn spec_score(user_input: Seq<char>, element_text: Seq<char>) -> int {
    lcs_len(element_text, lower_of(user_input)) + if lower_of(user_input).is_prefix_of(
        lower_of(element_text),
    ) {
        2int
    } else {
        0int
    }
}

/// Returns a positive score; callers negate it to sort best-first.
pub fn score_element(user_input: &str, element_text: &str) -> (score: i32)
    requires
        element_text@.len() + 2 <= i32::MAX,
    ensures
        score == spec_score(user_input@, element_text@),
        0 <= score,
{
    let input = lowercase(user_input);
    let mut score = longest_common_substr(element_text, input.as_str());
    let lowered = lowercase(element_text);
    proof {
        lemma_run_le_lcs_all(element_text@, input@);
    }
    if str_starts_with(lowered.as_str(), input.as_str()) {
        score += 2;
    }
    score
}

/// The longest common substring never exceeds the length of either string.
proof fn lemma_run_le_lcs_all(a: Seq<char>, b: Seq<char>)
    ensures
        lcs_len(a, b) <= a.len(),
        0 <= lcs_len(a, b),
{
    lemma_best_nonneg(a, b, b.len() as int);
    lemma_lcs_exists(a, b);
    let (i, j): (int, int) = choose|i: int, j: int| common_run(a, b, i, j, lcs_len(a, b));
    assert(i + lcs_len(a, b) <= a.len() && 0 <= i);
}

/// The usage-affinity boost for a candidate activated `count` times before:
/// the floor of half the natural logarithm of the count, clamped at zero.
/// Each threshold below is the smallest count whose natural logarithm
/// reaches the next even integer, so the boost grows by one at each step.
pub open spec fn spec_usage_boost(count: u32) -> int {
    if count >= 3584912847 {
        11
    } else if count >= 485165196 {
        10
    } else if count >= 65659970 {
        9
    } else if count >= 8886111 {
        8
    } else if count >= 1202605 {
        7
    } else if count >= 162755 {
        6
    } else if count >= 22027 {
        5
    } else if count >= 2981 {
        4
    } else if count >= 404 {
        3
    } else if count >= 55 {
        2
    } else if count >= 8 {
        1
    } else {
        0
    }
}

/// Diminishing-returns weighting of how often a candidate was activated.
pub fn usage_boost(count: u32) -> (b: i32)
    ensures
        b == spec_usage_boost(count),
        0 <= b <= 11,
{
    if count >= 3584912847 {
        11
    } else if count >= 485165196 {
        10
    } else if count >= 65659970 {
        9
    } else if count >= 8886111 {
        8
    } else if count >= 1202605 {
        7
    } else if count >= 162755 {
        6
    } else if count >= 22027 {
        5
    } else if count >= 2981 {
        4
    } else if count >= 404 {
        3
    } else if count >= 55 {
        2
    } else if count >= 8 {
        1
    } else {
        0
    }
}

/// Full per-candidate score: fuzzy match plus the usage-affinity boost when
/// a usage count is known. An absent count contributes nothing.
pub open spec fn spec_score_usage(
    user_input: Seq<char>,
    element_text: Seq<char>,
    usage_count: Option<u32>,
) -> int {
    spec_score(user_input, element_text) + match usage_count {
        Some(c) => spec_usage_boost(c),
        None => 0,
    }
}

/// Scores one candidate against the query, weighting in its usage count.
pub fn score(user_input: &str, element_text: &str, usage_count: Option<u32>) -> (s: i32)
    requires
        element_text@.len() + 13 <= i32::MAX,
    ensures
        s == spec_score_usage(user_input@, element_text@, usage_count),
        0 <= s,
{
    let base = score_element(user_input, element_text);
    proof {
        lemma_run_le_lcs_all(element_text@, lower_of(user_input@));
    }
    match usage_count {
        Some(c) => base + usage_boost(c),
        None => base,
    }
}

/// Strict "comes before" order on `(score, original position)` keys: a
/// higher score first; among equal scores, the earlier original position.
pub open spec fn key_lt(x: (int, int), y: (int, int)) -> bool {
    x.0 > y.0 || (x.0 == y.0 && x.1 < y.1)
}

/// The ordering key of the candidate at original position `p`.
pub open spec fn cand_key(
    q: Seq<char>,
    usage: Seq<(Seq<char>, u32)>,
    olds: Seq<String>,
    p: int,
) -> (int, int) {
    (spec_score_usage(q, olds[p]@, crate::serworse::spec_get(usage, olds[p]@)), p)
}

/// Whether position `p` occurs in `ord`.
pub open spec fn appears(ord: Seq<int>, p: int) -> bool {
    exists|k: int| 0 <= k < ord.len() && ord[k] == p
}

/// Whether some decorated entry carries original position `p`.
spec fn idx_appears(s: Seq<(i32, usize, String)>, p: int) -> bool {
    exists|t: int| 0 <= t < s.len() && s[t].1 == p
}

/// `ord` witnesses that `news` is `olds` reordered best-first: a surjection
/// of positions, strictly sorted by descending score with original order
/// breaking ties.
pub open spec fn rank_witness(
    q: Seq<char>,
    usage: Seq<(Seq<char>, u32)>,
    olds: Seq<String>,
    news: Seq<String>,
    ord: Seq<int>,
) -> bool {
    &&& ord.len() == olds.len()
    &&& news.len() == olds.len()
    &&& forall|k: int| 0 <= k < ord.len() ==> 0 <= #[trigger] ord[k] < olds.len()
    &&& forall|p: int| 0 <= p < olds.len() ==> #[trigger] appears(ord, p)
    &&& forall|k1: int, k2: int|
        0 <= k1 < k2 < ord.len() ==> key_lt(
            cand_key(q, usage, olds, ord[k1]),
            cand_key(q, usage, olds, ord[k2]),
        )
    &&& forall|k: int| 0 <= k < news.len() ==> #[trigger] news[k] == olds[ord[k]]
}

fn key_before(a: &(i32, usize, String), b: &(i32, usize, String)) -> (r: bool)
    ensures
        r == key_lt((a.0 as int, a.1 as int), (b.0 as int, b.1 as int)),
{
    a.0 > b.0 || (a.0 == b.0 && a.1 < b.1)
}

/// Reorders `candidates` best match first: by descending score against
/// `query` (usage counts from `usage` weighted in), keeping the original
/// relative order of equal-scoring candidates.
///
/// The per-candidate key is computed once per call, not once per
/// comparison.
pub fn rank(query: &str, candidates: &mut Vec<String>, usage: &crate::serworse::KvMap<u32>)
    requires
        forall|k: int|
            0 <= k < old(candidates)@.len() ==> (#[trigger] old(candidates)@[k])@.len() + 13
                <= i32::MAX,
    ensures
        final(candidates)@.len() == old(candidates)@.len(),
        exists|ord: Seq<int>|
            rank_witness(query@, usage@, old(candidates)@, final(candidates)@, ord),
{
    let ghost olds = candidates@;
    let ghost q = query@;
    let ghost um = usage@;
    let n = candidates.len();

    // Decorate: pull candidates off the back, scoring each once.
    let mut decorated: Vec<(i32, usize, String)> = Vec::new();
    while candidates.len() > 0
        invariant
            um == usage@,
            q == query@,
            candidates@ == olds.take(candidates@.len() as int),
            olds.len() == n,
            decorated@.len() + candidates@.len() == n,
            forall|k: int|
                0 <= k < olds.len() ==> (#[trigger] olds[k])@.len() + 13 <= i32::MAX,
            forall|t: int|
                0 <= t < decorated@.len() ==> {
                    let e = #[trigger] decorated@[t];
                    &&& e.1 == n - 1 - t
                    &&& e.2 == olds[n - 1 - t]
                    &&& e.0 == spec_score_usage(
                        q,
                        olds[n - 1 - t]@,
                        crate::serworse::spec_get(um, olds[n - 1 - t]@),
                    )
                },
        decreases candidates@.len(),
    {
        let idx = candidates.len() - 1;
        proof {
            assert(candidates@[idx as int] == olds[idx as int]);
        }
        let s = candidates.pop().unwrap();
        let got = usage.get(s.as_str());
        let cnt: Option<u32> = match got {
            Some(v) => {
                proof {
                    assert(crate::serworse::spec_get(um, s@) == Some(v@));
                    assert(v@ == *v);
                }
                Some(*v)
            },
            None => None,
        };
        let ghost predec = decorated@;
        let sc = score(query, s.as_str(), cnt);
        proof {
            assert(s == olds[idx as int]);
            assert(cnt == crate::serworse::spec_get(um, s@));
        }
        decorated.push((sc, idx, s));
        proof {
            assert(candidates@ =~= olds.take(candidates@.len() as int));
            assert(decorated@[predec.len() as int] == (sc, idx, s));
            assert(forall|t: int| 0 <= t < predec.len() ==> decorated@[t] == predec[t]);
        }
    }

    // Stable insertion sort on the (negated-order) keys.
    let mut sorted: Vec<(i32, usize, String)> = Vec::new();
    while decorated.len() > 0
        invariant
            olds.len() == n,
            decorated@.len() + sorted@.len() == n,
            forall|t: int|
                0 <= t < decorated@.len() ==> {
                    let e = #[trigger] decorated@[t];
                    &&& e.1 == n - 1 - t
                    &&& e.2 == olds[n - 1 - t]
                    &&& e.0 == spec_score_usage(
                        q,
                        olds[n - 1 - t]@,
                        crate::serworse::spec_get(um, olds[n - 1 - t]@),
                    )
                },
            forall|t: int|
                0 <= t < sorted@.len() ==> {
                    let e = #[trigger] sorted@[t];
                    &&& 0 <= e.1 < n - decorated@.len()
                    &&& e.2 == olds[e.1 as int]
                    &&& e.0 == spec_score_usage(
                        q,
                        olds[e.1 as int]@,
                        crate::serworse::spec_get(um, olds[e.1 as int]@),
                    )
                },
            forall|p: int|
                0 <= p < n - decorated@.len() ==> #[trigger] idx_appears(sorted@, p),
            forall|t1: int, t2: int|
                0 <= t1 < t2 < sorted@.len() ==> key_lt(
                    (sorted@[t1].0 as int, sorted@[t1].1 as int),
                    (sorted@[t2].0 as int, sorted@[t2].1 as int),
                ),
        decreases decorated@.len(),
    {
        let ghost pre = decorated@;
        let e = decorated.pop().unwrap();
        proof {
            assert(e == pre[pre.len() - 1]);
            assert(e.1 == n - decorated@.len() - 1);
        }
        let mut j = sorted.len();
        while j > 0 && key_before(&e, &sorted[j - 1])
            invariant
                j <= sorted@.len(),
                forall|t: int|
                    j <= t < sorted@.len() ==> key_lt(
                        (e.0 as int, e.1 as int),
                        ((#[trigger] sorted@[t]).0 as int, sorted@[t].1 as int),
                    ),
            decreases j,
        {
            j -= 1;
        }
        proof {
            if j > 0 {
                assert(sorted@[j - 1].1 != e.1);
                assert(key_lt(
                    (sorted@[j - 1].0 as int, sorted@[j - 1].1 as int),
                    (e.0 as int, e.1 as int),
                ));
            }
        }
        let ghost presorted = sorted@;
        sorted.insert(j, e);
        proof {
            assert(sorted@ == presorted.insert(j as int, e));
            assert forall|t: int| 0 <= t < sorted@.len() implies #[trigger] sorted@[t] == (
                if t < j {
                    presorted[t]
                } else if t == j {
                    e
                } else {
                    presorted[t - 1]
                }
            ) by {
                assert(presorted.insert(j as int, e) =~= presorted.take(j as int).push(e)
                    + presorted.skip(j as int));
            }
            assert forall|t1: int, t2: int| 0 <= t1 < t2 < sorted@.len() implies key_lt(
                (sorted@[t1].0 as int, sorted@[t1].1 as int),
                (sorted@[t2].0 as int, sorted@[t2].1 as int),
            ) by {
                if t2 < j {
                    assert(key_lt(
                        (presorted[t1].0 as int, presorted[t1].1 as int),
                        (presorted[t2].0 as int, presorted[t2].1 as int),
                    ));
                } else if j < t1 {
                    assert(key_lt(
                        (presorted[t1 - 1].0 as int, presorted[t1 - 1].1 as int),
                        (presorted[t2 - 1].0 as int, presorted[t2 - 1].1 as int),
                    ));
                } else if t1 < j && t2 == j {
                    if t1 < j - 1 {
                        assert(key_lt(
                            (presorted[t1].0 as int, presorted[t1].1 as int),
                            (presorted[j - 1].0 as int, presorted[j - 1].1 as int),
                        ));
                    }
                } else if t1 == j {
                    assert(key_lt(
                        (e.0 as int, e.1 as int),
                        (presorted[t2 - 1].0 as int, presorted[t2 - 1].1 as int),
                    ));
                } else {
                    assert(t1 < j && t2 > j);
                    if t1 < j - 1 {
                        assert(key_lt(
                            (presorted[t1].0 as int, presorted[t1].1 as int),
                            (presorted[j - 1].0 as int, presorted[j - 1].1 as int),
                        ));
                    }
                    assert(key_lt(
                        (e.0 as int, e.1 as int),
                        (presorted[t2 - 1].0 as int, presorted[t2 - 1].1 as int),
                    ));
                }
            }
            assert forall|p: int| 0 <= p < n - decorated@.len() implies #[trigger] idx_appears(
                sorted@,
                p,
            ) by {
                if p == e.1 {
                    assert(sorted@[j as int].1 == p);
                } else {
                    assert(idx_appears(presorted, p));
                    let t0: int = choose|t0: int|
                        0 <= t0 < presorted.len() && (#[trigger] presorted[t0]).1 == p;
                    if t0 < j {
                        assert(sorted@[t0].1 == p);
                    } else {
                        assert(sorted@[t0 + 1].1 == p);
                    }
                }
            }
        }
    }

    // Rebuild the candidate list in sorted order.
    let ghost snapshot = sorted@;
    let mut i: usize = 0;
    while sorted.len() > 0
        invariant
            snapshot.len() == n,
            i + sorted@.len() == n,
            sorted@ == snapshot.skip(i as int),
            candidates@.len() == i,
            forall|k: int| 0 <= k < i ==> #[trigger] candidates@[k] == snapshot[k].2,
        decreases sorted@.len(),
    {
        proof {
            assert(sorted@[0] == snapshot[i as int]);
        }
        let e = sorted.remove(0);
        candidates.push(e.2);
        proof {
            assert(sorted@ =~= snapshot.skip(i + 1 as int));
        }
        i += 1;
    }

    proof {
        let ord = Seq::new(n as nat, |k: int| snapshot[k].1 as int);
        assert forall|k: int| 0 <= k < n implies #[trigger] candidates@[k] == olds[ord[k]] by {
            assert(candidates@[k] == snapshot[k].2);
        }
        assert forall|p: int| 0 <= p < n implies #[trigger] appears(ord, p) by {
            assert(idx_appears(snapshot, p));
            let t0: int = choose|t0: int|
                0 <= t0 < snapshot.len() && (#[trigger] snapshot[t0]).1 == p;
            assert(ord[t0] == p);
        }
        assert forall|k1: int, k2: int| 0 <= k1 < k2 < ord.len() implies key_lt(
            cand_key(q, um, olds, ord[k1]),
            cand_key(q, um, olds, ord[k2]),
        ) by {
            assert(key_lt(
                (snapshot[k1].0 as int, snapshot[k1].1 as int),
                (snapshot[k2].0 as int, snapshot[k2].1 as int),
            ));
        }
        assert(rank_witness(q, um, olds, candidates@, ord));
    }
}

/// Whether some decorated pair entry carries original position `p`.
spec fn idx_appears_pair(s: Seq<(i32, usize, (String, String))>, p: int) -> bool {
    exists|t: int| 0 <= t < s.len() && s[t].1 == p
}

fn pair_key_before(a: &(i32, usize, (String, String)), b: &(i32, usize, (String, String))) -> (r:
    bool)
    ensures
        r == key_lt((a.0 as int, a.1 as int), (b.0 as int, b.1 as int)),
{
    a.0 > b.0 || (a.0 == b.0 && a.1 < b.1)
}

/// The first component of each pair.
pub open spec fn pair_names(s: Seq<(String, String)>) -> Seq<String> {
    s.map_values(|e: (String, String)| e.0)
}

/// Reorders name-keyed pairs best match first, scoring each pair by its
/// first component, with the same ordering discipline as `rank`.
pub fn rank_pairs(
    query: &str,
    items: &mut Vec<(String, String)>,
    usage: &crate::serworse::KvMap<u32>,
)
    requires
        forall|k: int|
            0 <= k < old(items)@.len() ==> (#[trigger] old(items)@[k]).0@.len() + 13 <= i32::MAX,
    ensures
        final(items)@.len() == old(items)@.len(),
        exists|ord: Seq<int>|
            rank_witness(query@, usage@, pair_names(old(items)@), pair_names(final(items)@), ord)
                && forall|k: int|
                0 <= k < final(items)@.len() ==> #[trigger] final(items)@[k] == old(
                items,
            )@[ord[k]],
{
    let ghost olds = items@;
    let ghost q = query@;
    let ghost um = usage@;
    let n = items.len();

    let mut decorated: Vec<(i32, usize, (String, String))> = Vec::new();
    while items.len() > 0
        invariant
            um == usage@,
            q == query@,
            items@ == olds.take(items@.len() as int),
            olds.len() == n,
            decorated@.len() + items@.len() == n,
            forall|k: int|
                0 <= k < olds.len() ==> (#[trigger] olds[k]).0@.len() + 13 <= i32::MAX,
            forall|t: int|
                0 <= t < decorated@.len() ==> {
                    let e = #[trigger] decorated@[t];
                    &&& e.1 == n - 1 - t
                    &&& e.2 == olds[n - 1 - t]
                    &&& e.0 == spec_score_usage(
                        q,
                        olds[n - 1 - t].0@,
                        crate::serworse::spec_get(um, olds[n - 1 - t].0@),
                    )
                },
        decreases items@.len(),
    {
        let idx = items.len() - 1;
        proof {
            assert(items@[idx as int] == olds[idx as int]);
        }
        let s = items.pop().unwrap();
        let got = usage.get(s.0.as_str());
        let cnt: Option<u32> = match got {
            Some(v) => Some(*v),
            None => None,
        };
        let sc = score(query, s.0.as_str(), cnt);
        decorated.push((sc, idx, s));
        proof {
            assert(items@ =~= olds.take(items@.len() as int));
        }
    }

    let mut sorted: Vec<(i32, usize, (String, String))> = Vec::new();
    while decorated.len() > 0
        invariant
            olds.len() == n,
            um == usage@,
            q == query@,
            decorated@.len() + sorted@.len() == n,
            forall|t: int|
                0 <= t < decorated@.len() ==> {
                    let e = #[trigger] decorated@[t];
                    &&& e.1 == n - 1 - t
                    &&& e.2 == olds[n - 1 - t]
                    &&& e.0 == spec_score_usage(
                        q,
                        olds[n - 1 - t].0@,
                        crate::serworse::spec_get(um, olds[n - 1 - t].0@),
                    )
                },
            forall|t: int|
                0 <= t < sorted@.len() ==> {
                    let e = #[trigger] sorted@[t];
                    &&& 0 <= e.1 < n - decorated@.len()
                    &&& e.2 == olds[e.1 as int]
                    &&& e.0 == spec_score_usage(
                        q,
                        olds[e.1 as int].0@,
                        crate::serworse::spec_get(um, olds[e.1 as int].0@),
                    )
                },
            forall|p: int|
                0 <= p < n - decorated@.len() ==> #[trigger] idx_appears_pair(sorted@, p),
            forall|t1: int, t2: int|
                0 <= t1 < t2 < sorted@.len() ==> key_lt(
                    (sorted@[t1].0 as int, sorted@[t1].1 as int),
                    (sorted@[t2].0 as int, sorted@[t2].1 as int),
                ),
        decreases decorated@.len(),
    {
        let ghost pre = decorated@;
        let e = decorated.pop().unwrap();
        proof {
            assert(e == pre[pre.len() - 1]);
            assert(e.1 == n - decorated@.len() - 1);
        }
        let mut j = sorted.len();
        while j > 0 && pair_key_before(&e, &sorted[j - 1])
            invariant
                j <= sorted@.len(),
                forall|t: int|
                    j <= t < sorted@.len() ==> key_lt(
                        (e.0 as int, e.1 as int),
                        ((#[trigger] sorted@[t]).0 as int, sorted@[t].1 as int),
                    ),
            decreases j,
        {
            j -= 1;
        }
        proof {
            if j > 0 {
                assert(sorted@[j - 1].1 != e.1);
                assert(key_lt(
                    (sorted@[j - 1].0 as int, sorted@[j - 1].1 as int),
                    (e.0 as int, e.1 as int),
                ));
            }
        }
        let ghost presorted = sorted@;
        sorted.insert(j, e);
        proof {
            assert(sorted@ == presorted.insert(j as int, e));
            assert forall|t: int| 0 <= t < sorted@.len() implies #[trigger] sorted@[t] == (
                if t < j {
                    presorted[t]
                } else if t == j {
                    e
                } else {
                    presorted[t - 1]
                }
            ) by {
                assert(presorted.insert(j as int, e) =~= presorted.take(j as int).push(e)
                    + presorted.skip(j as int));
            }
            assert forall|t1: int, t2: int| 0 <= t1 < t2 < sorted@.len() implies key_lt(
                (sorted@[t1].0 as int, sorted@[t1].1 as int),
                (sorted@[t2].0 as int, sorted@[t2].1 as int),
            ) by {
                if t2 < j {
                    assert(key_lt(
                        (presorted[t1].0 as int, presorted[t1].1 as int),
                        (presorted[t2].0 as int, presorted[t2].1 as int),
                    ));
                } else if j < t1 {
                    assert(key_lt(
                        (presorted[t1 - 1].0 as int, presorted[t1 - 1].1 as int),
                        (presorted[t2 - 1].0 as int, presorted[t2 - 1].1 as int),
                    ));
                } else if t1 < j && t2 == j {
                    if t1 < j - 1 {
                        assert(key_lt(
                            (presorted[t1].0 as int, presorted[t1].1 as int),
                            (presorted[j - 1].0 as int, presorted[j - 1].1 as int),
                        ));
                    }
                } else if t1 == j {
                    assert(key_lt(
                        (e.0 as int, e.1 as int),
                        (presorted[t2 - 1].0 as int, presorted[t2 - 1].1 as int),
                    ));
                } else {
                    assert(t1 < j && t2 > j);
                    if t1 < j - 1 {
                        assert(key_lt(
                            (presorted[t1].0 as int, presorted[t1].1 as int),
                            (presorted[j - 1].0 as int, presorted[j - 1].1 as int),
                        ));
                    }
                    assert(key_lt(
                        (e.0 as int, e.1 as int),
                        (presorted[t2 - 1].0 as int, presorted[t2 - 1].1 as int),
                    ));
                }
            }
            assert forall|p: int| 0 <= p < n - decorated@.len() implies #[trigger] idx_appears_pair(
                sorted@,
                p,
            ) by {
                if p == e.1 {
                    assert(sorted@[j as int].1 == p);
                } else {
                    assert(idx_appears_pair(presorted, p));
                    let t0: int = choose|t0: int|
                        0 <= t0 < presorted.len() && (#[trigger] presorted[t0]).1 == p;
                    if t0 < j {
                        assert(sorted@[t0].1 == p);
                    } else {
                        assert(sorted@[t0 + 1].1 == p);
                    }
                }
            }
        }
    }

    let ghost snapshot = sorted@;
    let mut i: usize = 0;
    while sorted.len() > 0
        invariant
            snapshot.len() == n,
            i + sorted@.len() == n,
            sorted@ == snapshot.skip(i as int),
            items@.len() == i,
            forall|k: int| 0 <= k < i ==> #[trigger] items@[k] == snapshot[k].2,
        decreases sorted@.len(),
    {
        proof {
            assert(sorted@[0] == snapshot[i as int]);
        }
        let e = sorted.remove(0);
        items.push(e.2);
        proof {
            assert(sorted@ =~= snapshot.skip(i + 1 as int));
        }
        i += 1;
    }

    proof {
        let ord = Seq::new(n as nat, |k: int| snapshot[k].1 as int);
        let names_old = pair_names(olds);
        let names_new = pair_names(items@);
        assert forall|k: int| 0 <= k < n implies #[trigger] items@[k] == olds[ord[k]] by {
            assert(items@[k] == snapshot[k].2);
        }
        assert forall|k: int| 0 <= k < n implies #[trigger] names_new[k] == names_old[ord[k]] by {
            assert(items@[k] == olds[ord[k]]);
        }
        assert forall|p: int| 0 <= p < n implies #[trigger] appears(ord, p) by {
            assert(idx_appears_pair(snapshot, p));
            let t0: int = choose|t0: int|
                0 <= t0 < snapshot.len() && (#[trigger] snapshot[t0]).1 == p;
            assert(ord[t0] == p);
        }
        assert forall|k1: int, k2: int| 0 <= k1 < k2 < ord.len() implies key_lt(
            cand_key(q, um, names_old, ord[k1]),
            cand_key(q, um, names_old, ord[k2]),
        ) by {
            assert(key_lt(
                (snapshot[k1].0 as int, snapshot[k1].1 as int),
                (snapshot[k2].0 as int, snapshot[k2].1 as int),
            ));
            assert(names_old[ord[k1]] == olds[ord[k1]].0);
            assert(names_old[ord[k2]] == olds[ord[k2]].0);
        }
        assert(rank_witness(q, um, names_old, names_new, ord));
    }
}

/// Law: ranking is deterministic. Any two outputs the ranking relation
/// allows for the same query, usage table and input list are equal, so
/// running the sort twice on the same input yields identical results.
pub proof fn lemma_rank_deterministic(
    q: Seq<char>,
    usage: Seq<(Seq<char>, u32)>,
    olds: Seq<String>,
    news1: Seq<String>,
    news2: Seq<String>,
    ord1: Seq<int>,
    ord2: Seq<int>,
)
    requires
        rank_witness(q, usage, olds, news1, ord1),
        rank_witness(q, usage, olds, news2, ord2),
    ensures
        news1 =~= news2,
        ord1 =~= ord2,
{
    assert forall|k: int| 0 <= k < ord1.len() implies ord1[k] == ord2[k] by {
        lemma_ord_agree(q, usage, olds, ord1, ord2, k);
    }
}

proof fn lemma_ord_agree(
    q: Seq<char>,
    usage: Seq<(Seq<char>, u32)>,
    olds: Seq<String>,
    ord1: Seq<int>,
    ord2: Seq<int>,
    k: int,
)
    requires
        ord1.len() == olds.len(),
        ord2.len() == olds.len(),
        forall|t: int| 0 <= t < ord1.len() ==> 0 <= #[trigger] ord1[t] < olds.len(),
        forall|t: int| 0 <= t < ord2.len() ==> 0 <= #[trigger] ord2[t] < olds.len(),
        forall|p: int| 0 <= p < olds.len() ==> #[trigger] appears(ord1, p),
        forall|p: int| 0 <= p < olds.len() ==> #[trigger] appears(ord2, p),
        forall|t1: int, t2: int|
            0 <= t1 < t2 < ord1.len() ==> key_lt(
                cand_key(q, usage, olds, ord1[t1]),
                cand_key(q, usage, olds, ord1[t2]),
            ),
        forall|t1: int, t2: int|
            0 <= t1 < t2 < ord2.len() ==> key_lt(
                cand_key(q, usage, olds, ord2[t1]),
                cand_key(q, usage, olds, ord2[t2]),
            ),
        0 <= k < ord1.len(),
    ensures
        ord1[k] == ord2[k],
    decreases k,
{
    assert forall|t: int| 0 <= t < k implies ord1[t] == ord2[t] by {
        lemma_ord_agree(q, usage, olds, ord1, ord2, t);
    }
    if ord1[k] != ord2[k] {
        let p1 = ord1[k];
        let p2 = ord2[k];
        assert(appears(ord2, p1));
        assert(appears(ord1, p2));
        let t2: int = choose|t2: int| 0 <= t2 < ord2.len() && ord2[t2] == p1;
        let t1: int = choose|t1: int| 0 <= t1 < ord1.len() && ord1[t1] == p2;
        if t2 < k {
            assert(ord1[t2] == ord2[t2]);
            assert(key_lt(cand_key(q, usage, olds, ord1[t2]), cand_key(q, usage, olds, p1)));
        } else {
            assert(t2 > k);
        }
        if t1 < k {
            assert(ord2[t1] == ord1[t1]);
            assert(key_lt(cand_key(q, usage, olds, ord2[t1]), cand_key(q, usage, olds, p2)));
        } else {
            assert(t1 > k);
        }
        if t2 > k && t1 > k {
            assert(key_lt(cand_key(q, usage, olds, p2), cand_key(q, usage, olds, p1)));
            assert(key_lt(cand_key(q, usage, olds, p1), cand_key(q, usage, olds, p2)));
        }
    }
}

/// Law: rank stability. In any ranked output, two candidates of equal score
/// keep their original relative order.
pub proof fn lemma_rank_stable(
    q: Seq<char>,
    usage: Seq<(Seq<char>, u32)>,
    olds: Seq<String>,
    news: Seq<String>,
    ord: Seq<int>,
    k1: int,
    k2: int,
)
    requires
        rank_witness(q, usage, olds, news, ord),
        0 <= k1 < k2 < ord.len(),
        cand_key(q, usage, olds, ord[k1]).0 == cand_key(q, usage, olds, ord[k2]).0,
    ensures
        ord[k1] < ord[k2],
{
    assert(key_lt(cand_key(q, usage, olds, ord[k1]), cand_key(q, usage, olds, ord[k2])));
}

/// Law: with an equal longest-common-substring signal, a candidate whose
/// lowercased text starts with the lowercased query outscores one whose
/// text does not.
pub proof fn lemma_prefix_bonus(query: Seq<char>, t1: Seq<char>, t2: Seq<char>)
    requires
        lcs_len(t1, lower_of(query)) == lcs_len(t2, lower_of(query)),
        lower_of(query).is_prefix_of(lower_of(t1)),
        !lower_of(query).is_prefix_of(lower_of(t2)),
    ensures
        spec_score(query, t1) > spec_score(query, t2),
{
}

/// Law: for a fixed query and candidate, a higher usage count never lowers
/// the score, and a known count never scores below an absent one.
pub proof fn lemma_usage_monotone(query: Seq<char>, text: Seq<char>, u1: u32, u2: u32)
    requires
        u1 <= u2,
    ensures
        spec_score_usage(query, text, Some(u1)) <= spec_score_usage(query, text, Some(u2)),
        spec_score_usage(query, text, None) <= spec_score_usage(query, text, Some(u1)),
{
}

} // verus!
