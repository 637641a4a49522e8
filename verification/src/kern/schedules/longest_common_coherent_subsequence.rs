//! The longest run of consecutive items that two sequences have in common.
use crate::text::{str_eq, str_views};
use vstd::prelude::*;

verus! {

/// Where the longest common run starts in each sequence, and how long it is.
#[derive(PartialEq, Eq, Debug, Clone)]
pub struct LongestCommonCoherentSubsequence {
    pub sec1_start: usize,
    pub sec2_start: usize,
    pub len: usize,
}

/// The length of the longest common run of `s1` and `s2` that ends right before
/// position `i` in `s1` and right before position `j` in `s2`.
pub open spec fn common_suffix_len<T>(s1: Seq<T>, s2: Seq<T>, i: int, j: int) -> nat
    decreases i,
{
    if i <= 0 || j <= 0 {
        0
    } else if s1[i - 1] == s2[j - 1] {
        1 + common_suffix_len(s1, s2, i - 1, j - 1)
    } else {
        0
    }
}

/// `(a, b)` comes before `(c, d)` in row-major order.
pub open spec fn lex_before(a: int, b: int, c: int, d: int) -> bool {
    a < c || (a == c && b < d)
}

/// `r` is the longest common run of `s1` and `s2`; of several such runs, the one that
/// ends first in `s1`, and then first in `s2`. Without a common item, all is zero.
pub open spec fn is_longest_common_run<T>(s1: Seq<T>, s2: Seq<T>, r: LongestCommonCoherentSubsequence) -> bool {
    let e1 = r.sec1_start + r.len;
    let e2 = r.sec2_start + r.len;
    &&& e1 <= s1.len()
    &&& e2 <= s2.len()
    &&& forall|i: int, j: int| 0 <= i <= s1.len() && 0 <= j <= s2.len() ==> #[trigger] common_suffix_len(s1, s2, i, j) <= r.len
    &&& r.len > 0 ==> common_suffix_len(s1, s2, e1, e2) == r.len
    &&& r.len > 0 ==> forall|i: int, j: int|
        0 <= i <= s1.len() && 0 <= j <= s2.len() && lex_before(i, j, e1, e2) ==> #[trigger] common_suffix_len(s1, s2, i, j) < r.len
    &&& r.len == 0 ==> r.sec1_start == 0 && r.sec2_start == 0
}

pub proof fn lemma_common_suffix_bounded<T>(s1: Seq<T>, s2: Seq<T>, i: int, j: int)
    ensures
        common_suffix_len(s1, s2, i, j) <= if i < 0 { 0 } else { i },
        common_suffix_len(s1, s2, i, j) <= if j < 0 { 0 } else { j },
    decreases i,
{
    if i > 0 && j > 0 && s1[i - 1] == s2[j - 1] {
        lemma_common_suffix_bounded(s1, s2, i - 1, j - 1);
    }
}

/// A common run of length `n` that ends before `i` and `j`: the items agree.
pub proof fn lemma_common_suffix_items<T>(s1: Seq<T>, s2: Seq<T>, i: int, j: int, k: int)
    requires
        0 <= i <= s1.len(),
        0 <= j <= s2.len(),
        0 <= k < common_suffix_len(s1, s2, i, j),
    ensures
        s1[i - common_suffix_len(s1, s2, i, j) + k] == s2[j - common_suffix_len(s1, s2, i, j) + k],
    decreases i,
{
    let n = common_suffix_len(s1, s2, i, j);
    if k < n - 1 {
        lemma_common_suffix_items(s1, s2, i - 1, j - 1, k);
    }
}

proof fn lemma_common_suffix_at_least<T>(s1: Seq<T>, s2: Seq<T>, a: int, b: int, l: int)
    requires
        0 <= a,
        0 <= b,
        0 <= l,
        a + l <= s1.len(),
        b + l <= s2.len(),
        forall|i: int| a <= i < a + l ==> #[trigger] s1[i] == s2[b + (i - a)],
    ensures
        common_suffix_len(s1, s2, a + l, b + l) >= l,
    decreases l,
{
    if l > 0 {
        assert(s1[a + (l - 1)] == s2[b + (l - 1)]);
        assert forall|i: int| a <= i < a + (l - 1) implies #[trigger] s1[i] == s2[b + (i - a)] by {}
        lemma_common_suffix_at_least(s1, s2, a, b, l - 1);
    }
}

/// The run that the result names is common to both sequences: its items agree.
pub proof fn lemma_longest_common_run_agrees<T>(s1: Seq<T>, s2: Seq<T>, r: LongestCommonCoherentSubsequence)
    requires
        is_longest_common_run(s1, s2, r),
    ensures
        forall|i: int| r.sec1_start <= i < r.sec1_start + r.len ==> #[trigger] s1[i] == s2[r.sec2_start + (i - r.sec1_start)],
{
    assert forall|i: int| r.sec1_start <= i < r.sec1_start + r.len implies #[trigger] s1[i] == s2[r.sec2_start + (i - r.sec1_start)] by {
        lemma_common_suffix_items(s1, s2, r.sec1_start + r.len, r.sec2_start + r.len, i - r.sec1_start);
    }
}

/// No run of items that both sequences have in common is longer than the result.
pub proof fn lemma_longest_common_run_is_longest<T>(s1: Seq<T>, s2: Seq<T>, r: LongestCommonCoherentSubsequence, a: int, b: int, l: int)
    requires
        is_longest_common_run(s1, s2, r),
        0 <= a,
        0 <= b,
        0 <= l,
        a + l <= s1.len(),
        b + l <= s2.len(),
        forall|i: int| a <= i < a + l ==> #[trigger] s1[i] == s2[b + (i - a)],
    ensures
        l <= r.len,
{
    lemma_common_suffix_at_least(s1, s2, a, b, l);
    assert(common_suffix_len(s1, s2, a + l, b + l) <= r.len);
}

spec fn processed(a: int, b: int, i: int, j: int) -> bool {
    a < i || (a == i && b < j)
}

spec fn run_invariant<T>(s1: Seq<T>, s2: Seq<T>, r: LongestCommonCoherentSubsequence, i: int, j: int) -> bool {
    let e1 = r.sec1_start + r.len;
    let e2 = r.sec2_start + r.len;
    &&& forall|a: int, b: int| 1 <= a <= s1.len() && 1 <= b <= s2.len() && processed(a, b, i, j)
        ==> #[trigger] common_suffix_len(s1, s2, a, b) <= r.len
    &&& r.len > 0 ==> {
        &&& 1 <= e1 <= s1.len()
        &&& 1 <= e2 <= s2.len()
        &&& processed(e1, e2, i, j)
        &&& common_suffix_len(s1, s2, e1, e2) == r.len
        &&& forall|a: int, b: int| 1 <= a <= s1.len() && 1 <= b <= s2.len() && lex_before(a, b, e1, e2)
            ==> #[trigger] common_suffix_len(s1, s2, a, b) < r.len
    }
    &&& r.len == 0 ==> r.sec1_start == 0 && r.sec2_start == 0
}

fn zeros(n: usize) -> (v: Vec<usize>)
    ensures
        v@.len() == n,
        forall|k: int| 0 <= k < n ==> #[trigger] v@[k] == 0,
{
    let mut v: Vec<usize> = Vec::new();
    let mut k: usize = 0;
    while k < n
        invariant
            k <= n,
            v@.len() == k,
            forall|m: int| 0 <= m < k ==> #[trigger] v@[m] == 0,
        decreases n - k,
    {
        v.push(0);
        k = k + 1;
    }
    v
}

/// The longest run of consecutive items that `seq1` and `seq2` have in common: the
/// first such run, going through `seq1` and then through `seq2`.
pub fn longest_common_coherent_subsequence(seq1: Vec<&str>, seq2: Vec<&str>) -> (r: LongestCommonCoherentSubsequence)
    ensures
        is_longest_common_run(str_views(seq1@), str_views(seq2@), r),
{
    let ghost s1 = str_views(seq1@);
    let ghost s2 = str_views(seq2@);
    let n1 = seq1.len();
    let n2 = seq2.len();
    let mut result = LongestCommonCoherentSubsequence { sec1_start: 0, sec2_start: 0, len: 0 };
    // previous[b] is the common suffix length for row i - 1 and column b + 1
    let mut previous = zeros(n2);
    let mut i0: usize = 0;
    while i0 < n1
        invariant
            s1 == str_views(seq1@),
            s2 == str_views(seq2@),
            n1 == seq1@.len() == s1.len(),
            n2 == seq2@.len() == s2.len(),
            i0 <= n1,
            previous@.len() == n2,
            forall|b: int| 0 <= b < n2 ==> #[trigger] previous@[b] == common_suffix_len(s1, s2, i0 as int, b + 1),
            run_invariant(s1, s2, result, i0 + 1, 1),
        decreases n1 - i0,
    {
        let i = i0 + 1;
        let mut current = zeros(n2);
        let mut j0: usize = 0;
        while j0 < n2
            invariant
                s1 == str_views(seq1@),
                s2 == str_views(seq2@),
                n1 == seq1@.len() == s1.len(),
                n2 == seq2@.len() == s2.len(),
                i0 < n1,
                i == i0 + 1,
                j0 <= n2,
                previous@.len() == n2,
                current@.len() == n2,
                forall|b: int| 0 <= b < n2 ==> #[trigger] previous@[b] == common_suffix_len(s1, s2, i0 as int, b + 1),
                forall|b: int| 0 <= b < j0 ==> #[trigger] current@[b] == common_suffix_len(s1, s2, i as int, b + 1),
                run_invariant(s1, s2, result, i as int, j0 + 1),
            decreases n2 - j0,
        {
            let j = j0 + 1;
            let equal = str_eq(seq1[i0], seq2[j0]);
            proof {
                assert(s1[i0 as int] == seq1@[i0 as int]@);
                assert(s2[j0 as int] == seq2@[j0 as int]@);
                lemma_common_suffix_bounded(s1, s2, i0 as int, j0 as int);
                lemma_common_suffix_bounded(s1, s2, i as int, j as int);
            }
            if equal {
                let before: usize = if j0 == 0 { 0 } else { previous[j0 - 1] };
                let v = before + 1;
                current.set(j0, v);
                if v > result.len {
                    result = LongestCommonCoherentSubsequence { sec1_start: i - v, sec2_start: j - v, len: v };
                }
            } else {
                current.set(j0, 0);
            }
            j0 = j0 + 1;
        }
        previous = current;
        i0 = i0 + 1;
    }
    proof {
        assert forall|a: int, b: int| 0 <= a <= s1.len() && 0 <= b <= s2.len() implies #[trigger] common_suffix_len(s1, s2, a, b) <= result.len by {
            if a >= 1 && b >= 1 {
                assert(processed(a, b, i0 + 1, 1));
            }
        }
        if result.len > 0 {
            let e1 = result.sec1_start + result.len;
            let e2 = result.sec2_start + result.len;
            assert forall|a: int, b: int| 0 <= a <= s1.len() && 0 <= b <= s2.len() && lex_before(a, b, e1, e2) implies #[trigger] common_suffix_len(s1, s2, a, b) < result.len by {
                if a >= 1 && b >= 1 {
                }
            }
        }
    }
    result
}

} // verus!
