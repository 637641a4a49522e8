use zusi_fahrplan_generator::kern::schedules::longest_common_coherent_subsequence::{
    longest_common_coherent_subsequence, LongestCommonCoherentSubsequence,
};

#[test]
fn test_overlapping() {
    assert_eq!(
        longest_common_coherent_subsequence(
            vec!["a", "b", "c", "d", "f"],
            vec!["a", "c", "d", "e", "f"],
        ),
        LongestCommonCoherentSubsequence {
            sec1_start: 2,
            sec2_start: 1,
            len: 2,
        },
    );
}

#[test]
fn test_one_contains_other() {
    assert_eq!(
        longest_common_coherent_subsequence(
            vec!["a", "b", "c", "d", "e"],
            vec!["b", "c", "d"],
        ),
        LongestCommonCoherentSubsequence {
            sec1_start: 1,
            sec2_start: 0,
            len: 3,
        },
    );
    assert_eq!(
        longest_common_coherent_subsequence(
            vec!["b", "c", "d"],
            vec!["a", "b", "c", "d", "e"],
        ),
        LongestCommonCoherentSubsequence {
            sec1_start: 0,
            sec2_start: 1,
            len: 3,
        },
    );
}

#[test]
fn test_one_extends_other() {
    assert_eq!(
        longest_common_coherent_subsequence(
            vec!["a", "b", "c", "d", "e"],
            vec!["a", "b", "c"],
        ),
        LongestCommonCoherentSubsequence {
            sec1_start: 0,
            sec2_start: 0,
            len: 3,
        },
    );
    assert_eq!(
        longest_common_coherent_subsequence(
            vec!["a", "b", "c"],
            vec!["a", "b", "c", "d", "e"],
        ),
        LongestCommonCoherentSubsequence {
            sec1_start: 0,
            sec2_start: 0,
            len: 3,
        },
    );
    assert_eq!(
        longest_common_coherent_subsequence(
            vec!["a", "b", "c", "d", "e"],
            vec!["c", "d", "e"],
        ),
        LongestCommonCoherentSubsequence {
            sec1_start: 2,
            sec2_start: 0,
            len: 3,
        },
    );
    assert_eq!(
        longest_common_coherent_subsequence(
            vec!["c", "d", "e"],
            vec!["a", "b", "c", "d", "e"],
        ),
        LongestCommonCoherentSubsequence {
            sec1_start: 0,
            sec2_start: 2,
            len: 3,
        },
    );
}

#[test]
fn test_nothing_in_common() {
    assert_eq!(
        longest_common_coherent_subsequence(vec!["a", "b"], vec!["c"]),
        LongestCommonCoherentSubsequence { sec1_start: 0, sec2_start: 0, len: 0 },
    );
    assert_eq!(
        longest_common_coherent_subsequence(vec![], vec!["c"]),
        LongestCommonCoherentSubsequence { sec1_start: 0, sec2_start: 0, len: 0 },
    );
}

#[test]
fn test_first_of_equal_runs() {
    assert_eq!(
        longest_common_coherent_subsequence(vec!["x", "a", "b", "y", "a", "b"], vec!["a", "b", "z", "a", "b"]),
        LongestCommonCoherentSubsequence { sec1_start: 1, sec2_start: 0, len: 2 },
    );
}

#[test]
fn test_result_is_common_and_longest() {
    let s1 = vec!["p", "q", "r", "s", "t", "u"];
    let s2 = vec!["r", "s", "t", "q", "r"];
    let r = longest_common_coherent_subsequence(s1.clone(), s2.clone());
    assert_eq!(r.len, 3);
    for k in 0..r.len {
        assert_eq!(s1[r.sec1_start + k], s2[r.sec2_start + k]);
    }
}
