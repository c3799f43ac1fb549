use lumin::serworse::KvMap;
use lumin::sorting::{longest_common_substr, rank, score, score_element, usage_boost};

fn brute_lcs(a: &str, b: &str) -> i32 {
    let av: Vec<char> = a.chars().collect();
    let bv: Vec<char> = b.chars().collect();
    let mut best = 0;
    for i in 0..=av.len() {
        for j in 0..=bv.len() {
            let mut k = 0;
            while i + k < av.len() && j + k < bv.len() && av[i + k] == bv[j + k] {
                k += 1;
            }
            best = best.max(k);
        }
    }
    best as i32
}

#[test]
fn lcs_matches_brute_force() {
    let words = [
        "",
        "a",
        "ab",
        "ba",
        "abab",
        "banana",
        "ananas",
        "wei\u{df}",
        "\u{df}eiw",
        "h\u{e9}llo w\u{f6}rld",
        "w\u{f6}rld",
    ];
    for x in words {
        for y in words {
            assert_eq!(longest_common_substr(x, y), brute_lcs(x, y), "{x:?} vs {y:?}");
        }
    }
}

#[test]
fn non_ascii_text_is_measured_in_characters() {
    assert_eq!(longest_common_substr("h\u{e9}llo", "\u{e9}ll"), 3);
}

#[test]
fn rank_of_an_empty_list_is_a_no_op() {
    let mut v: Vec<String> = Vec::new();
    let usage: KvMap<u32> = KvMap::new();
    rank("query", &mut v, &usage);
    assert!(v.is_empty());
}

#[test]
fn longest_common_substr_correct() {
    assert_eq!(longest_common_substr("hello world", "world"), 5);
    assert_eq!(
        longest_common_substr("geeksforgeeks", "ggeegeeksquizpractice"),
        5
    );
    assert_eq!(longest_common_substr("", ""), 0);
}

#[test]
fn prefix_bonus_beats_equal_substring_match() {
    // Both candidates contain the query as a substring of the same
    // length; only the first starts with it.
    assert!(score_element("abc", "abcdef") > score_element("abc", "xabcdef"));
    assert_eq!(score_element("abc", "abcdef"), 5);
    assert_eq!(score_element("abc", "xabcdef"), 3);
}

#[test]
fn query_case_does_not_matter() {
    assert_eq!(score_element("Fire", "firefox"), score_element("fire", "firefox"));
}

#[test]
fn usage_boost_diminishes() {
    assert_eq!(usage_boost(0), 0);
    assert_eq!(usage_boost(1), 0);
    assert_eq!(usage_boost(7), 0);
    assert_eq!(usage_boost(8), 1);
    assert_eq!(usage_boost(54), 1);
    assert_eq!(usage_boost(55), 2);
    assert_eq!(usage_boost(404), 3);
    assert_eq!(usage_boost(2981), 4);
    assert_eq!(usage_boost(u32::MAX), 11);
}

#[test]
fn usage_never_lowers_a_score() {
    let mut last = score("edit", "editor", None);
    for count in [0u32, 1, 5, 8, 60, 500, 5000, 1_000_000] {
        let s = score("edit", "editor", Some(count));
        assert!(s >= last);
        last = s;
    }
}

fn ranked(query: &str, items: &[&str]) -> Vec<String> {
    let mut v: Vec<String> = items.iter().map(|s| s.to_string()).collect();
    let usage: KvMap<u32> = KvMap::new();
    rank(query, &mut v, &usage);
    v
}

#[test]
fn rank_puts_best_match_first() {
    let out = ranked("fire", &["files", "firefox", "terminal"]);
    assert_eq!(out[0], "firefox");
}

#[test]
fn rank_is_stable_and_deterministic() {
    // All candidates score identically for the empty query; their
    // original relative order must survive, run after run.
    let input = ["pear", "plum", "peach", "prune"];
    let out1 = ranked("", &input);
    let out2 = ranked("", &input);
    assert_eq!(out1, input.map(|s| s.to_string()).to_vec());
    assert_eq!(out1, out2);

    let mixed = ["zzz", "abcd", "abce", "zzy"];
    let r1 = ranked("abc", &mixed);
    let r2 = ranked("abc", &mixed);
    assert_eq!(r1, vec!["abcd", "abce", "zzz", "zzy"]);
    assert_eq!(r1, r2);
}

#[test]
fn rank_weighs_usage_in() {
    let mut v: Vec<String> = vec!["mail".to_string(), "maps".to_string()];
    let mut usage: KvMap<u32> = KvMap::new();
    usage.insert("maps".to_string(), 100);
    rank("ma", &mut v, &usage);
    assert_eq!(v[0], "maps");
}

#[test]
fn empty_query_floats_most_used_to_top() {
    let mut v: Vec<String> = vec!["alpha".to_string(), "beta".to_string(), "gamma".to_string()];
    let mut usage: KvMap<u32> = KvMap::new();
    usage.insert("gamma".to_string(), 50);
    usage.insert("beta".to_string(), 9000);
    rank("", &mut v, &usage);
    assert_eq!(v, vec!["beta".to_string(), "gamma".to_string(), "alpha".to_string()]);
}
