use imaging::case_filter::{matches_case_pattern, split_case_patterns};

fn m(p: &str, n: &str) -> bool {
    matches_case_pattern(p.as_bytes(), n.as_bytes())
}

#[test]
fn exact_names_match_without_wildcards() {
    assert!(m("gm_blend_grid", "gm_blend_grid"));
    assert!(!m("gm_blend", "gm_blend_grid"));
    assert!(!m("gm_blend_grid", "gm_blend"));
    assert!(m("", ""));
}

#[test]
fn prefix_and_suffix_wildcards() {
    assert!(m("gm_*", "gm_blend_grid"));
    assert!(!m("gm_*", "xgm_blend"));
    assert!(m("*_grid", "gm_blend_grid"));
    assert!(!m("*_grid", "gm_grid_x"));
    assert!(m("*", ""));
    assert!(m("*", "anything"));
    assert!(m("**", "x"));
}

#[test]
fn middle_segments_match_in_order() {
    assert!(m("gm_*blend*grid", "gm_blend_grid"));
    assert!(m("*mask*alpha*", "gm_mask_alpha"));
    assert!(!m("*alpha*mask*", "gm_mask_alpha"));
    assert!(m("a*b*c", "abc"));
    assert!(m("a*b*c", "axxbyyc"));
    assert!(!m("a*b*c", "acb"));
}

#[test]
fn segments_do_not_overlap() {
    assert!(!m("a*a", "a"));
    assert!(m("a*a", "aa"));
    assert!(!m("ab*ba", "aba"));
    assert!(m("ab*ba", "abba"));
    assert!(m("*aa*aa", "aaaa"));
    assert!(!m("*aa*aa", "aaa"));
}

#[test]
fn greedy_leftmost_choice_still_finds_later_suffix() {
    assert!(m("*ab*b", "abab"));
    assert!(m("x*y*z", "xyyzyz"));
    assert!(m("gm_*_*", "gm_a_b"));
}

fn split(value: &str) -> Vec<String> {
    let chars: Vec<char> = value.chars().collect();
    split_case_patterns(&chars)
        .into_iter()
        .map(|piece| piece.into_iter().collect())
        .collect()
}

#[test]
fn pattern_lists_split_at_commas_and_whitespace() {
    assert_eq!(split("gm_*,*_grid"), vec!["gm_*", "*_grid"]);
    assert_eq!(split("a, b\tc,,d\n"), vec!["a", "b", "c", "d"]);
    assert_eq!(split("  gm_blend_grid  "), vec!["gm_blend_grid"]);
    assert_eq!(split("x\u{A0}y"), vec!["x", "y"]);
}

#[test]
fn empty_pattern_lists_give_no_patterns() {
    assert!(split("").is_empty());
    assert!(split(" ,\t, ").is_empty());
}

#[test]
fn whitespace_separators_agree_with_the_standard_library() {
    for code in 0u32..=0x10FFFF {
        if let Some(c) = char::from_u32(code) {
            let separates = c == ',' || c.is_whitespace();
            assert_eq!(split_case_patterns(&[c]).is_empty(), separates, "U+{code:04X}");
        }
    }
}
