use rancher_mcp_proxy::config::glob_match;

#[test]
fn exact_match() {
    assert!(glob_match("get_allocation", "get_allocation"));
    assert!(!glob_match("get_allocation", "get_assets"));
}

#[test]
fn star_prefix() {
    assert!(glob_match("get_*", "get_allocation"));
    assert!(glob_match("get_*", "get_"));
    assert!(!glob_match("get_*", "set_budget"));
}

#[test]
fn star_suffix() {
    assert!(glob_match("*_allocation", "get_allocation"));
    assert!(glob_match("*_allocation", "set_allocation"));
    assert!(!glob_match("*_allocation", "get_assets"));
}

#[test]
fn star_only() {
    assert!(glob_match("*", "anything"));
    assert!(glob_match("*", ""));
}

#[test]
fn question_mark() {
    assert!(glob_match("get_?", "get_a"));
    assert!(!glob_match("get_?", "get_al"));
    assert!(!glob_match("get_?", "get_"));
}

#[test]
fn glob_empty_pattern_matches_empty_name() {
    assert!(glob_match("", ""));
}

#[test]
fn glob_empty_pattern_rejects_nonempty_name() {
    assert!(!glob_match("", "tool"));
}

#[test]
fn glob_star_matches_empty_string() {
    assert!(glob_match("*", ""));
    assert!(glob_match("prefix_*", "prefix_"));
}

#[test]
fn glob_consecutive_stars_act_like_one_star() {
    assert!(glob_match("**", "anything"));
    assert!(glob_match("**", ""));
    assert!(glob_match("get_**", "get_allocation"));
}

#[test]
fn glob_middle_wildcard() {
    assert!(glob_match("get_*_cost", "get_namespace_cost"));
    assert!(glob_match("get_*_cost", "get_a_cost"));
    // The literal "_" between "*" and "cost" must appear in the name.
    assert!(!glob_match("get_*_cost", "get_cost"));
    assert!(!glob_match("get_*_cost", "set_namespace_cost"));
}

#[test]
fn glob_multiple_question_marks() {
    assert!(glob_match("get_??", "get_ab"));
    assert!(!glob_match("get_??", "get_a"));
    assert!(!glob_match("get_??", "get_abc"));
}

#[test]
fn glob_question_mark_at_start() {
    assert!(glob_match("?et_tool", "get_tool"));
    assert!(glob_match("?et_tool", "set_tool"));
    assert!(!glob_match("?et_tool", "tool"));
}

#[test]
fn glob_is_case_sensitive() {
    assert!(!glob_match("Get_*", "get_tool"));
    assert!(glob_match("Get_*", "Get_tool"));
}

#[test]
fn glob_question_mark_matches_one_character_beyond_ascii() {
    assert!(glob_match("caf?", "café"));
    assert!(!glob_match("caf??", "café"));
    assert!(glob_match("*é", "café"));
}

#[test]
fn glob_star_backtracks() {
    assert!(glob_match("*ab*ab", "abxabab"));
    assert!(!glob_match("*ab*ab", "abxaba"));
    assert!(glob_match("a*?b", "axxb"));
    assert!(!glob_match("a*?b", "ab"));
}

#[test]
fn glob_many_stars_on_a_long_name_is_quick() {
    let name = "a".repeat(300);
    assert!(!glob_match("*a*a*a*a*a*a*a*a*a*a*a*a*b", &name));
    assert!(glob_match("*a*a*a*a*a*a*a*a*a*a*a*a*a", &name));
}
