use npkg::search::{contains_substr, search_match};

fn chars(s: &str) -> Vec<char> {
    s.chars().collect()
}

#[test]
fn substring_basics() {
    assert!(contains_substr(&chars("interactive viewer"), &chars("active")));
    assert!(contains_substr(&chars("abc"), &chars("")));
    assert!(contains_substr(&chars("abc"), &chars("abc")));
    assert!(!contains_substr(&chars("abc"), &chars("abcd")));
    assert!(!contains_substr(&chars("process"), &chars("viewer")));
    assert!(contains_substr(&chars("aab"), &chars("ab")));
}

#[test]
fn match_requires_every_term() {
    let desc = Some("an interactive process viewer".to_string());
    assert!(search_match("htop", &desc, &vec!["proc".to_string()]));
    assert!(search_match("htop", &desc, &vec!["htop".to_string(), "viewer".to_string()]));
    assert!(!search_match("htop", &desc, &vec!["htop".to_string(), "editor".to_string()]));
}

#[test]
fn match_without_description_uses_name_only() {
    assert!(search_match("ripgrep", &None, &vec!["grep".to_string()]));
    assert!(!search_match("ripgrep", &None, &vec!["search".to_string()]));
}

#[test]
fn empty_query_matches_everything() {
    assert!(search_match("anything", &None, &vec![]));
}
