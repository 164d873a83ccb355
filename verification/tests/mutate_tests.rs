use npkg::mutate::{pkrm, pkwrite, MutateError};
use npkg::parse::read_list;

fn entries(doc: &str, attr: &str) -> Vec<String> {
    read_list(doc, attr).expect("the attribute should be readable")
}

fn bare(e: &str) -> &str {
    e.strip_prefix("pkgs.").unwrap_or(e)
}

#[test]
fn install_single_line_unqualified() {
    let doc = "{ environment.systemPackages = with pkgs; [ htop ]; }";
    let out = pkwrite(vec!["curl".to_string()], doc, None).unwrap();
    assert_eq!(out, "{ environment.systemPackages = with pkgs; [ htop pkgs.curl ]; }");
    assert_eq!(entries(&out, "environment.systemPackages"), vec!["htop", "pkgs.curl"]);
}

#[test]
fn install_keeps_rest_of_document() {
    let doc = "{\n  boot.loader.grub.enable = true;\n  environment.systemPackages = with pkgs; [ htop ];\n  services.openssh.enable = true;\n}\n";
    let out = pkwrite(vec!["curl".to_string()], doc, None).unwrap();
    assert!(out.starts_with("{\n  boot.loader.grub.enable = true;\n"));
    assert!(out.ends_with(";\n  services.openssh.enable = true;\n}\n"));
    assert_eq!(entries(&out, "environment.systemPackages"), vec!["htop", "pkgs.curl"]);
}

#[test]
fn install_multi_line_list() {
    let doc = "{\n  home.packages = with pkgs; [\n  firefox\n  ];\n}\n";
    let out = pkwrite(vec!["mpv".to_string()], doc, Some("home.packages")).unwrap();
    assert_eq!(out, "{\n  home.packages = with pkgs; [\n  firefox\n  pkgs.mpv\n  ];\n}\n");
}

#[test]
fn install_into_empty_list() {
    let doc = "x = [ ]";
    let out = pkwrite(vec!["htop".to_string()], doc, Some("x")).unwrap();
    assert_eq!(entries(&out, "x"), vec!["pkgs.htop"]);
}

#[test]
fn install_no_qualifier_when_list_is_qualified() {
    let doc = "x = [ pkgs.htop ]";
    let out = pkwrite(vec!["curl".to_string()], doc, Some("x")).unwrap();
    assert_eq!(entries(&out, "x"), vec!["pkgs.htop", "curl"]);
}

#[test]
fn install_malformed_document() {
    let doc = "{ nothing.here = true; }";
    match pkwrite(vec!["curl".to_string()], doc, None) {
        Err(MutateError::MalformedDocument) => {}
        Ok(_) => panic!("a document without the attribute must be rejected"),
    }
    // An attribute without a bracketed list is malformed as well.
    match pkwrite(vec!["curl".to_string()], "x = true;", Some("x")) {
        Err(MutateError::MalformedDocument) => {}
        Ok(_) => panic!("an attribute without a list must be rejected"),
    }
}

#[test]
fn remove_single_entry() {
    let doc = "{ environment.systemPackages = with pkgs; [ htop curl ]; }";
    let out = pkrm(vec!["curl".to_string()], doc, None).unwrap();
    assert_eq!(entries(&out, "environment.systemPackages"), vec!["htop"]);
    assert!(out.starts_with("{ environment.systemPackages = with pkgs; ["));
    assert!(out.ends_with("]; }"));
}

#[test]
fn remove_matches_qualified_entries_by_bare_name() {
    let doc = "x = [ pkgs.htop pkgs.curl vim ]";
    let out = pkrm(vec!["htop".to_string(), "vim".to_string()], doc, Some("x")).unwrap();
    assert_eq!(entries(&out, "x"), vec!["pkgs.curl"]);
}

#[test]
fn remove_last_entry_leaves_empty_list() {
    let doc = "x = [ htop ]";
    let out = pkrm(vec!["htop".to_string()], doc, Some("x")).unwrap();
    let got = entries(&out, "x");
    assert!(got.is_empty(), "expected an empty list, got {:?}", got);
}

#[test]
fn remove_malformed_document() {
    match pkrm(vec!["curl".to_string()], "{ }", None) {
        Err(MutateError::MalformedDocument) => {}
        Ok(_) => panic!("a document without the attribute must be rejected"),
    }
}

// Install of a disjoint list: re-reading yields exactly the old entries
// united with the requests, at the bare-identifier level.
#[test]
fn install_union_of_identifiers() {
    let doc = "x = [ htop vim ]";
    let out = pkwrite(vec!["curl".to_string(), "wget".to_string()], doc, Some("x")).unwrap();
    let mut got: Vec<String> = entries(&out, "x").iter().map(|e| bare(e).to_string()).collect();
    got.sort();
    assert_eq!(got, vec!["curl", "htop", "vim", "wget"]);
}

// Removal of a subset: re-reading yields exactly the old entries minus the
// requests.
#[test]
fn remove_difference_of_identifiers() {
    let doc = "x = [ htop vim curl ]";
    let out = pkrm(vec!["vim".to_string(), "htop".to_string()], doc, Some("x")).unwrap();
    assert_eq!(entries(&out, "x"), vec!["curl"]);
}

// Round trip: installing and then removing the same disjoint packages
// reproduces the original entry set.
#[test]
fn install_then_remove_round_trip() {
    let doc = "{\n  home.packages = with pkgs; [\n  firefox\n  mpv\n  ];\n}\n";
    let pkgs = vec!["curl".to_string(), "wget".to_string()];
    let installed = pkwrite(pkgs.clone(), doc, Some("home.packages")).unwrap();
    let removed = pkrm(pkgs, &installed, Some("home.packages")).unwrap();
    assert_eq!(entries(&removed, "home.packages"), entries(doc, "home.packages"));
}

// Qualifier consistency: when no entry is qualified, every added entry gets
// the qualifier and every original entry stays exactly as it was.
#[test]
fn install_qualifier_consistency() {
    let doc = "x = [ htop vim ]";
    let out = pkwrite(vec!["curl".to_string(), "wget".to_string()], doc, Some("x")).unwrap();
    let got = entries(&out, "x");
    assert_eq!(&got[..2], &["htop".to_string(), "vim".to_string()]);
    for added in &got[2..] {
        assert!(added.starts_with("pkgs."), "{} should carry the qualifier", added);
    }
    assert_eq!(&got[2..], &["pkgs.curl".to_string(), "pkgs.wget".to_string()]);
}

#[test]
fn install_skips_with_clause_of_other_namespace() {
    let doc = "x = with lib; [ htop ]";
    let out = pkwrite(vec!["curl".to_string()], doc, Some("x")).unwrap();
    assert_eq!(entries(&out, "x"), vec!["htop", "pkgs.curl"]);
}

#[test]
fn attribute_name_must_stand_alone() {
    // `yx` must not be mistaken for the attribute `x`.
    let doc = "yx = [ a ]\nx = [ b ]";
    let out = pkwrite(vec!["c".to_string()], doc, Some("x")).unwrap();
    assert_eq!(entries(&out, "x"), vec!["b", "pkgs.c"]);
    assert_eq!(entries(&out, "yx"), vec!["a"]);
}
