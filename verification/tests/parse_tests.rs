use npkg::normalize::NameIndex;
use npkg::parse::{envpkgs, hmpkgs, read_list, syspkgs, ParseError};

#[test]
fn read_list_single_line() {
    let doc = "x = [ a b c ]";
    assert_eq!(read_list(doc, "x").unwrap(), vec!["a", "b", "c"]);
}

#[test]
fn read_list_multi_line() {
    let doc = "attr.path = [\n  one\n  two\n]";
    assert_eq!(read_list(doc, "attr.path").unwrap(), vec!["one", "two"]);
}

#[test]
fn read_list_empty() {
    let doc = "x = [ ]";
    let got = read_list(doc, "x").unwrap();
    assert!(got.is_empty());
}

#[test]
fn read_list_missing_attribute() {
    match read_list("y = [ a ]", "x") {
        Err(ParseError::EmptyPkgs) => {}
        Ok(_) => panic!("a missing attribute must be an error"),
    }
}

#[test]
fn read_list_unclosed_list() {
    match read_list("x = [ a b", "x") {
        Err(ParseError::EmptyPkgs) => {}
        Ok(_) => panic!("an unclosed list must be an error"),
    }
}

#[test]
fn syspkgs_reads_system_attribute() {
    let doc = "{ environment.systemPackages = with pkgs; [ htop curl ]; }";
    assert_eq!(syspkgs(doc).unwrap(), vec!["htop", "curl"]);
}

#[test]
fn hmpkgs_reads_home_attribute() {
    let doc = "{ home.packages = with pkgs; [ firefox ]; }";
    assert_eq!(hmpkgs(doc).unwrap(), vec!["firefox"]);
}

#[test]
fn envpkgs_decodes_query_output() {
    // What `nix-env -q --json` prints: an object keyed by attribute, each
    // member carrying the installed name.
    let out = "{\"htop\":{\"name\":\"htop-3.2.2\",\"pname\":\"htop\",\"version\":\"3.2.2\"},\
               \"curl\":{\"name\":\"curl-8.0.1\",\"pname\":\"curl\",\"version\":\"8.0.1\"}}";
    let mut index = NameIndex::new();
    assert!(index.insert("htop".to_string(), "htop-3.2.2".to_string()));
    assert!(index.insert("curl".to_string(), "curl-8.0.1".to_string()));
    // Members come back in key order; each name maps back to its short form.
    assert_eq!(envpkgs(out, &index).unwrap(), vec!["curl", "htop"]);
}

#[test]
fn envpkgs_unknown_names_pass_through() {
    let out = "{\"zzz\":{\"name\":\"zzz-1.0\"}}";
    let index = NameIndex::new();
    assert_eq!(envpkgs(out, &index).unwrap(), vec!["zzz-1.0"]);
}

#[test]
fn envpkgs_rejects_bad_output() {
    let index = NameIndex::new();
    assert!(matches!(envpkgs("not json at all", &index), Err(ParseError::EmptyPkgs)));
    assert!(matches!(envpkgs("[1, 2]", &index), Err(ParseError::EmptyPkgs)));
    assert!(matches!(envpkgs("{\"a\": {\"pname\": \"a\"}}", &index), Err(ParseError::EmptyPkgs)));
}
