use npkg::diff::{compute_effective, Actions};

fn strings(xs: &[&str]) -> Vec<String> {
    xs.iter().map(|x| x.to_string()).collect()
}

#[test]
fn effective_install_filters_installed() {
    let requested = strings(&["htop", "curl"]);
    let installed = strings(&["htop"]);
    let eff = compute_effective(&requested, &installed, &Actions::Install);
    assert_eq!(eff, strings(&["curl"]));
}

#[test]
fn effective_install_all_new() {
    let requested = strings(&["a", "b"]);
    let installed = strings(&[]);
    let eff = compute_effective(&requested, &installed, &Actions::Install);
    assert_eq!(eff, strings(&["a", "b"]));
}

#[test]
fn effective_install_nothing_to_do() {
    let requested = strings(&["a", "b"]);
    let installed = strings(&["b", "a"]);
    let eff = compute_effective(&requested, &installed, &Actions::Install);
    assert!(eff.is_empty());
}

#[test]
fn effective_remove_keeps_present() {
    let requested = strings(&["vim", "curl"]);
    let installed = strings(&["curl", "htop"]);
    let eff = compute_effective(&requested, &installed, &Actions::Remove);
    assert_eq!(eff, strings(&["curl"]));
}

#[test]
fn effective_remove_nothing_to_do() {
    let requested = strings(&["vim"]);
    let installed = strings(&["curl"]);
    let eff = compute_effective(&requested, &installed, &Actions::Remove);
    assert!(eff.is_empty());
}

// Idempotence: once the effective set of an install counts as installed,
// recomputing the same request yields nothing to do.
#[test]
fn effective_install_idempotent() {
    let requested = strings(&["htop", "curl", "wget"]);
    let installed = strings(&["curl"]);
    let eff = compute_effective(&requested, &installed, &Actions::Install);
    assert_eq!(eff, strings(&["htop", "wget"]));
    let mut installed2 = installed.clone();
    installed2.extend(eff);
    let again = compute_effective(&requested, &installed2, &Actions::Install);
    assert!(again.is_empty());
}
