use npkg::execute::{
    envinstall, envremove, envupdate, homeflakeswitch, homeswitch, systemflakeswitch,
    systemswitch, updatechannel, updateflake,
};

#[test]
fn envinstall_prefixes_packages() {
    let cmd = envinstall(&vec!["htop".to_string(), "curl".to_string()]);
    assert_eq!(cmd.program, "nix-env");
    assert_eq!(cmd.args, vec!["-iA", "nixos.htop", "nixos.curl"]);
    assert!(!cmd.elevate);
}

#[test]
fn envremove_passes_names_through() {
    let cmd = envremove(&vec!["htop-3.2.2".to_string()]);
    assert_eq!(cmd.program, "nix-env");
    assert_eq!(cmd.args, vec!["-e", "htop-3.2.2"]);
    assert!(!cmd.elevate);
}

#[test]
fn envupdate_updates_everything() {
    let cmd = envupdate();
    assert_eq!(cmd.program, "nix-env");
    assert_eq!(cmd.args, vec!["-u", "*"]);
    assert!(!cmd.elevate);
}

#[test]
fn system_switch_needs_elevation() {
    let cmd = systemswitch();
    assert_eq!(cmd.program, "nixos-rebuild");
    assert_eq!(cmd.args, vec!["switch"]);
    assert!(cmd.elevate);
}

#[test]
fn system_flake_switch_adds_remote_sudo() {
    let cmd = systemflakeswitch("/etc/nixos#host");
    assert_eq!(cmd.program, "nixos-rebuild");
    assert_eq!(cmd.args, vec!["switch", "--flake", "/etc/nixos#host", "--use-remote-sudo"]);
    assert!(cmd.elevate);
}

#[test]
fn home_switch_never_elevates() {
    let cmd = homeswitch();
    assert_eq!(cmd.program, "home-manager");
    assert_eq!(cmd.args, vec!["switch"]);
    assert!(!cmd.elevate);
    let flake = homeflakeswitch("/home/user/nix#user");
    assert_eq!(flake.args, vec!["switch", "--flake", "/home/user/nix#user"]);
    assert!(!flake.elevate);
}

#[test]
fn updatechannel_command() {
    let cmd = updatechannel();
    assert_eq!(cmd.program, "nix-channel");
    assert_eq!(cmd.args, vec!["--update"]);
}

#[test]
fn updateflake_strips_attribute_selector() {
    let cmd = updateflake("/etc/nixos#host");
    assert_eq!(cmd.program, "nix");
    assert_eq!(cmd.args, vec!["flake", "update", "/etc/nixos"]);
    let plain = updateflake("/etc/nixos");
    assert_eq!(plain.args, vec!["flake", "update", "/etc/nixos"]);
}
