use npkg::diff::Actions;
use npkg::normalize::NameIndex;
use npkg::operate::{
    apply_start, apply_step, base_name, cfgoperate, cfgswitch, chnupdate, envinstall_check,
    envremove_check, parent_dir, pkinstall, pkremove, ApplyAction, ApplyEvent, ApplyOutcome,
    ApplyPlan, ApplyState, OperateError, PlanOutcome,
};
use npkg::parse::syspkgs;
use npkg::{NpkgData, PackageTypes};

fn strings(xs: &[&str]) -> Vec<String> {
    xs.iter().map(|x| x.to_string()).collect()
}

fn system_opts(pkgs: &[&str], currpkgs: &[&str]) -> NpkgData {
    NpkgData {
        pkgmgr: PackageTypes::System,
        pkgs: strings(pkgs),
        output: None,
        syscfg: "/etc/nixos/configuration.nix".to_string(),
        hmcfg: "/home/user/.config/nixpkgs/home.nix".to_string(),
        dryrun: false,
        flake: None,
        currpkgs: strings(currpkgs),
    }
}

fn proceed(r: Result<PlanOutcome, npkg::mutate::MutateError>) -> ApplyPlan {
    match r.expect("planning should succeed") {
        PlanOutcome::Proceed(plan) => plan,
        PlanOutcome::NoOp => panic!("expected a plan, got nothing to do"),
    }
}

const DOC: &str = "{ environment.systemPackages = with pkgs; [ htop ]; }";

// Scenario: one of the two requested packages is already installed; the
// document gains one qualified entry, the rebuild runs, and on success the
// installed set has both packages.
#[test]
fn scenario_install_runs_rebuild() {
    let installed = syspkgs(DOC).unwrap();
    assert_eq!(installed, vec!["htop"]);
    let opts = system_opts(&["htop", "curl"], &["htop"]);
    let plan = proceed(pkinstall(&opts, DOC));
    assert_eq!(plan.outfile, "/etc/nixos/configuration.nix");
    assert_eq!(plan.original, DOC);
    assert!(!plan.dryrun);
    assert_eq!(syspkgs(&plan.candidate).unwrap(), vec!["htop", "pkgs.curl"]);
    let candidate = plan.candidate.clone();

    let (st, action) = apply_start(plan, "/home/user/.cache/npkg");
    match action {
        ApplyAction::WriteFile { path, text } => {
            assert_eq!(path, "/etc/nixos/configuration.nix");
            assert_eq!(text, candidate);
        }
        _ => panic!("the first action must be the direct write"),
    }
    let (st, action) = apply_step(st, &ApplyEvent::WriteOk);
    assert!(matches!(action, ApplyAction::Rebuild));
    let (_, action) = apply_step(st, &ApplyEvent::RebuildOk);
    match action {
        ApplyAction::Finish(ApplyOutcome::Applied) => {}
        _ => panic!("a successful rebuild must finish the sequence as applied"),
    }
    // The final installed set, at the bare-identifier level.
    let after: Vec<String> = syspkgs(&candidate)
        .unwrap()
        .iter()
        .map(|e| e.strip_prefix("pkgs.").unwrap_or(e).to_string())
        .collect();
    assert_eq!(after, vec!["htop", "curl"]);
}

// Scenario: removing a package that is not installed is a no-op; nothing is
// written and nothing rebuilt.
#[test]
fn scenario_remove_absent_is_noop() {
    let doc = "{ environment.systemPackages = with pkgs; [ curl ]; }";
    let opts = system_opts(&["vim"], &["curl"]);
    match pkremove(&opts, doc) {
        Ok(PlanOutcome::NoOp) => {}
        _ => panic!("an empty effective set must be the no-op outcome"),
    }
}

// Scenario: an alternate output path forces a dry run; the candidate goes
// only to that path, the original document is never named, and no rebuild
// is asked for.
#[test]
fn scenario_alternate_output_path() {
    let mut opts = system_opts(&["curl"], &["htop"]);
    opts.output = Some("/tmp/candidate.nix".to_string());
    let plan = proceed(pkinstall(&opts, DOC));
    assert!(plan.dryrun);
    assert!(plan.alternate);
    assert_eq!(plan.outfile, "/tmp/candidate.nix");
    let (st, action) = apply_start(plan, "/home/user/.cache/npkg");
    match action {
        ApplyAction::WriteFile { path, .. } => assert_eq!(path, "/tmp/candidate.nix"),
        _ => panic!("the first action must be the direct write"),
    }
    let (_, action) = apply_step(st, &ApplyEvent::WriteOk);
    match action {
        ApplyAction::Finish(ApplyOutcome::Written) => {}
        _ => panic!("a dry run must finish right after the write"),
    }
}

// Scenario: the direct write is denied on an existing file, the candidate is
// staged, and the elevation helper fails: a write error naming the parent
// directory, with the document untouched.
#[test]
fn scenario_elevation_helper_fails() {
    let opts = system_opts(&["curl"], &["htop"]);
    let plan = proceed(pkinstall(&opts, DOC));
    let candidate = plan.candidate.clone();
    let (st, _) = apply_start(plan, "/home/user/.cache/npkg");
    let (st, action) = apply_step(st, &ApplyEvent::WriteFailed { target_is_file: true });
    match action {
        ApplyAction::StageFile { path, text } => {
            assert_eq!(path, "/home/user/.cache/npkg/configuration.nix");
            assert_eq!(text, candidate);
        }
        _ => panic!("a permission wall must lead to staging"),
    }
    let (st, action) = apply_step(st, &ApplyEvent::StageOk);
    match action {
        ApplyAction::ElevatedCopy { from, to } => {
            assert_eq!(from, "/home/user/.cache/npkg/configuration.nix");
            assert_eq!(to, "/etc/nixos/configuration.nix");
        }
        _ => panic!("a staged file must be copied with elevation"),
    }
    let (_, action) = apply_step(st, &ApplyEvent::CopyFailed);
    match action {
        ApplyAction::Finish(ApplyOutcome::Failed(OperateError::WriteError(dir))) => {
            assert_eq!(dir, "/etc/nixos");
        }
        _ => panic!("a failed elevated copy must be a write error"),
    }
}

// Scenario: the write succeeds but the rebuild fails; the pre-mutation text
// is written back and the command failure is surfaced.
#[test]
fn scenario_rebuild_failure_restores() {
    let opts = system_opts(&["curl"], &["htop"]);
    let plan = proceed(pkinstall(&opts, DOC));
    let (st, _) = apply_start(plan, "/home/user/.cache/npkg");
    let (st, action) = apply_step(st, &ApplyEvent::WriteOk);
    assert!(matches!(action, ApplyAction::Rebuild));
    let (st, action) = apply_step(st, &ApplyEvent::RebuildFailed);
    match action {
        ApplyAction::WriteFile { path, text } => {
            assert_eq!(path, "/etc/nixos/configuration.nix");
            assert_eq!(text, DOC);
        }
        _ => panic!("a failed rebuild must write the pre-mutation text back"),
    }
    let (_, action) = apply_step(st, &ApplyEvent::WriteOk);
    match action {
        ApplyAction::Finish(ApplyOutcome::Failed(OperateError::CmdError)) => {}
        _ => panic!("the rebuild failure must be surfaced after the restore"),
    }
}

// When even the restore cannot be written, both conditions surface: the
// outcome names the directory and stands for the rebuild failure as well.
#[test]
fn restore_failure_reports_directory() {
    let opts = system_opts(&["curl"], &["htop"]);
    let plan = proceed(pkinstall(&opts, DOC));
    let (st, _) = apply_start(plan, "/home/user/.cache/npkg");
    let (st, _) = apply_step(st, &ApplyEvent::WriteOk);
    let (st, _) = apply_step(st, &ApplyEvent::RebuildFailed);
    let (st, _) = apply_step(st, &ApplyEvent::WriteFailed { target_is_file: true });
    let (st, _) = apply_step(st, &ApplyEvent::StageOk);
    let (_, action) = apply_step(st, &ApplyEvent::CopyFailed);
    match action {
        ApplyAction::Finish(ApplyOutcome::RestoreFailed { dir }) => {
            assert_eq!(dir, "/etc/nixos");
        }
        _ => panic!("a failed restore must be reported as such"),
    }
}

// A write failure on a path that is not an existing file gets no elevation
// fallback.
#[test]
fn write_failure_without_file_is_fatal() {
    let opts = system_opts(&["curl"], &["htop"]);
    let plan = proceed(pkinstall(&opts, DOC));
    let (st, _) = apply_start(plan, "/home/user/.cache/npkg");
    let (_, action) = apply_step(st, &ApplyEvent::WriteFailed { target_is_file: false });
    match action {
        ApplyAction::Finish(ApplyOutcome::Failed(OperateError::WriteError(dir))) => {
            assert_eq!(dir, "/etc/nixos");
        }
        _ => panic!("a missing target must be a write error at once"),
    }
}

// An alternate output path never gets the elevation fallback.
#[test]
fn alternate_path_gets_no_elevation() {
    let mut opts = system_opts(&["curl"], &["htop"]);
    opts.output = Some("/tmp/out.nix".to_string());
    let plan = proceed(pkinstall(&opts, DOC));
    let (st, _) = apply_start(plan, "/home/user/.cache/npkg");
    let (_, action) = apply_step(st, &ApplyEvent::WriteFailed { target_is_file: true });
    match action {
        ApplyAction::Finish(ApplyOutcome::Failed(OperateError::WriteError(dir))) => {
            assert_eq!(dir, "/tmp");
        }
        _ => panic!("an alternate path must not be written with elevation"),
    }
}

#[test]
fn plain_dry_run_writes_original_path() {
    let mut opts = system_opts(&["curl"], &["htop"]);
    opts.dryrun = true;
    let plan = proceed(pkinstall(&opts, DOC));
    assert!(plan.dryrun);
    assert!(!plan.alternate);
    assert_eq!(plan.outfile, "/etc/nixos/configuration.nix");
    let (st, _) = apply_start(plan, "/home/user/.cache/npkg");
    let (_, action) = apply_step(st, &ApplyEvent::WriteOk);
    assert!(matches!(action, ApplyAction::Finish(ApplyOutcome::Written)));
}

#[test]
fn malformed_document_stops_planning() {
    let opts = system_opts(&["curl"], &[]);
    assert!(pkinstall(&opts, "{ nothing = true; }").is_err());
}

#[test]
fn cfgoperate_remove_plans_removal() {
    let doc = "{ environment.systemPackages = with pkgs; [ htop curl ]; }";
    let opts = system_opts(&["curl"], &["htop", "curl"]);
    let plan = proceed(cfgoperate(&opts, &Actions::Remove, doc));
    assert_eq!(syspkgs(&plan.candidate).unwrap(), vec!["htop"]);
}

#[test]
fn env_install_check_builds_command() {
    let opts = system_opts(&["htop", "curl"], &["htop"]);
    let cmd = envinstall_check(&opts).expect("one package is new");
    assert_eq!(cmd.program, "nix-env");
    assert_eq!(cmd.args, vec!["-iA", "nixos.curl"]);
    let nothing = envinstall_check(&system_opts(&["htop"], &["htop"]));
    assert!(nothing.is_none());
}

#[test]
fn env_remove_check_maps_names() {
    let mut index = NameIndex::new();
    assert!(index.insert("htop".to_string(), "htop-3.2.2".to_string()));
    let opts = system_opts(&["htop", "vim"], &["htop"]);
    let cmd = envremove_check(&opts, &index).expect("one package is installed");
    assert_eq!(cmd.program, "nix-env");
    assert_eq!(cmd.args, vec!["-e", "htop-3.2.2"]);
    let nothing = envremove_check(&system_opts(&["vim"], &["htop"]), &index);
    assert!(nothing.is_none());
}

#[test]
fn cfgswitch_picks_the_rebuild() {
    let sys = cfgswitch(&system_opts(&[], &[]));
    assert_eq!(sys.program, "nixos-rebuild");
    assert_eq!(sys.args, vec!["switch"]);
    assert!(sys.elevate);

    let mut home = system_opts(&[], &[]);
    home.pkgmgr = PackageTypes::Home;
    home.flake = Some("/home/user/nix#user".to_string());
    let cmd = cfgswitch(&home);
    assert_eq!(cmd.program, "home-manager");
    assert_eq!(cmd.args, vec!["switch", "--flake", "/home/user/nix#user"]);
    assert!(!cmd.elevate);

    let mut sysflake = system_opts(&[], &[]);
    sysflake.flake = Some("/etc/nixos#host".to_string());
    let cmd = cfgswitch(&sysflake);
    assert_eq!(cmd.args, vec!["switch", "--flake", "/etc/nixos#host", "--use-remote-sudo"]);
    assert!(cmd.elevate);
}

#[test]
fn chnupdate_sequences_channel_updates() {
    let plain = chnupdate(&system_opts(&[], &[]));
    assert_eq!(plain.len(), 2);
    assert_eq!(plain[0].program, "nix-channel");
    assert!(!plain[0].elevate);
    assert!(plain[1].elevate);

    let mut with_flake = system_opts(&[], &[]);
    with_flake.flake = Some("/etc/nixos#host".to_string());
    let cmds = chnupdate(&with_flake);
    assert_eq!(cmds.len(), 3);
    assert_eq!(cmds[2].program, "nix");
    assert_eq!(cmds[2].args, vec!["flake", "update", "/etc/nixos"]);
}

#[test]
fn path_helpers() {
    let p = "/etc/nixos/configuration.nix".to_string();
    assert_eq!(parent_dir(&p), "/etc/nixos");
    assert_eq!(base_name(&p), "configuration.nix");
    let bare = "configuration.nix".to_string();
    assert_eq!(parent_dir(&bare), "");
    assert_eq!(base_name(&bare), "configuration.nix");
}

// The state machine refuses nothing it promised: driving a full forward and
// restore cycle visits only the planned paths.
#[test]
fn machine_actions_name_only_planned_paths() {
    let opts = system_opts(&["curl"], &["htop"]);
    let plan = proceed(pkinstall(&opts, DOC));
    let outfile = plan.outfile.clone();
    let cachefile = "/cache/configuration.nix".to_string();
    let mut st: ApplyState;
    let mut action: ApplyAction;
    let (s, a) = apply_start(plan, "/cache");
    st = s;
    action = a;
    let events = [
        ApplyEvent::WriteFailed { target_is_file: true },
        ApplyEvent::StageOk,
        ApplyEvent::CopyOk,
        ApplyEvent::RebuildFailed,
        ApplyEvent::WriteFailed { target_is_file: true },
        ApplyEvent::StageOk,
        ApplyEvent::CopyOk,
    ];
    for ev in events.iter() {
        match &action {
            ApplyAction::WriteFile { path, .. } => assert_eq!(*path, outfile),
            ApplyAction::StageFile { path, .. } => assert_eq!(*path, cachefile),
            ApplyAction::ElevatedCopy { from, to } => {
                assert_eq!(*from, cachefile);
                assert_eq!(*to, outfile);
            }
            ApplyAction::Rebuild => {}
            ApplyAction::Finish(_) => panic!("the sequence ended too early"),
        }
        let (s, a) = apply_step(st, ev);
        st = s;
        action = a;
    }
    assert!(matches!(action, ApplyAction::Finish(ApplyOutcome::Failed(OperateError::CmdError))));
}
