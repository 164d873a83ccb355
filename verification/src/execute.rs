//! Descriptions of the external process invocations the tool performs. The
//! functions here only decide the program, its arguments and whether the
//! call needs elevated privilege; the surrounding binary spawns the
//! processes and interprets their exit status.
use vstd::prelude::*;
use vstd::string::StringExecFns;
use crate::chars::chars_to_string;
use crate::chars::to_chars;
use crate::scan::find_char_at;
use crate::scan::find_char_from;
use crate::scan::subvec;

verus! {

/// Why running an external step failed.
pub enum ExecuteError {
    /// Running a command failed.
    CmdError,
    /// Writing to a file failed; the path to the file is included.
    WriteError(String),
}

/// One external process invocation, fully described: the program, its
/// arguments in order, and whether it must run with elevated privilege.
pub struct Cmd {
    pub program: String,
    pub args: Vec<String>,
    pub elevate: bool,
}

/// The attribute path prefix each environment-install argument receives: the
/// packages must live in the default channel.
pub open spec fn env_install_arg(p: Seq<char>) -> Seq<char> {
    "nixos."@ + p
}

fn string_lit(s: &str) -> (r: String)
    ensures
        r@ == s@,
{
    String::from_str(s)
}

/// Describes `nix-env -iA nixos.<pkg> ...`, which installs the packages
/// into the imperative environment.
pub fn envinstall(pkgs: &Vec<String>) -> (r: Cmd)
    ensures
        r.program@ == "nix-env"@,
        !r.elevate,
        r.args.deep_view().len() == 1 + pkgs.deep_view().len(),
        r.args.deep_view()[0] == "-iA"@,
        forall|i: int|
            0 <= i < pkgs.deep_view().len() ==> #[trigger] r.args.deep_view()[i + 1]
                == env_install_arg(pkgs.deep_view()[i]),
{
    let mut args: Vec<String> = Vec::new();
    args.push(string_lit("-iA"));
    let mut i: usize = 0;
    while i < pkgs.len()
        invariant
            i <= pkgs@.len(),
            pkgs.deep_view().len() == pkgs@.len(),
            args.deep_view().len() == 1 + i,
            args.deep_view()[0] == "-iA"@,
            forall|x: int|
                0 <= x < i ==> #[trigger] args.deep_view()[x + 1] == env_install_arg(
                    pkgs.deep_view()[x],
                ),
        decreases pkgs@.len() - i,
    {
        let ghost a0 = args.deep_view();
        let a = string_lit("nixos.").concat(pkgs[i].as_str());
        assert(pkgs.deep_view()[i as int] == pkgs@[i as int]@);
        args.push(a);
        assert(args.deep_view() =~= a0.push(env_install_arg(pkgs.deep_view()[i as int])));
        i = i + 1;
    }
    Cmd { program: string_lit("nix-env"), args, elevate: false }
}

/// Describes `nix-env -e <pkg> ...`, which uninstalls the packages from the
/// imperative environment by name.
pub fn envremove(pkgs: &Vec<String>) -> (r: Cmd)
    ensures
        r.program@ == "nix-env"@,
        !r.elevate,
        r.args.deep_view().len() == 1 + pkgs.deep_view().len(),
        r.args.deep_view()[0] == "-e"@,
        forall|i: int|
            0 <= i < pkgs.deep_view().len() ==> #[trigger] r.args.deep_view()[i + 1]
                == pkgs.deep_view()[i],
{
    let mut args: Vec<String> = Vec::new();
    args.push(string_lit("-e"));
    let mut i: usize = 0;
    while i < pkgs.len()
        invariant
            i <= pkgs@.len(),
            pkgs.deep_view().len() == pkgs@.len(),
            args.deep_view().len() == 1 + i,
            args.deep_view()[0] == "-e"@,
            forall|x: int|
                0 <= x < i ==> #[trigger] args.deep_view()[x + 1] == pkgs.deep_view()[x],
        decreases pkgs@.len() - i,
    {
        let ghost a0 = args.deep_view();
        let a = pkgs[i].clone();
        assert(pkgs.deep_view()[i as int] == pkgs@[i as int]@);
        args.push(a);
        assert(args.deep_view() =~= a0.push(pkgs.deep_view()[i as int]));
        i = i + 1;
    }
    Cmd { program: string_lit("nix-env"), args, elevate: false }
}

/// Describes `nix-env -u *`, which updates every package of the imperative
/// environment.
pub fn envupdate() -> (r: Cmd)
    ensures
        r.program@ == "nix-env"@,
        !r.elevate,
        r.args.deep_view() =~= seq!["-u"@, "*"@],
{
    let mut args: Vec<String> = Vec::new();
    args.push(string_lit("-u"));
    args.push(string_lit("*"));
    assert(args.deep_view() =~= seq!["-u"@, "*"@]);
    Cmd { program: string_lit("nix-env"), args, elevate: false }
}

/// Describes `nixos-rebuild switch`, which needs elevated privilege.
pub fn systemswitch() -> (r: Cmd)
    ensures
        r.program@ == "nixos-rebuild"@,
        r.elevate,
        r.args.deep_view() =~= seq!["switch"@],
{
    let mut args: Vec<String> = Vec::new();
    args.push(string_lit("switch"));
    assert(args.deep_view() =~= seq!["switch"@]);
    Cmd { program: string_lit("nixos-rebuild"), args, elevate: true }
}

/// Describes `nixos-rebuild switch --flake <ref> --use-remote-sudo`: a
/// system rebuild from a declarative-build reference still needs elevated
/// privilege, plus the remote-sudo accommodation flag.
pub fn systemflakeswitch(flakepath: &str) -> (r: Cmd)
    ensures
        r.program@ == "nixos-rebuild"@,
        r.elevate,
        r.args.deep_view() =~= seq!["switch"@, "--flake"@, flakepath@, "--use-remote-sudo"@],
{
    let mut args: Vec<String> = Vec::new();
    args.push(string_lit("switch"));
    args.push(string_lit("--flake"));
    args.push(string_lit(flakepath));
    args.push(string_lit("--use-remote-sudo"));
    assert(args.deep_view() =~= seq!["switch"@, "--flake"@, flakepath@, "--use-remote-sudo"@]);
    Cmd { program: string_lit("nixos-rebuild"), args, elevate: true }
}

/// Describes `home-manager switch`; a user rebuild never needs elevation.
pub fn homeswitch() -> (r: Cmd)
    ensures
        r.program@ == "home-manager"@,
        !r.elevate,
        r.args.deep_view() =~= seq!["switch"@],
{
    let mut args: Vec<String> = Vec::new();
    args.push(string_lit("switch"));
    assert(args.deep_view() =~= seq!["switch"@]);
    Cmd { program: string_lit("home-manager"), args, elevate: false }
}

/// Describes `home-manager switch --flake <ref>`, without elevation.
pub fn homeflakeswitch(flakepath: &str) -> (r: Cmd)
    ensures
        r.program@ == "home-manager"@,
        !r.elevate,
        r.args.deep_view() =~= seq!["switch"@, "--flake"@, flakepath@],
{
    let mut args: Vec<String> = Vec::new();
    args.push(string_lit("switch"));
    args.push(string_lit("--flake"));
    args.push(string_lit(flakepath));
    assert(args.deep_view() =~= seq!["switch"@, "--flake"@, flakepath@]);
    Cmd { program: string_lit("home-manager"), args, elevate: false }
}

/// Describes `nix-channel --update`.
pub fn updatechannel() -> (r: Cmd)
    ensures
        r.program@ == "nix-channel"@,
        !r.elevate,
        r.args.deep_view() =~= seq!["--update"@],
{
    let mut args: Vec<String> = Vec::new();
    args.push(string_lit("--update"));
    assert(args.deep_view() =~= seq!["--update"@]);
    Cmd { program: string_lit("nix-channel"), args, elevate: false }
}

/// The flake reference without its attribute selector: everything before the
/// first `#`, or the whole reference when there is none.
pub open spec fn flake_base(s: Seq<char>) -> Seq<char> {
    match find_char_from(s, '#', 0) {
        Some(m) => s.take(m),
        None => s,
    }
}

/// Describes `nix flake update <base>`, where the base is the flake
/// reference stripped of its attribute selector.
pub fn updateflake(flake: &str) -> (r: Cmd)
    ensures
        r.program@ == "nix"@,
        !r.elevate,
        r.args.deep_view() =~= seq!["flake"@, "update"@, flake_base(flake@)],
{
    let v = to_chars(flake);
    let base = match find_char_at(&v, '#', 0) {
        Some(m) => {
            let w = subvec(&v, 0, m);
            assert(w@ =~= v@.take(m as int));
            chars_to_string(&w)
        },
        None => {
            let w = subvec(&v, 0, v.len());
            assert(w@ =~= v@);
            chars_to_string(&w)
        },
    };
    let mut args: Vec<String> = Vec::new();
    args.push(string_lit("flake"));
    args.push(string_lit("update"));
    args.push(base);
    assert(args.deep_view() =~= seq!["flake"@, "update"@, flake_base(flake@)]);
    Cmd { program: string_lit("nix"), args, elevate: false }
}

} // verus!
