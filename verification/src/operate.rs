//! The apply orchestrator. One invocation computes the effective set,
//! produces the candidate document text, and then drives the apply sequence
//! as a state machine: write the candidate (falling back to a staged copy
//! through the elevation helper when the direct write hits a permission
//! wall), rebuild unless the run is dry, and write the pre-mutation text
//! back when the rebuild fails. The surrounding binary performs each issued
//! action and reports the outcome back as an event; every decision between
//! two actions is made here.
use vstd::prelude::*;
use vstd::string::StringExecFns;
use crate::chars::subvec_str;
use crate::chars::to_chars;
use crate::diff::compute_effective;
use crate::diff::effective_set;
use crate::diff::lemma_effective_sub;
use crate::diff::Actions;
use crate::execute::env_install_arg;
use crate::execute::envinstall;
use crate::execute::envremove;
use crate::execute::flake_base;
use crate::execute::homeflakeswitch;
use crate::execute::homeswitch;
use crate::execute::systemflakeswitch;
use crate::execute::systemswitch;
use crate::execute::updatechannel;
use crate::execute::updateflake;
use crate::execute::Cmd;
use crate::mutate::all_valid;
use crate::mutate::install_text;
use crate::mutate::pkrm;
use crate::mutate::pkwrite;
use crate::mutate::remove_text;
use crate::mutate::MutateError;
use crate::normalize::lookup_left;
use crate::normalize::pname_to_name;
use crate::normalize::NameIndex;
use crate::scan::locate;
use crate::NpkgData;
use crate::PackageTypes;

verus! {

/// Why an apply sequence failed.
#[derive(Debug)]
pub enum OperateError {
    /// An external command could not be run or exited with failure.
    CmdError,
    /// Neither the direct nor the elevated write went through; the value
    /// names the directory of the file that could not be written.
    WriteError(String),
}

/// The attribute that holds the package list of a declarative target.
pub open spec fn attr_for(t: PackageTypes) -> Seq<char> {
    match t {
        PackageTypes::System => "environment.systemPackages"@,
        _ => "home.packages"@,
    }
}

fn attr_str(t: &PackageTypes) -> (r: &'static str)
    ensures
        r@ == attr_for(*t),
        r@.len() >= 1,
{
    match t {
        PackageTypes::System => {
            proof {
                reveal_strlit("environment.systemPackages");
            }
            "environment.systemPackages"
        },
        _ => {
            proof {
                reveal_strlit("home.packages");
            }
            "home.packages"
        },
    }
}

// ---------------------------------------------------------------------------
// Paths.
// ---------------------------------------------------------------------------

/// The index just past the last `/` of a path, `0` when it has none.
pub open spec fn base_split(s: Seq<char>) -> int
    decreases s.len(),
{
    if s.len() == 0 {
        0
    } else if s[s.len() - 1] == '/' {
        s.len() as int
    } else {
        base_split(s.take(s.len() - 1))
    }
}

/// The directory part of a path: everything before its last `/`, the empty
/// string when it has none.
pub open spec fn parent_dir_of(s: Seq<char>) -> Seq<char> {
    if base_split(s) == 0 {
        Seq::empty()
    } else {
        s.take(base_split(s) - 1)
    }
}

/// The file part of a path: everything after its last `/`.
pub open spec fn base_name_of(s: Seq<char>) -> Seq<char> {
    s.skip(base_split(s))
}

proof fn lemma_base_split(s: Seq<char>)
    ensures
        0 <= base_split(s) <= s.len(),
    decreases s.len(),
{
    if s.len() > 0 && s[s.len() - 1] != '/' {
        lemma_base_split(s.take(s.len() - 1));
    }
}

fn path_split(v: &Vec<char>) -> (r: usize)
    ensures
        r == base_split(v@),
{
    let mut j = v.len();
    assert(v@.take(v@.len() as int) =~= v@);
    while j > 0 && v[j - 1] != '/'
        invariant
            j <= v@.len(),
            base_split(v@) == base_split(v@.take(j as int)),
        decreases j,
    {
        proof {
            assert(v@.take(j as int)[j - 1] == v@[j - 1]);
            assert(v@.take(j as int).take(j - 1) =~= v@.take(j - 1));
        }
        j = j - 1;
    }
    proof {
        if j > 0 {
            assert(v@.take(j as int)[j - 1] == v@[j - 1]);
        }
        lemma_base_split(v@);
    }
    j
}

/// The directory that holds the file the path names, as the error messages
/// report it: the path up to its last `/`, or the empty string.
pub fn parent_dir(path: &String) -> (r: String)
    ensures
        r@ == parent_dir_of(path@),
{
    let v = to_chars(path.as_str());
    let split = path_split(&v);
    proof {
        lemma_base_split(v@);
    }
    if split == 0 {
        let r = String::new();
        assert(r@ =~= parent_dir_of(path@));
        r
    } else {
        let w = subvec_str(&v, 0, split - 1);
        w
    }
}

/// The file name the path ends in.
pub fn base_name(path: &String) -> (r: String)
    ensures
        r@ == base_name_of(path@),
{
    let v = to_chars(path.as_str());
    let split = path_split(&v);
    proof {
        lemma_base_split(v@);
    }
    subvec_str(&v, split, v.len())
}

// ---------------------------------------------------------------------------
// Planning: diff, mutate, and where the result goes.
// ---------------------------------------------------------------------------

/// Everything the apply sequence needs, computed before any side effect:
/// the candidate text, where it goes, the pre-mutation text kept for the
/// rollback, and the flags that shape the sequence.
pub struct ApplyPlan {
    /// The path the candidate is written to.
    pub outfile: String,
    /// The mutated document text.
    pub candidate: String,
    /// The document text before the mutation, written back when the rebuild
    /// fails.
    pub original: String,
    /// No rebuild is invoked; the written candidate is the result.
    pub dryrun: bool,
    /// The candidate goes to a caller-chosen path instead of the document's
    /// own; this forces a dry run and rules out the elevation fallback.
    pub alternate: bool,
}

/// What planning concluded: either the request changes nothing, or here is
/// the mutation to apply.
pub enum PlanOutcome {
    /// The effective set is empty: terminal success, nothing may be written
    /// or rebuilt.
    NoOp,
    Proceed(ApplyPlan),
}

/// The candidate text an action produces.
pub open spec fn mutated_text(
    doc: Seq<char>,
    attr: Seq<char>,
    eff: Seq<Seq<char>>,
    action: Actions,
) -> Seq<char> {
    match action {
        Actions::Install => install_text(doc, attr, eff),
        Actions::Remove => remove_text(doc, attr, eff),
    }
}

/// The path the candidate is written to: the caller's override when one was
/// given, else the target's own configuration path.
pub open spec fn outfile_view(opts: NpkgData) -> Seq<char> {
    match opts.output {
        Some(o) => o@,
        None => if opts.pkgmgr is System {
            opts.syscfg@
        } else {
            opts.hmcfg@
        },
    }
}

/// Plans one declarative mutation: computes the effective set against the
/// installed set, mutates the document text, and fixes output path and
/// dry-run mode. Performs no I/O. An empty effective set yields `NoOp`;
/// a document without the attribute's list is the error.
pub fn cfgoperate(opts: &NpkgData, action: &Actions, doc: &str) -> (r: Result<
    PlanOutcome,
    MutateError,
>)
    requires
        opts.pkgmgr.is_declarative(),
        all_valid(opts.pkgs.deep_view()),
    ensures
        ({
            let attr = attr_for(opts.pkgmgr);
            let eff = effective_set(opts.pkgs.deep_view(), opts.currpkgs.deep_view(), *action);
            &&& (r matches Ok(out) && out is NoOp <==> eff.len() == 0)
            &&& (r is Err <==> eff.len() > 0 && locate(doc@, attr) is None)
            &&& (r matches Ok(out) ==> (out matches PlanOutcome::Proceed(plan) ==> {
                &&& eff.len() > 0
                &&& locate(doc@, attr) is Some
                &&& plan.candidate@ == mutated_text(doc@, attr, eff, *action)
                &&& plan.original@ == doc@
                &&& plan.outfile@ == outfile_view(*opts)
                &&& plan.dryrun == (opts.dryrun || opts.output is Some)
                &&& plan.alternate == (opts.output is Some)
            }))
        }),
{
    let eff = compute_effective(&opts.pkgs, &opts.currpkgs, action);
    if eff.len() == 0 {
        return Ok(PlanOutcome::NoOp);
    }
    proof {
        lemma_effective_sub(opts.pkgs.deep_view(), opts.currpkgs.deep_view(), *action);
        assert forall|k: int| 0 <= k < eff.deep_view().len() implies crate::mutate::valid_pkg(
            #[trigger] eff.deep_view()[k],
        ) by {
            let p = eff.deep_view()[k];
            assert(opts.pkgs.deep_view().contains(p));
            let j = choose|j: int|
                0 <= j < opts.pkgs.deep_view().len() && opts.pkgs.deep_view()[j] == p;
            assert(crate::mutate::valid_pkg(opts.pkgs.deep_view()[j]));
        }
    }
    let attr = attr_str(&opts.pkgmgr);
    let mutated = match action {
        Actions::Install => pkwrite(eff, doc, Some(attr)),
        Actions::Remove => pkrm(eff, doc, Some(attr)),
    };
    let candidate = match mutated {
        Ok(x) => x,
        Err(e) => {
            return Err(e);
        },
    };
    let outfile = match &opts.output {
        Some(o) => o.clone(),
        None => match &opts.pkgmgr {
            PackageTypes::System => opts.syscfg.clone(),
            _ => opts.hmcfg.clone(),
        },
    };
    let original = String::from_str(doc);
    Ok(
        PlanOutcome::Proceed(
            ApplyPlan {
                outfile,
                candidate,
                original,
                dryrun: opts.dryrun || opts.output.is_some(),
                alternate: opts.output.is_some(),
            },
        ),
    )
}

/// Plans an install into the target's configuration document.
pub fn pkinstall(opts: &NpkgData, doc: &str) -> (r: Result<PlanOutcome, MutateError>)
    requires
        opts.pkgmgr.is_declarative(),
        all_valid(opts.pkgs.deep_view()),
    ensures
        ({
            let attr = attr_for(opts.pkgmgr);
            let eff = effective_set(
                opts.pkgs.deep_view(),
                opts.currpkgs.deep_view(),
                Actions::Install,
            );
            &&& (r matches Ok(out) && out is NoOp <==> eff.len() == 0)
            &&& (r is Err <==> eff.len() > 0 && locate(doc@, attr) is None)
            &&& (r matches Ok(out) ==> (out matches PlanOutcome::Proceed(plan) ==> {
                &&& plan.candidate@ == install_text(doc@, attr, eff)
                &&& plan.original@ == doc@
                &&& plan.outfile@ == outfile_view(*opts)
                &&& plan.dryrun == (opts.dryrun || opts.output is Some)
                &&& plan.alternate == (opts.output is Some)
            }))
        }),
{
    cfgoperate(opts, &Actions::Install, doc)
}

/// Plans a removal from the target's configuration document.
pub fn pkremove(opts: &NpkgData, doc: &str) -> (r: Result<PlanOutcome, MutateError>)
    requires
        opts.pkgmgr.is_declarative(),
        all_valid(opts.pkgs.deep_view()),
    ensures
        ({
            let attr = attr_for(opts.pkgmgr);
            let eff = effective_set(
                opts.pkgs.deep_view(),
                opts.currpkgs.deep_view(),
                Actions::Remove,
            );
            &&& (r matches Ok(out) && out is NoOp <==> eff.len() == 0)
            &&& (r is Err <==> eff.len() > 0 && locate(doc@, attr) is None)
            &&& (r matches Ok(out) ==> (out matches PlanOutcome::Proceed(plan) ==> {
                &&& plan.candidate@ == remove_text(doc@, attr, eff)
                &&& plan.original@ == doc@
                &&& plan.outfile@ == outfile_view(*opts)
                &&& plan.dryrun == (opts.dryrun || opts.output is Some)
                &&& plan.alternate == (opts.output is Some)
            }))
        }),
{
    cfgoperate(opts, &Actions::Remove, doc)
}

/// Filters the requested packages against the imperative environment and
/// describes the install command, or reports that there is nothing to do.
pub fn envinstall_check(opts: &NpkgData) -> (r: Option<Cmd>)
    ensures
        ({
            let eff = effective_set(
                opts.pkgs.deep_view(),
                opts.currpkgs.deep_view(),
                Actions::Install,
            );
            &&& (r is Some <==> eff.len() > 0)
            &&& (r matches Some(c) ==> {
                &&& c.program@ == "nix-env"@
                &&& !c.elevate
                &&& c.args.deep_view().len() == 1 + eff.len()
                &&& c.args.deep_view()[0] == "-iA"@
                &&& forall|i: int|
                    0 <= i < eff.len() ==> #[trigger] c.args.deep_view()[i + 1] == env_install_arg(
                        eff[i],
                    )
            })
        }),
{
    let eff = compute_effective(&opts.pkgs, &opts.currpkgs, &Actions::Install);
    if eff.len() == 0 {
        None
    } else {
        Some(envinstall(&eff))
    }
}

/// Filters the requested packages against the imperative environment, maps
/// the survivors to the name form the uninstall command expects, and
/// describes that command, or reports that there is nothing to do.
pub fn envremove_check(opts: &NpkgData, index: &NameIndex) -> (r: Option<Cmd>)
    ensures
        ({
            let eff = effective_set(
                opts.pkgs.deep_view(),
                opts.currpkgs.deep_view(),
                Actions::Remove,
            );
            &&& (r is Some <==> eff.len() > 0)
            &&& (r matches Some(c) ==> {
                &&& c.program@ == "nix-env"@
                &&& !c.elevate
                &&& c.args.deep_view().len() == 1 + eff.len()
                &&& c.args.deep_view()[0] == "-e"@
                &&& forall|i: int|
                    0 <= i < eff.len() ==> #[trigger] c.args.deep_view()[i + 1] == lookup_left(
                        index@,
                        eff[i],
                    )
            })
        }),
{
    let eff = compute_effective(&opts.pkgs, &opts.currpkgs, &Actions::Remove);
    if eff.len() == 0 {
        None
    } else {
        let mapped = pname_to_name(&eff, index);
        Some(envremove(&mapped))
    }
}

/// Describes the rebuild that reconciles the running target with its
/// configuration document: the system rebuild needs elevated privilege, the
/// user rebuild does not, and a configured declarative-build reference adds
/// its flags.
pub fn cfgswitch(opts: &NpkgData) -> (r: Cmd)
    requires
        opts.pkgmgr.is_declarative(),
    ensures
        opts.pkgmgr is System ==> r.program@ == "nixos-rebuild"@ && r.elevate,
        opts.pkgmgr is Home ==> r.program@ == "home-manager"@ && !r.elevate,
        opts.flake is None ==> r.args.deep_view() =~= seq!["switch"@],
        opts.pkgmgr is System ==> (opts.flake matches Some(fl) ==> r.args.deep_view() =~= seq![
            "switch"@,
            "--flake"@,
            fl@,
            "--use-remote-sudo"@,
        ]),
        opts.pkgmgr is Home ==> (opts.flake matches Some(fl) ==> r.args.deep_view() =~= seq![
            "switch"@,
            "--flake"@,
            fl@,
        ]),
{
    match &opts.flake {
        None => match &opts.pkgmgr {
            PackageTypes::System => systemswitch(),
            _ => homeswitch(),
        },
        Some(fl) => match &opts.pkgmgr {
            PackageTypes::System => systemflakeswitch(fl.as_str()),
            _ => homeflakeswitch(fl.as_str()),
        },
    }
}

// ---------------------------------------------------------------------------
// The apply sequence as a state machine. The surrounding binary performs the
// issued action, reports what happened as an event, and asks for the next
// step; every decision lives here and is verified.
// ---------------------------------------------------------------------------

/// What the surrounding binary reports back after performing one action.
pub enum ApplyEvent {
    /// The direct write went through.
    WriteOk,
    /// The direct write failed; `target_is_file` says whether the target
    /// path names an existing file, which is what distinguishes a
    /// permission wall (worth the elevation fallback) from a missing file.
    WriteFailed { target_is_file: bool },
    /// The staging write into the cache directory went through.
    StageOk,
    /// The staging write failed.
    StageFailed,
    /// The elevation helper copied the staged file into place.
    CopyOk,
    /// The elevation helper could not be run or exited with failure.
    CopyFailed,
    /// The rebuild exited successfully.
    RebuildOk,
    /// The rebuild could not be run or exited with failure.
    RebuildFailed,
}

/// How an apply sequence ends.
pub enum ApplyOutcome {
    /// The candidate text is in place and the rebuild succeeded.
    Applied,
    /// Dry run: the candidate text was written and no rebuild was asked
    /// for.
    Written,
    /// The sequence failed and the document on disk holds its pre-mutation
    /// text; a write failure names the directory of the file that could not
    /// be written.
    Failed(OperateError),
    /// The rebuild failed and the pre-mutation text could not be written
    /// back either: the mutated document is still on disk in the named
    /// directory, and the rebuild failure stands as well.
    RestoreFailed { dir: String },
}

/// What the surrounding binary must do next.
pub enum ApplyAction {
    /// Write `text` to `path` directly.
    WriteFile { path: String, text: String },
    /// Write `text` to the staging path in the cache directory.
    StageFile { path: String, text: String },
    /// Copy the staged file into place through the elevation helper.
    ElevatedCopy { from: String, to: String },
    /// Run the rebuild for the target.
    Rebuild,
    /// The sequence is over.
    Finish(ApplyOutcome),
}

/// Which action is outstanding.
pub enum ApplyPhase {
    /// The candidate is being written to the output path.
    Writing,
    /// The candidate is being staged for the elevation fallback.
    Staging,
    /// The staged candidate is being copied into place with elevation.
    Copying,
    /// The rebuild is running.
    Rebuilding,
    /// The rebuild failed; the pre-mutation text is being written back.
    RestoreWriting,
    /// The pre-mutation text is being staged for the elevation fallback.
    RestoreStaging,
    /// The staged pre-mutation text is being copied into place.
    RestoreCopying,
    /// Terminal.
    Done,
}

pub struct ApplyState {
    pub plan: ApplyPlan,
    /// The staging path: the output file's name inside the cache directory.
    pub cachefile: String,
    pub phase: ApplyPhase,
}

/// A ghost view of an outcome, over character sequences.
pub enum OutcomeView {
    AppliedView,
    WrittenView,
    FailedCmdView,
    FailedWriteView(Seq<char>),
    RestoreFailedView(Seq<char>),
}

/// A ghost view of an action, over character sequences.
pub enum ActionView {
    WriteFileView { path: Seq<char>, text: Seq<char> },
    StageFileView { path: Seq<char>, text: Seq<char> },
    ElevatedCopyView { from: Seq<char>, to: Seq<char> },
    RebuildView,
    FinishView(OutcomeView),
}

pub open spec fn outcome_view(o: ApplyOutcome) -> OutcomeView {
    match o {
        ApplyOutcome::Applied => OutcomeView::AppliedView,
        ApplyOutcome::Written => OutcomeView::WrittenView,
        ApplyOutcome::Failed(OperateError::CmdError) => OutcomeView::FailedCmdView,
        ApplyOutcome::Failed(OperateError::WriteError(d)) => OutcomeView::FailedWriteView(d@),
        ApplyOutcome::RestoreFailed { dir } => OutcomeView::RestoreFailedView(dir@),
    }
}

pub open spec fn action_view(a: ApplyAction) -> ActionView {
    match a {
        ApplyAction::WriteFile { path, text } => ActionView::WriteFileView {
            path: path@,
            text: text@,
        },
        ApplyAction::StageFile { path, text } => ActionView::StageFileView {
            path: path@,
            text: text@,
        },
        ApplyAction::ElevatedCopy { from, to } => ActionView::ElevatedCopyView {
            from: from@,
            to: to@,
        },
        ApplyAction::Rebuild => ActionView::RebuildView,
        ApplyAction::Finish(o) => ActionView::FinishView(outcome_view(o)),
    }
}

/// The event kinds the outstanding action of each phase can produce.
pub open spec fn event_fits(phase: ApplyPhase, ev: ApplyEvent) -> bool {
    match phase {
        ApplyPhase::Writing | ApplyPhase::RestoreWriting => ev is WriteOk || ev is WriteFailed,
        ApplyPhase::Staging | ApplyPhase::RestoreStaging => ev is StageOk || ev is StageFailed,
        ApplyPhase::Copying | ApplyPhase::RestoreCopying => ev is CopyOk || ev is CopyFailed,
        ApplyPhase::Rebuilding => ev is RebuildOk || ev is RebuildFailed,
        ApplyPhase::Done => false,
    }
}

/// The complete transition relation of the apply sequence: from the current
/// phase and the reported event to the next phase and the next action.
pub open spec fn step_view(st: ApplyState, ev: ApplyEvent) -> (ApplyPhase, ActionView) {
    let p = st.plan;
    let dir = OutcomeView::FailedWriteView(parent_dir_of(p.outfile@));
    let restore_dir = OutcomeView::RestoreFailedView(parent_dir_of(p.outfile@));
    match st.phase {
        ApplyPhase::Writing => match ev {
            ApplyEvent::WriteOk => if p.dryrun {
                (ApplyPhase::Done, ActionView::FinishView(OutcomeView::WrittenView))
            } else {
                (ApplyPhase::Rebuilding, ActionView::RebuildView)
            },
            ApplyEvent::WriteFailed { target_is_file } => if !p.alternate && target_is_file {
                (
                    ApplyPhase::Staging,
                    ActionView::StageFileView { path: st.cachefile@, text: p.candidate@ },
                )
            } else {
                (ApplyPhase::Done, ActionView::FinishView(dir))
            },
            _ => (ApplyPhase::Done, ActionView::RebuildView),
        },
        ApplyPhase::Staging => match ev {
            ApplyEvent::StageOk => (
                ApplyPhase::Copying,
                ActionView::ElevatedCopyView { from: st.cachefile@, to: p.outfile@ },
            ),
            _ => (ApplyPhase::Done, ActionView::FinishView(dir)),
        },
        ApplyPhase::Copying => match ev {
            ApplyEvent::CopyOk => if p.dryrun {
                (ApplyPhase::Done, ActionView::FinishView(OutcomeView::WrittenView))
            } else {
                (ApplyPhase::Rebuilding, ActionView::RebuildView)
            },
            _ => (ApplyPhase::Done, ActionView::FinishView(dir)),
        },
        ApplyPhase::Rebuilding => match ev {
            ApplyEvent::RebuildOk => (
                ApplyPhase::Done,
                ActionView::FinishView(OutcomeView::AppliedView),
            ),
            _ => (
                ApplyPhase::RestoreWriting,
                ActionView::WriteFileView { path: p.outfile@, text: p.original@ },
            ),
        },
        ApplyPhase::RestoreWriting => match ev {
            ApplyEvent::WriteOk => (
                ApplyPhase::Done,
                ActionView::FinishView(OutcomeView::FailedCmdView),
            ),
            ApplyEvent::WriteFailed { target_is_file } => if target_is_file {
                (
                    ApplyPhase::RestoreStaging,
                    ActionView::StageFileView { path: st.cachefile@, text: p.original@ },
                )
            } else {
                (ApplyPhase::Done, ActionView::FinishView(restore_dir))
            },
            _ => (ApplyPhase::Done, ActionView::RebuildView),
        },
        ApplyPhase::RestoreStaging => match ev {
            ApplyEvent::StageOk => (
                ApplyPhase::RestoreCopying,
                ActionView::ElevatedCopyView { from: st.cachefile@, to: p.outfile@ },
            ),
            _ => (ApplyPhase::Done, ActionView::FinishView(restore_dir)),
        },
        ApplyPhase::RestoreCopying => match ev {
            ApplyEvent::CopyOk => (
                ApplyPhase::Done,
                ActionView::FinishView(OutcomeView::FailedCmdView),
            ),
            _ => (ApplyPhase::Done, ActionView::FinishView(restore_dir)),
        },
        ApplyPhase::Done => (ApplyPhase::Done, ActionView::RebuildView),
    }
}

/// Starts the apply sequence: stakes out the staging path and issues the
/// first action, the direct write of the candidate to the output path.
pub fn apply_start(plan: ApplyPlan, cachedir: &str) -> (r: (ApplyState, ApplyAction))
    ensures
        r.0.plan == plan,
        r.0.cachefile@ == cachedir@ + "/"@ + base_name_of(plan.outfile@),
        r.0.phase is Writing,
        action_view(r.1) == (ActionView::WriteFileView {
            path: plan.outfile@,
            text: plan.candidate@,
        }),
{
    let base = base_name(&plan.outfile);
    let cachefile = String::from_str(cachedir).concat("/").concat(base.as_str());
    let action = ApplyAction::WriteFile {
        path: plan.outfile.clone(),
        text: plan.candidate.clone(),
    };
    (ApplyState { plan, cachefile, phase: ApplyPhase::Writing }, action)
}

/// Takes one step: consumes the event the last action produced and issues
/// the next action, exactly as `step_view` lays the sequence out.
pub fn apply_step(st: ApplyState, ev: &ApplyEvent) -> (r: (ApplyState, ApplyAction))
    requires
        event_fits(st.phase, *ev),
    ensures
        r.0.plan == st.plan,
        r.0.cachefile == st.cachefile,
        (r.0.phase, action_view(r.1)) == step_view(st, *ev),
{
    let (phase, action): (ApplyPhase, ApplyAction) = match st.phase {
        ApplyPhase::Writing => match ev {
            ApplyEvent::WriteOk => if st.plan.dryrun {
                (ApplyPhase::Done, ApplyAction::Finish(ApplyOutcome::Written))
            } else {
                (ApplyPhase::Rebuilding, ApplyAction::Rebuild)
            },
            ApplyEvent::WriteFailed { target_is_file } => if !st.plan.alternate
                && *target_is_file {
                (
                    ApplyPhase::Staging,
                    ApplyAction::StageFile {
                        path: st.cachefile.clone(),
                        text: st.plan.candidate.clone(),
                    },
                )
            } else {
                (
                    ApplyPhase::Done,
                    ApplyAction::Finish(
                        ApplyOutcome::Failed(OperateError::WriteError(parent_dir(&st.plan.outfile))),
                    ),
                )
            },
            _ => (ApplyPhase::Done, ApplyAction::Rebuild),
        },
        ApplyPhase::Staging => match ev {
            ApplyEvent::StageOk => (
                ApplyPhase::Copying,
                ApplyAction::ElevatedCopy {
                    from: st.cachefile.clone(),
                    to: st.plan.outfile.clone(),
                },
            ),
            _ => (
                ApplyPhase::Done,
                ApplyAction::Finish(
                    ApplyOutcome::Failed(OperateError::WriteError(parent_dir(&st.plan.outfile))),
                ),
            ),
        },
        ApplyPhase::Copying => match ev {
            ApplyEvent::CopyOk => if st.plan.dryrun {
                (ApplyPhase::Done, ApplyAction::Finish(ApplyOutcome::Written))
            } else {
                (ApplyPhase::Rebuilding, ApplyAction::Rebuild)
            },
            _ => (
                ApplyPhase::Done,
                ApplyAction::Finish(
                    ApplyOutcome::Failed(OperateError::WriteError(parent_dir(&st.plan.outfile))),
                ),
            ),
        },
        ApplyPhase::Rebuilding => match ev {
            ApplyEvent::RebuildOk => (
                ApplyPhase::Done,
                ApplyAction::Finish(ApplyOutcome::Applied),
            ),
            _ => (
                ApplyPhase::RestoreWriting,
                ApplyAction::WriteFile {
                    path: st.plan.outfile.clone(),
                    text: st.plan.original.clone(),
                },
            ),
        },
        ApplyPhase::RestoreWriting => match ev {
            ApplyEvent::WriteOk => (
                ApplyPhase::Done,
                ApplyAction::Finish(ApplyOutcome::Failed(OperateError::CmdError)),
            ),
            ApplyEvent::WriteFailed { target_is_file } => if *target_is_file {
                (
                    ApplyPhase::RestoreStaging,
                    ApplyAction::StageFile {
                        path: st.cachefile.clone(),
                        text: st.plan.original.clone(),
                    },
                )
            } else {
                (
                    ApplyPhase::Done,
                    ApplyAction::Finish(
                        ApplyOutcome::RestoreFailed { dir: parent_dir(&st.plan.outfile) },
                    ),
                )
            },
            _ => (ApplyPhase::Done, ApplyAction::Rebuild),
        },
        ApplyPhase::RestoreStaging => match ev {
            ApplyEvent::StageOk => (
                ApplyPhase::RestoreCopying,
                ApplyAction::ElevatedCopy {
                    from: st.cachefile.clone(),
                    to: st.plan.outfile.clone(),
                },
            ),
            _ => (
                ApplyPhase::Done,
                ApplyAction::Finish(
                    ApplyOutcome::RestoreFailed { dir: parent_dir(&st.plan.outfile) },
                ),
            ),
        },
        ApplyPhase::RestoreCopying => match ev {
            ApplyEvent::CopyOk => (
                ApplyPhase::Done,
                ApplyAction::Finish(ApplyOutcome::Failed(OperateError::CmdError)),
            ),
            _ => (
                ApplyPhase::Done,
                ApplyAction::Finish(
                    ApplyOutcome::RestoreFailed { dir: parent_dir(&st.plan.outfile) },
                ),
            ),
        },
        ApplyPhase::Done => (ApplyPhase::Done, ApplyAction::Rebuild),
    };
    (ApplyState { plan: st.plan, cachefile: st.cachefile, phase }, action)
}

// ---------------------------------------------------------------------------
// What the sequence guarantees about the document on disk.
// ---------------------------------------------------------------------------

/// The content of the output file after one more event, under the two
/// assumptions the sequence makes of its collaborators: a write or an
/// elevated copy that reports success put exactly its text in place, a
/// failed one left the file as it was, and the staging path is a different
/// file.
pub open spec fn next_disk(st: ApplyState, ev: ApplyEvent, disk: Seq<char>) -> Seq<char> {
    match st.phase {
        ApplyPhase::Writing => if ev is WriteOk {
            st.plan.candidate@
        } else {
            disk
        },
        ApplyPhase::Copying => if ev is CopyOk {
            st.plan.candidate@
        } else {
            disk
        },
        ApplyPhase::RestoreWriting => if ev is WriteOk {
            st.plan.original@
        } else {
            disk
        },
        ApplyPhase::RestoreCopying => if ev is CopyOk {
            st.plan.original@
        } else {
            disk
        },
        _ => disk,
    }
}

/// The invariant each phase maintains on the output file, when the sequence
/// writes the document's own path: until something is written the document
/// holds its pre-mutation text, and from the moment the rebuild can run the
/// candidate is in place.
pub open spec fn disk_inv(phase: ApplyPhase, plan: ApplyPlan, disk: Seq<char>) -> bool {
    match phase {
        ApplyPhase::Writing | ApplyPhase::Staging | ApplyPhase::Copying => disk == plan.original@,
        ApplyPhase::Rebuilding
        | ApplyPhase::RestoreWriting
        | ApplyPhase::RestoreStaging
        | ApplyPhase::RestoreCopying => disk == plan.candidate@,
        ApplyPhase::Done => true,
    }
}

/// What each outcome promises about the output file: success means the
/// candidate is in place, every failure but an unrestorable one means the
/// pre-mutation text is back, and the unrestorable one says so.
pub open spec fn outcome_disk(o: OutcomeView, plan: ApplyPlan, disk: Seq<char>) -> bool {
    match o {
        OutcomeView::AppliedView => disk == plan.candidate@,
        OutcomeView::WrittenView => disk == plan.candidate@,
        OutcomeView::FailedCmdView => disk == plan.original@,
        OutcomeView::FailedWriteView(_) => disk == plan.original@,
        OutcomeView::RestoreFailedView(_) => disk == plan.candidate@,
    }
}

/// The sequence never leaves the document in a state the caller was not
/// told about: the phase invariant on the output file is preserved by every
/// step, and the moment the sequence finishes, the outcome it reports says
/// exactly what is on disk.
pub proof fn lemma_apply_disk(st: ApplyState, ev: ApplyEvent, disk: Seq<char>)
    requires
        event_fits(st.phase, ev),
        disk_inv(st.phase, st.plan, disk),
    ensures
        disk_inv(step_view(st, ev).0, st.plan, next_disk(st, ev, disk)),
        step_view(st, ev).1 matches ActionView::FinishView(o) ==> outcome_disk(
            o,
            st.plan,
            next_disk(st, ev, disk),
        ),
{
}

/// A dry run never reaches a phase that could ask for a rebuild.
pub open spec fn dryrun_phase_ok(st: ApplyState) -> bool {
    st.plan.dryrun ==> (st.phase is Writing || st.phase is Staging || st.phase is Copying
        || st.phase is Done)
}

/// A dry run never asks for a rebuild, and with it never for a restore: the
/// written candidate is the sequence's last effect.
pub proof fn lemma_dryrun_no_rebuild(st: ApplyState, ev: ApplyEvent)
    requires
        event_fits(st.phase, ev),
        dryrun_phase_ok(st),
    ensures
        dryrun_phase_ok(ApplyState { phase: step_view(st, ev).0, ..st }),
        st.plan.dryrun ==> step_view(st, ev).1 !is RebuildView,
{
}

/// Every file action of the sequence names the planned output file or the
/// staging file, never any other path: a run against an alternate output
/// path cannot touch the original document.
pub proof fn lemma_apply_paths(st: ApplyState, ev: ApplyEvent)
    requires
        event_fits(st.phase, ev),
    ensures
        match step_view(st, ev).1 {
            ActionView::WriteFileView { path, .. } => path == st.plan.outfile@,
            ActionView::StageFileView { path, .. } => path == st.cachefile@,
            ActionView::ElevatedCopyView { from, to } => from == st.cachefile@ && to
                == st.plan.outfile@,
            _ => true,
        },
{
}

/// Describes the channel-update sequence: the user's channels, then the
/// system channels with elevation, then the configured flake when there is
/// one.
pub fn chnupdate(opts: &NpkgData) -> (r: Vec<Cmd>)
    ensures
        r@.len() == if opts.flake is Some {
            3int
        } else {
            2
        },
        r@[0].program@ == "nix-channel"@ && !r@[0].elevate && r@[0].args.deep_view() =~= seq![
            "--update"@,
        ],
        r@[1].program@ == "nix-channel"@ && r@[1].elevate && r@[1].args.deep_view() =~= seq![
            "--update"@,
        ],
        opts.flake matches Some(fl) ==> r@[2].program@ == "nix"@ && !r@[2].elevate
            && r@[2].args.deep_view() =~= seq!["flake"@, "update"@, flake_base(fl@)],
{
    let mut cmds: Vec<Cmd> = Vec::new();
    cmds.push(updatechannel());
    let mut elevated = updatechannel();
    elevated.elevate = true;
    cmds.push(elevated);
    match &opts.flake {
        Some(fl) => {
            cmds.push(updateflake(fl.as_str()));
        },
        None => {},
    }
    cmds
}

} // verus!
