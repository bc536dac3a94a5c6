//! The verification of a written archive: it is unpacked and built, and the
//! build must leave the unpacked sources as they were.

use crate::descriptor::PackageDescriptor;
use crate::fingerprint::{
    diff_report, differs, has_difference, report_hash_difference, Fingerprint,
};
use crate::options::PackageOpts;
use crate::paths::{FilePath, PathModel};
use crate::report::{ErrorKind, Failure, Level, Notice, PackageError, Remark};
use crate::text::{copy_strings, texts};
use vstd::prelude::*;

verus! {

/// How far a verification has come.
#[derive(Clone, Copy, Debug, PartialEq, Eq, Structural)]
pub enum VerifyStage {
    /// Nothing was done yet.
    Start,
    /// A directory left by an earlier run is being removed.
    Clearing,
    /// The archive is being unpacked.
    Unpacking,
    /// The fingerprint of the unpacked sources is being taken.
    HashingBefore,
    /// The unpacked package is being built.
    Building,
    /// The fingerprint is being taken again.
    HashingAfter,
    /// The verification is over.
    Done,
}

/// What has happened since the last step.
#[derive(Debug)]
pub enum VerifyEvent {
    /// The verification begins; `stale` says whether the directory to unpack
    /// into is there already.
    Begun { stale: bool },
    /// The stale directory is removed.
    Cleared,
    /// The archive is unpacked.
    Unpacked,
    /// The fingerprint is taken.
    Hashed(Fingerprint),
    /// The build has succeeded.
    Built,
    /// The last action has failed, for the reason given.
    Failed(String),
}

/// What to do next.
#[derive(Debug)]
pub enum VerifyAction {
    /// Remove the directory to unpack into, with all it holds.
    Clear,
    /// Unpack the archive beside that directory, without restoring
    /// modification times.
    Unpack,
    /// Take the fingerprint of the unpacked sources.
    Hash,
    /// Build the unpacked package.
    Build,
    /// Nothing: the archive is verified.
    Succeed,
    /// Nothing: the verification has failed.
    Fail(PackageError),
}

/// What a [`VerifyAction`] stands for.
pub enum ActionModel {
    Clear,
    Unpack,
    Hash,
    Build,
    Succeed,
    Fail(Failure),
}

impl View for VerifyAction {
    type V = ActionModel;

    open spec fn view(&self) -> ActionModel {
        match self {
            VerifyAction::Clear => ActionModel::Clear,
            VerifyAction::Unpack => ActionModel::Unpack,
            VerifyAction::Hash => ActionModel::Hash,
            VerifyAction::Build => ActionModel::Build,
            VerifyAction::Succeed => ActionModel::Succeed,
            VerifyAction::Fail(e) => ActionModel::Fail(e@),
        }
    }
}

/// A verification under way.
#[derive(Debug)]
pub struct VerifyRun {
    pub stage: VerifyStage,
    /// The directory that the archive unpacks into.
    pub destination: FilePath,
    /// The fingerprint taken before the build.
    pub before: Option<Fingerprint>,
}

/// What the verification build is asked for. Beyond this it is a plain
/// build of the package alone, with the default choice of targets.
#[derive(Debug)]
pub struct BuildRequest {
    pub jobs: Option<u32>,
    pub targets: Vec<String>,
    pub features: Vec<String>,
    pub all_features: bool,
    pub no_default_features: bool,
    /// Arguments for the compiler of the package itself: an empty list
    /// where the package declares its public dependencies, none otherwise.
    pub compiler_args: Option<Vec<String>>,
}

/// The request for the verification build under the options `opts`.
pub fn build_request(opts: &PackageOpts, public_dependency: bool) -> (r: BuildRequest)
    ensures
        r.jobs == opts.jobs,
        texts(r.targets@) == texts(opts.targets@),
        texts(r.features@) == texts(opts.features@),
        r.all_features == opts.all_features,
        r.no_default_features == opts.no_default_features,
        match r.compiler_args {
            Some(args) => public_dependency && args@.len() == 0,
            None => !public_dependency,
        },
{
    BuildRequest {
        jobs: opts.jobs,
        targets: copy_strings(&opts.targets),
        features: copy_strings(&opts.features),
        all_features: opts.all_features,
        no_default_features: opts.no_default_features,
        compiler_args: if public_dependency {
            Some(Vec::new())
        } else {
            None
        },
    }
}

/// The text of the failure for a build that changed the sources, around the
/// report of what it changed.
pub open spec fn modified_text(report: Seq<char>) -> Seq<char> {
    "Source directory was modified by build.rs during cargo publish. Build scripts should not modify anything outside of OUT_DIR.\n"@
        + report + "\n\nTo proceed despite this, pass the `--no-verify` flag."@
}

/// The failure for an event that its stage does not expect.
pub open spec fn out_of_turn() -> Failure {
    Failure { kind: ErrorKind::Protocol, message: "a step was reported out of turn"@ }
}

/// Where a step leads.
pub struct VerifyOutcome {
    pub stage: VerifyStage,
    pub before: Option<Fingerprint>,
    pub action: ActionModel,
}

/// The judgement at the end: the build must not have changed, added or
/// removed any path.
pub open spec fn judgement(before: Fingerprint, after: Fingerprint) -> ActionModel {
    if has_difference(before@, after@) {
        ActionModel::Fail(
            Failure {
                kind: ErrorKind::SourceModified,
                message: modified_text(diff_report(before@, after@)),
            },
        )
    } else {
        ActionModel::Succeed
    }
}

/// The step that the verification takes at `stage` when `event` is
/// reported.
///
/// A stale directory is removed first. Then the archive is unpacked, the
/// fingerprint taken, the package built and the fingerprint taken again.
/// A failure of any action ends the verification, and so does an event out
/// of turn.
pub open spec fn verify_step(
    stage: VerifyStage,
    before: Option<Fingerprint>,
    event: VerifyEvent,
) -> VerifyOutcome {
    let stop = VerifyOutcome {
        stage: VerifyStage::Done,
        before,
        action: ActionModel::Fail(out_of_turn()),
    };
    match (stage, event) {
        (VerifyStage::Done, _) => stop,
        (_, VerifyEvent::Failed(reason)) => VerifyOutcome {
            stage: VerifyStage::Done,
            before,
            action: ActionModel::Fail(
                Failure { kind: ErrorKind::Collaborator, message: reason@ },
            ),
        },
        (VerifyStage::Start, VerifyEvent::Begun { stale }) => if stale {
            VerifyOutcome { stage: VerifyStage::Clearing, before, action: ActionModel::Clear }
        } else {
            VerifyOutcome { stage: VerifyStage::Unpacking, before, action: ActionModel::Unpack }
        },
        (VerifyStage::Clearing, VerifyEvent::Cleared) => VerifyOutcome {
            stage: VerifyStage::Unpacking,
            before,
            action: ActionModel::Unpack,
        },
        (VerifyStage::Unpacking, VerifyEvent::Unpacked) => VerifyOutcome {
            stage: VerifyStage::HashingBefore,
            before,
            action: ActionModel::Hash,
        },
        (VerifyStage::HashingBefore, VerifyEvent::Hashed(print)) => VerifyOutcome {
            stage: VerifyStage::Building,
            before: Some(print),
            action: ActionModel::Build,
        },
        (VerifyStage::Building, VerifyEvent::Built) => VerifyOutcome {
            stage: VerifyStage::HashingAfter,
            before,
            action: ActionModel::Hash,
        },
        (VerifyStage::HashingAfter, VerifyEvent::Hashed(after)) => match before {
            Some(first) => VerifyOutcome {
                stage: VerifyStage::Done,
                before,
                action: judgement(first, after),
            },
            None => stop,
        },
        _ => stop,
    }
}

fn fail_out_of_turn() -> (r: VerifyAction)
    ensures
        r@ == ActionModel::Fail(out_of_turn()),
{
    VerifyAction::Fail(
        PackageError::new(ErrorKind::Protocol, String::from_str("a step was reported out of turn")),
    )
}

/// Judges the build by the fingerprints taken before and after it.
pub fn judge(before: &Fingerprint, after: &Fingerprint) -> (r: VerifyAction)
    requires
        before.wf(),
        after.wf(),
    ensures
        r@ == judgement(*before, *after),
{
    if differs(before, after) {
        let mut message: String = String::from_str(
            "Source directory was modified by build.rs during cargo publish. Build scripts should not modify anything outside of OUT_DIR.\n",
        );
        message.append(report_hash_difference(before, after).as_str());
        message.append("\n\nTo proceed despite this, pass the `--no-verify` flag.");
        VerifyAction::Fail(PackageError::new(ErrorKind::SourceModified, message))
    } else {
        VerifyAction::Succeed
    }
}

/// The text of the notice that announces the verification.
pub open spec fn verifying_text(package: &PackageDescriptor) -> Seq<char> {
    "Verifying "@ + package.name@ + " v"@ + package.version@
}

/// The directory that the archive of `package` unpacks into, beside the
/// archive in `parent`.
pub open spec fn unpack_destination(package: &PackageDescriptor, parent: PathModel) -> PathModel {
    PathModel { absolute: parent.absolute, parts: parent.parts.push(package.base_name()) }
}

/// The fingerprint that the event brings, if it brings one, is in order.
pub open spec fn event_wf(event: VerifyEvent) -> bool {
    event matches VerifyEvent::Hashed(print) ==> print.wf()
}

impl VerifyRun {
    /// The fingerprint taken before the build is in order.
    pub open spec fn wf(&self) -> bool {
        self.before matches Some(print) ==> print.wf()
    }

    /// A verification of the archive of `package` that lies in the
    /// directory `parent`, with the notice that announces it.
    pub fn new(package: &PackageDescriptor, parent: &FilePath) -> (r: (VerifyRun, Notice))
        ensures
            r.0.wf(),
            r.0.stage == VerifyStage::Start,
            r.0.before is None,
            r.0.destination@ == unpack_destination(package, parent@),
            r.1@ == (Remark { level: Level::Status, message: verifying_text(package) }),
    {
        let base: String = package.base_name_text();
        let destination: FilePath = parent.join(&FilePath::single(base.as_str()));
        proof {
            assert(destination@.parts =~= parent@.parts.push(package.base_name()));
        }
        let mut message: String = String::from_str("Verifying ");
        message.append(package.name.as_str());
        message.append(" v");
        message.append(package.version.as_str());
        (
            VerifyRun { stage: VerifyStage::Start, destination, before: None },
            Notice::new(Level::Status, message),
        )
    }
}

/// Takes the next step of a verification: `event` says how the last action
/// went, and the action to take now is returned.
pub fn run_verify(run: &mut VerifyRun, event: VerifyEvent) -> (r: VerifyAction)
    requires
        old(run).wf(),
        event_wf(event),
    ensures
        final(run).wf(),
        final(run).destination == old(run).destination,
        verify_step(old(run).stage, old(run).before, event) == (VerifyOutcome {
            stage: final(run).stage,
            before: final(run).before,
            action: r@,
        }),
{
    let stage: VerifyStage = run.stage;
    match stage {
        VerifyStage::Done => {
            return fail_out_of_turn();
        },
        _ => {},
    }
    match event {
        VerifyEvent::Failed(reason) => {
            run.stage = VerifyStage::Done;
            VerifyAction::Fail(PackageError::new(ErrorKind::Collaborator, reason))
        },
        VerifyEvent::Begun { stale } => match stage {
            VerifyStage::Start => {
                if stale {
                    run.stage = VerifyStage::Clearing;
                    VerifyAction::Clear
                } else {
                    run.stage = VerifyStage::Unpacking;
                    VerifyAction::Unpack
                }
            },
            _ => {
                run.stage = VerifyStage::Done;
                fail_out_of_turn()
            },
        },
        VerifyEvent::Cleared => match stage {
            VerifyStage::Clearing => {
                run.stage = VerifyStage::Unpacking;
                VerifyAction::Unpack
            },
            _ => {
                run.stage = VerifyStage::Done;
                fail_out_of_turn()
            },
        },
        VerifyEvent::Unpacked => match stage {
            VerifyStage::Unpacking => {
                run.stage = VerifyStage::HashingBefore;
                VerifyAction::Hash
            },
            _ => {
                run.stage = VerifyStage::Done;
                fail_out_of_turn()
            },
        },
        VerifyEvent::Built => match stage {
            VerifyStage::Building => {
                run.stage = VerifyStage::HashingAfter;
                VerifyAction::Hash
            },
            _ => {
                run.stage = VerifyStage::Done;
                fail_out_of_turn()
            },
        },
        VerifyEvent::Hashed(print) => match stage {
            VerifyStage::HashingBefore => {
                run.stage = VerifyStage::Building;
                run.before = Some(print);
                VerifyAction::Build
            },
            VerifyStage::HashingAfter => {
                run.stage = VerifyStage::Done;
                match &run.before {
                    Some(first) => judge(first, &print),
                    None => fail_out_of_turn(),
                }
            },
            _ => {
                run.stage = VerifyStage::Done;
                fail_out_of_turn()
            },
        },
    }
}

} // verus!
