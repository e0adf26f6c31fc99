//! The helper that mounts the vault where only `attache-gate` can see it.
//!
//! Every path that it touches is fixed below the caller's own home directory:
//! nothing that the caller says decides where a mount goes. A program to
//! approve of is the only path that it is told.

use crate::control;
use crate::digest;
use crate::path;
use crate::path::UnixPath;
use crate::text;
use crate::whitelist;
use crate::whitelist::Whitelist;
use vstd::prelude::*;
use vstd::string::*;
use vstd::utf8::*;

verus! {

/// The name of the pipe through which the vault's password comes.
pub const PWFIFO_NAME: &'static str = "open.pwfifo";

/// What the helper was asked to do.
#[derive(Debug)]
pub enum HelperCommand {
    /// Prepare the mountpoint and the state directory.
    Setup,
    /// Mount the vault and serve it.
    Run,
    /// Remove every approval.
    ResetWhitelist,
    /// Always allow the binary at a path.
    AllowAlways(UnixPath),
    /// Say how the helper is used.
    Usage,
}

/// Whether arguments, the first of which is the helper's own name, ask for a
/// command.
pub open spec fn asks(args: Seq<Seq<char>>, c: HelperCommand) -> bool {
    if args.len() == 2 && args[1] == "setup"@ {
        c is Setup
    } else if args.len() == 2 && args[1] == "run"@ {
        c is Run
    } else if args.len() == 2 && args[1] == "reset-whitelist"@ {
        c is ResetWhitelist
    } else if args.len() == 3 && args[1] == "allow-always"@ {
        c is AllowAlways && c->AllowAlways_0@ == encode_utf8(args[2])
    } else {
        c is Usage
    }
}

/// Reads the helper's arguments.
pub fn parse_args(args: &[String]) -> (r: HelperCommand)
    ensures
        asks(text::texts(args@), r),
{
    if args.len() == 2 {
        if text::same_text(args[1].as_str(), "setup") {
            HelperCommand::Setup
        } else if text::same_text(args[1].as_str(), "run") {
            HelperCommand::Run
        } else if text::same_text(args[1].as_str(), "reset-whitelist") {
            HelperCommand::ResetWhitelist
        } else {
            HelperCommand::Usage
        }
    } else if args.len() == 3 && text::same_text(args[1].as_str(), "allow-always") {
        HelperCommand::AllowAlways(UnixPath::new(args[2].as_str()))
    } else {
        HelperCommand::Usage
    }
}

/// Where the gated vault is mounted, in the home directory `home`.
pub open spec fn mountpoint_in(home: Seq<u8>) -> Seq<u8> {
    path::joined(home, encode_utf8(".attache-mnt"@))
}

/// The directory that holds the vault's state.
pub open spec fn state_in(home: Seq<u8>) -> Seq<u8> {
    path::joined(home, encode_utf8(".local/state/attache"@))
}

/// The directory that holds the encrypted vault.
pub open spec fn cipher_in(home: Seq<u8>) -> Seq<u8> {
    path::joined(home, encode_utf8(".attache"@))
}

/// The directory where the vault is decrypted.
pub open spec fn backing_in(home: Seq<u8>) -> Seq<u8> {
    path::joined(state_in(home), encode_utf8("decrypted"@))
}

/// The pipe through which the vault's password comes.
pub open spec fn pwfifo_in(home: Seq<u8>) -> Seq<u8> {
    path::joined(state_in(home), encode_utf8(PWFIFO_NAME@))
}

/// The paths that the helper touches.
#[derive(Debug)]
pub struct Layout {
    pub mountpoint: UnixPath,
    pub state_dir: UnixPath,
    pub cipherdir: UnixPath,
    pub backing: UnixPath,
    pub pwfifo: UnixPath,
}

impl Layout {
    /// Whether these are the paths in the home directory `home`.
    pub open spec fn is_in(&self, home: Seq<u8>) -> bool {
        &&& self.mountpoint@ == mountpoint_in(home)
        &&& self.state_dir@ == state_in(home)
        &&& self.cipherdir@ == cipher_in(home)
        &&& self.backing@ == backing_in(home)
        &&& self.pwfifo@ == pwfifo_in(home)
    }

    /// The paths in the home directory `home`.
    pub fn new(home: &UnixPath) -> (r: Self)
        ensures
            r.is_in(home@),
    {
        let state_dir = home.join(".local/state/attache".as_bytes());
        Layout {
            mountpoint: home.join(".attache-mnt".as_bytes()),
            cipherdir: home.join(".attache".as_bytes()),
            backing: state_dir.join("decrypted".as_bytes()),
            pwfifo: state_dir.join(PWFIFO_NAME.as_bytes()),
            state_dir,
        }
    }
}

/// Whether a line of the kernel's mount table is about a mount at `target`:
/// that is its fifth word.
pub open spec fn is_mount_line(line: Seq<char>, target: Seq<char>) -> bool {
    text::words(line).len() > 4 && text::words(line)[4] == target
}

/// Whether a mount table lists a mount at `target`.
pub open spec fn lists_mount(mountinfo: Seq<char>, target: Seq<char>) -> bool {
    exists|i: int|
        0 <= i < text::lines_of(mountinfo).len() && is_mount_line(
            #[trigger] text::lines_of(mountinfo)[i],
            target,
        )
}

/// Whether a path is exactly a mount target: `canonical` is its real path and
/// `mountinfo` the kernel's mount table, each where it can be had as text.
///
/// The device numbers of a directory and its parent would not tell: a
/// directory that is mounted onto itself keeps its device.
pub fn is_mountpoint(canonical: Option<&str>, mountinfo: Option<&str>) -> (r: bool)
    ensures
        r == (canonical is Some && mountinfo is Some && lists_mount(mountinfo->0@, canonical->0@)),
{
    let target = match canonical {
        Some(target) => target,
        None => {
            return false;
        },
    };
    let table = match mountinfo {
        Some(table) => table,
        None => {
            return false;
        },
    };
    let lines = text::lines(table);
    let ghost all = text::lines_of(table@);
    let mut i: usize = 0;
    while i < lines.len()
        invariant
            i <= lines@.len(),
            canonical == Some(target),
            mountinfo == Some(table),
            text::texts(lines@) == all,
            all == text::lines_of(table@),
            forall|j: int| 0 <= j < i ==> !is_mount_line(#[trigger] all[j], target@),
        decreases lines@.len() - i,
    {
        assert(all[i as int] == lines@[i as int]@);
        if let Some(word) = text::nth_word(lines[i].as_str(), 4) {
            if text::same_text(word.as_str(), target) {
                assert(is_mount_line(text::lines_of(table@)[i as int], target@));
                return true;
            }
        }
        i += 1;
    }
    assert(lines@.len() == text::texts(lines@).len());
    false
}

/// What other namespaces see of the mounts below a mount.
#[derive(Debug, Clone, Copy, PartialEq, Eq, Structural)]
pub enum Propagation {
    Shared,
    Private,
}

/// A call that changes mounts.
#[derive(Debug, Clone, Copy, PartialEq, Eq, Structural)]
pub enum MountCall {
    /// Mount a directory onto itself.
    BindToItself,
    /// Set what other namespaces see.
    Propagate(Propagation),
}

/// The calls that make a directory its own mount with a propagation. It is
/// mounted onto itself only where it is no mount yet, so that doing this again
/// adds nothing.
pub fn standalone_mount(mounted: bool, propagation: Propagation) -> (r: Vec<MountCall>)
    ensures
        r@ == if mounted {
            seq![MountCall::Propagate(propagation)]
        } else {
            seq![MountCall::BindToItself, MountCall::Propagate(propagation)]
        },
{
    let mut calls: Vec<MountCall> = Vec::new();
    if !mounted {
        calls.push(MountCall::BindToItself);
    }
    calls.push(MountCall::Propagate(propagation));
    calls
}

/// A directory to make its own mount.
#[derive(Debug)]
pub struct SetupStep {
    pub path: UnixPath,
    pub propagation: Propagation,
}

/// The setup: the mountpoint is shared, so that a mount below it is seen
/// everywhere, and the state directory is private, so that one below it is
/// not.
pub fn setup_steps(layout: &Layout) -> (r: Vec<SetupStep>)
    ensures
        r@.len() == 2,
        r@[0].path@ == layout.mountpoint@,
        r@[0].propagation == Propagation::Shared,
        r@[1].path@ == layout.state_dir@,
        r@[1].propagation == Propagation::Private,
{
    let mut steps: Vec<SetupStep> = Vec::new();
    steps.push(
        SetupStep { path: layout.mountpoint.clone(), propagation: Propagation::Shared },
    );
    steps.push(
        SetupStep { path: layout.state_dir.clone(), propagation: Propagation::Private },
    );
    steps
}

/// The helper's own name in front of a message.
fn said() -> (r: String)
    ensures
        r@ == "attache-mount-helper: "@,
{
    "attache-mount-helper: ".to_owned()
}

/// What is said of a step of the setup that failed.
pub fn setup_failure(step: &SetupStep, error: &str) -> (r: String)
    ensures
        r@ == "attache-mount-helper: setup: "@ + match step.propagation {
            Propagation::Shared => "sharing "@,
            Propagation::Private => "privatizing "@,
        } + path::utf8_lossy(step.path@) + ": "@ + error@,
{
    let mut s = "attache-mount-helper: setup: ".to_owned();
    match step.propagation {
        Propagation::Shared => s.append("sharing "),
        Propagation::Private => s.append("privatizing "),
    }
    s.append(step.path.display().as_str());
    s.append(": ");
    s.append(error);
    s
}

/// The permissions of the directory where the vault is decrypted.
pub const BACKING_MODE: u32 = 0o700;

/// What is done, in this order, to have the vault decrypted where only this
/// process and its children see it.
#[derive(Debug, Clone, Copy, PartialEq, Eq, Structural)]
pub enum BackingStage {
    /// Enter a mount namespace of its own.
    EnterNamespace,
    /// Make the backing directory.
    MakeDirectory,
    /// Let only its owner into it.
    Restrict,
    /// Have the vault decrypted there.
    Decrypt,
    /// See that it is mounted there.
    CheckMounted,
}

/// How a stage went.
#[derive(Debug)]
pub enum StageOutcome {
    Done,
    /// It failed, with an error.
    Failed(String),
    /// The program that was run ended with a status that is no success.
    Exited(String),
}

/// The stage after another; there is none after the last.
pub open spec fn stage_after(stage: BackingStage) -> Option<BackingStage> {
    match stage {
        BackingStage::EnterNamespace => Some(BackingStage::MakeDirectory),
        BackingStage::MakeDirectory => Some(BackingStage::Restrict),
        BackingStage::Restrict => Some(BackingStage::Decrypt),
        BackingStage::Decrypt => Some(BackingStage::CheckMounted),
        BackingStage::CheckMounted => None,
    }
}

/// What is said of a stage that did not succeed, which gave `detail`.
pub open spec fn stage_failure(
    stage: BackingStage,
    backing: Seq<u8>,
    exited: bool,
    detail: Seq<char>,
) -> Seq<char> {
    "attache-mount-helper: "@ + match stage {
        BackingStage::EnterNamespace => "unshare(CLONE_NEWNS): "@ + detail,
        BackingStage::MakeDirectory => "mkdir "@ + path::utf8_lossy(backing) + ": "@ + detail,
        BackingStage::Restrict => "chmod 700 "@ + path::utf8_lossy(backing) + ": "@ + detail,
        BackingStage::Decrypt => if exited {
            "gocryptfs exited with "@ + detail
        } else {
            "failed to run gocryptfs: "@ + detail
        },
        BackingStage::CheckMounted => "gocryptfs reported success but "@ + path::utf8_lossy(backing)
            + " isn't mounted"@,
    }
}

fn failure(stage: BackingStage, backing: &UnixPath, exited: bool, detail: &str) -> (r: String)
    ensures
        r@ == stage_failure(stage, backing@, exited, detail@),
{
    let mut s = said();
    let mut rest = String::new();
    match stage {
        BackingStage::EnterNamespace => {
            rest.append("unshare(CLONE_NEWNS): ");
            rest.append(detail);
        },
        BackingStage::MakeDirectory => {
            rest.append("mkdir ");
            rest.append(backing.display().as_str());
            rest.append(": ");
            rest.append(detail);
        },
        BackingStage::Restrict => {
            rest.append("chmod 700 ");
            rest.append(backing.display().as_str());
            rest.append(": ");
            rest.append(detail);
        },
        BackingStage::Decrypt => {
            if exited {
                rest.append("gocryptfs exited with ");
            } else {
                rest.append("failed to run gocryptfs: ");
            }
            rest.append(detail);
        },
        BackingStage::CheckMounted => {
            rest.append("gocryptfs reported success but ");
            rest.append(backing.display().as_str());
            rest.append(" isn't mounted");
        },
    }
    s.append(rest.as_str());
    assert(s@ =~= stage_failure(stage, backing@, exited, detail@));
    s
}

/// Goes on from a stage: to the next one (`Ok(Some(..))`), to serving the
/// vault after the last (`Ok(None)`), or, where the stage did not succeed, no
/// further, with what to say.
pub fn next_stage(stage: BackingStage, backing: &UnixPath, outcome: StageOutcome) -> (r: Result<
    Option<BackingStage>,
    String,
>)
    ensures
        match outcome {
            StageOutcome::Done => r == Ok::<Option<BackingStage>, String>(stage_after(stage)),
            StageOutcome::Failed(e) => r is Err && r->Err_0@ == stage_failure(
                stage,
                backing@,
                false,
                e@,
            ),
            StageOutcome::Exited(status) => r is Err && r->Err_0@ == stage_failure(
                stage,
                backing@,
                true,
                status@,
            ),
        },
{
    match outcome {
        StageOutcome::Done => Ok(
            match stage {
                BackingStage::EnterNamespace => Some(BackingStage::MakeDirectory),
                BackingStage::MakeDirectory => Some(BackingStage::Restrict),
                BackingStage::Restrict => Some(BackingStage::Decrypt),
                BackingStage::Decrypt => Some(BackingStage::CheckMounted),
                BackingStage::CheckMounted => None,
            },
        ),
        StageOutcome::Failed(e) => Err(failure(stage, backing, false, e.as_str())),
        StageOutcome::Exited(status) => Err(failure(stage, backing, true, status.as_str())),
    }
}

/// Whether going on from a stage ends in serving the vault, where the stages
/// from there on went well or not, one after the other.
pub open spec fn is_served(stage: BackingStage, went_well: Seq<bool>) -> bool
    decreases went_well.len(),
{
    &&& went_well.len() > 0
    &&& went_well[0]
    &&& match stage_after(stage) {
        None => true,
        Some(next) => is_served(next, went_well.skip(1)),
    }
}

/// The vault is served only when each of the stages went well: the namespace
/// is entered before anything is decrypted, and that it is mounted is seen
/// before it is served.
pub proof fn law_vault_is_served_only_when_every_stage_went_well(went_well: Seq<bool>)
    ensures
        is_served(BackingStage::EnterNamespace, went_well) <==> went_well.len() >= 5 && forall|i: int|
            0 <= i < 5 ==> #[trigger] went_well[i],
{
    reveal_with_fuel(is_served, 6);
    let w = went_well;
    if w.len() >= 5 {
        assert(w.skip(1)[0] == w[1]);
        assert(w.skip(1).skip(1)[0] == w[2]);
        assert(w.skip(1).skip(1).skip(1)[0] == w[3]);
        assert(w.skip(1).skip(1).skip(1).skip(1)[0] == w[4]);
    }
}

/// Work on the whitelist of a vault that is closed: the vault is mounted for it
/// and unmounted after it. The state says what is under way.
#[derive(Debug, Clone, Copy, PartialEq, Eq, Structural)]
pub enum OfflineRun {
    /// The vault is being mounted.
    Mounting,
    /// The work is being done.
    Working,
    /// The vault is being unmounted, after work that went well or not.
    Unmounting { worked: bool },
    /// It is over, and the helper ends with success or not.
    Done { success: bool },
}

/// What follows what is under way, from whether that went well. A mount that
/// failed is followed by nothing. Whatever came of the work, the vault is
/// unmounted; whatever comes of that, the work decides.
pub open spec fn offline_next(run: OfflineRun, went_well: bool) -> OfflineRun {
    match run {
        OfflineRun::Mounting => if went_well {
            OfflineRun::Working
        } else {
            OfflineRun::Done { success: false }
        },
        OfflineRun::Working => OfflineRun::Unmounting { worked: went_well },
        OfflineRun::Unmounting { worked } => OfflineRun::Done { success: worked },
        OfflineRun::Done { success } => OfflineRun::Done { success },
    }
}

impl OfflineRun {
    /// A run that begins.
    pub fn new() -> (r: Self)
        ensures
            r == OfflineRun::Mounting,
    {
        OfflineRun::Mounting
    }

    /// Goes on, from whether what was under way went well.
    pub fn step(self, went_well: bool) -> (r: Self)
        ensures
            r == offline_next(self, went_well),
    {
        match self {
            OfflineRun::Mounting => if went_well {
                OfflineRun::Working
            } else {
                OfflineRun::Done { success: false }
            },
            OfflineRun::Working => OfflineRun::Unmounting { worked: went_well },
            OfflineRun::Unmounting { worked } => OfflineRun::Done { success: worked },
            OfflineRun::Done { success } => OfflineRun::Done { success },
        }
    }
}

/// What a run goes through from `run` on, where one thing after the other went
/// well or not.
pub open spec fn offline_trace(run: OfflineRun, went_well: Seq<bool>) -> Seq<OfflineRun>
    decreases went_well.len(),
{
    if run is Done || went_well.len() == 0 {
        seq![run]
    } else {
        seq![run] + offline_trace(offline_next(run, went_well[0]), went_well.skip(1))
    }
}

/// Every run comes to an end. Where the mount failed, neither work nor an unmount
/// follows. Where it did not, the work is followed by one unmount, whatever came
/// of it, and the run succeeds just where the work did.
pub proof fn law_vault_is_unmounted_once_after_the_work(went_well: Seq<bool>)
    requires
        went_well.len() >= 3,
    ensures
        offline_trace(OfflineRun::Mounting, went_well) == if went_well[0] {
            seq![
                OfflineRun::Mounting,
                OfflineRun::Working,
                OfflineRun::Unmounting { worked: went_well[1] },
                OfflineRun::Done { success: went_well[1] },
            ]
        } else {
            seq![OfflineRun::Mounting, OfflineRun::Done { success: false }]
        },
{
    reveal_with_fuel(offline_trace, 4);
    assert(went_well.skip(1)[0] == went_well[1]);
    let trace = offline_trace(OfflineRun::Mounting, went_well);
    if went_well[0] {
        assert(trace =~= seq![
            OfflineRun::Mounting,
            OfflineRun::Working,
            OfflineRun::Unmounting { worked: went_well[1] },
            OfflineRun::Done { success: went_well[1] },
        ]);
    } else {
        assert(trace =~= seq![OfflineRun::Mounting, OfflineRun::Done { success: false }]);
    }
}

/// The arguments with which the vault is decrypted.
pub fn decrypt_arguments(layout: &Layout) -> (r: Vec<UnixPath>)
    ensures
        r@.len() == 4,
        r@[0]@ == encode_utf8("-passfile"@),
        r@[1]@ == layout.pwfifo@,
        r@[2]@ == layout.cipherdir@,
        r@[3]@ == layout.backing@,
{
    let mut args: Vec<UnixPath> = Vec::new();
    args.push(UnixPath::new("-passfile"));
    args.push(layout.pwfifo.clone());
    args.push(layout.cipherdir.clone());
    args.push(layout.backing.clone());
    args
}

/// The arguments with which `attache-gate` is run.
pub fn gate_arguments(layout: &Layout) -> (r: Vec<UnixPath>)
    ensures
        r@.len() == 2,
        r@[0]@ == layout.backing@,
        r@[1]@ == layout.mountpoint@,
{
    let mut args: Vec<UnixPath> = Vec::new();
    args.push(layout.backing.clone());
    args.push(layout.mountpoint.clone());
    args
}

/// How removing the whitelist went.
#[derive(Debug)]
pub enum Removal {
    Removed,
    NotFound,
    Failed(String),
}

/// The whitelist's file in the backing directory.
pub fn whitelist_file(backing: &UnixPath) -> (r: UnixPath)
    ensures
        r@ == path::joined(backing@, encode_utf8(whitelist::WHITELIST_FILENAME@)),
{
    backing.join(whitelist::WHITELIST_FILENAME.as_bytes())
}

/// What comes of removing the whitelist at `file`: what to say of a success,
/// or of a failure. That there was none to remove is a success.
pub fn reset_outcome(file: &UnixPath, removal: Removal) -> (r: Result<String, String>)
    ensures
        match removal {
            Removal::Removed => r is Ok && r->Ok_0@ == "attache-mount-helper: removed "@
                + path::utf8_lossy(file@),
            Removal::NotFound => r is Ok && r->Ok_0@
                == "attache-mount-helper: no whitelist to reset, already empty"@,
            Removal::Failed(e) => r is Err && r->Err_0@
                == "attache-mount-helper: failed to remove "@ + path::utf8_lossy(file@) + ": "@
                + e@,
        },
{
    match removal {
        Removal::Removed => {
            let mut s = "attache-mount-helper: removed ".to_owned();
            s.append(file.display().as_str());
            Ok(s)
        },
        Removal::NotFound => Ok(
            "attache-mount-helper: no whitelist to reset, already empty".to_owned(),
        ),
        Removal::Failed(e) => {
            let mut s = "attache-mount-helper: failed to remove ".to_owned();
            s.append(file.display().as_str());
            s.append(": ");
            s.append(e.as_str());
            Err(s)
        },
    }
}

/// What the helper says of a path that there is an error with.
pub open spec fn path_failure(path: Seq<u8>, error: Seq<char>) -> Seq<char> {
    "attache-mount-helper: "@ + path::utf8_lossy(path) + ": "@ + error
}

fn path_failed(path: &UnixPath, error: &str) -> (r: String)
    ensures
        r@ == path_failure(path@, error@),
{
    let mut s = said();
    s.append(path.display().as_str());
    s.append(": ");
    s.append(error);
    s
}

/// The binary to approve of: the real path of `target`, or what to say where
/// there is none.
pub fn binary_to_allow(target: &UnixPath, canonical: Result<UnixPath, String>) -> (r: Result<
    UnixPath,
    String,
>)
    ensures
        match canonical {
            Ok(p) => r == Ok::<UnixPath, String>(p),
            Err(e) => r is Err && r->Err_0@ == path_failure(target@, e@),
        },
{
    match canonical {
        Ok(p) => Ok(p),
        Err(e) => Err(path_failed(target, e.as_str())),
    }
}

/// Approves of the binary at `canonical`, for which whoever mounts the vault
/// gave its password; the whitelist is then to be persisted. `contents` is what
/// reading the binary gave. `Err` is what to say where it cannot be read.
pub fn allow_binary(
    whitelist: &mut Whitelist,
    canonical: &UnixPath,
    contents: Result<&[u8], String>,
    now: u64,
) -> (r: Result<(), String>)
    ensures
        final(whitelist).location() == old(whitelist).location(),
        match contents {
            Ok(c) => {
                &&& r is Ok
                &&& final(whitelist)@ == whitelist::with_entry(
                    old(whitelist)@,
                    control::entry_for(canonical@, digest::sha256_text(c@), now),
                )
            },
            Err(e) => {
                &&& r is Err
                &&& r->Err_0@ == path_failure(canonical@, e@)
                &&& final(whitelist)@ == old(whitelist)@
            },
        },
{
    let identity = control::identity_of(canonical);
    match whitelist.add(&identity, contents, now) {
        Ok(_) => Ok(()),
        Err(e) => Err(path_failed(canonical, e.as_str())),
    }
}

/// What comes of an approval, from how persisting the whitelist went: what to
/// say of a success, or of a failure.
pub fn allow_outcome(canonical: &UnixPath, persisted: Result<(), String>) -> (r: Result<
    String,
    String,
>)
    ensures
        match persisted {
            Ok(_) => r is Ok && r->Ok_0@ == "attache-mount-helper: whitelisted "@
                + path::utf8_lossy(canonical@),
            Err(e) => r is Err && r->Err_0@ == "attache-mount-helper: failed to whitelist "@
                + path::utf8_lossy(canonical@) + ": "@ + e@,
        },
{
    match persisted {
        Ok(_) => {
            let mut s = "attache-mount-helper: whitelisted ".to_owned();
            s.append(canonical.display().as_str());
            Ok(s)
        },
        Err(e) => {
            let mut s = "attache-mount-helper: failed to whitelist ".to_owned();
            s.append(canonical.display().as_str());
            s.append(": ");
            s.append(e.as_str());
            Err(s)
        },
    }
}

/// A line of the mount table is about a mount at exactly one place, and that is
/// its fifth word, whatever white space parts the words, and whatever and however
/// many words follow it.
pub proof fn law_fifth_word_is_the_place_of_the_mount(
    gaps: Seq<Seq<char>>,
    names: Seq<Seq<char>>,
    rest: Seq<char>,
    target: Seq<char>,
)
    requires
        gaps.len() == 5,
        names.len() == 5,
        forall|i: int, j: int|
            0 <= i < 5 && 0 <= j < gaps[i].len() ==> text::is_space(#[trigger] gaps[i][j]),
        forall|i: int| 1 <= i < 5 ==> (#[trigger] gaps[i]).len() > 0,
        forall|i: int, j: int|
            0 <= i < 5 && 0 <= j < names[i].len() ==> !text::is_space(#[trigger] names[i][j]),
        forall|i: int| 0 <= i < 5 ==> (#[trigger] names[i]).len() > 0,
        rest.len() > 0 ==> text::is_space(rest[0]),
    ensures
        is_mount_line(
            gaps[0] + names[0] + (gaps[1] + names[1] + (gaps[2] + names[2] + (gaps[3] + names[3]
                + (gaps[4] + names[4] + rest)))),
            target,
        ) <==> target == names[4],
{
    let e = gaps[4] + names[4] + rest;
    let d = gaps[3] + names[3] + e;
    let c = gaps[2] + names[2] + d;
    let b = gaps[1] + names[1] + c;
    assert(e[0] == gaps[4][0] && d[0] == gaps[3][0] && c[0] == gaps[2][0] && b[0] == gaps[1][0]);
    text::law_white_space_parts_words(gaps[4], names[4], rest);
    text::law_white_space_parts_words(gaps[3], names[3], e);
    text::law_white_space_parts_words(gaps[2], names[2], d);
    text::law_white_space_parts_words(gaps[1], names[1], c);
    text::law_white_space_parts_words(gaps[0], names[0], b);
    assert(text::words(gaps[0] + names[0] + b)[4] == names[4]);
}

/// A line of the mount table with fewer than five words is about no mount.
pub proof fn law_short_line_is_about_no_mount(line: Seq<char>, target: Seq<char>)
    requires
        text::words(line).len() < 5,
    ensures
        !is_mount_line(line, target),
{
}

/// A mount is listed exactly when some line of the table is about it, wherever in
/// the table the line stands: among the lines before it, in it, or among those
/// after it.
pub proof fn law_mount_is_found_wherever_it_is_listed(
    before: Seq<char>,
    line: Seq<char>,
    after: Seq<char>,
    target: Seq<char>,
)
    requires
        forall|i: int| 0 <= i < line.len() ==> #[trigger] line[i] != '\n',
    ensures
        lists_mount(line, target) <==> is_mount_line(line, target),
        lists_mount(line.push('\n') + after, target) <==> is_mount_line(line, target)
            || lists_mount(after, target),
        lists_mount(before.push('\n') + (line.push('\n') + after), target) <==> {
            ||| lists_mount(before.push('\n'), target)
            ||| is_mount_line(line, target)
            ||| lists_mount(after, target)
        },
        !lists_mount(Seq::empty(), target),
{
    let none: Seq<char> = Seq::empty();
    text::law_line_feeds_end_lines(line, after);
    text::law_line_feeds_end_lines(none, none);
    if line.len() > 0 && line.last() == '\r' {
        text::law_white_space_behind_adds_no_word(line.drop_last(), seq!['\r']);
        assert(line.drop_last() + seq!['\r'] =~= line);
    }
    let first = if line.len() > 0 && line.last() == '\r' {
        line.drop_last()
    } else {
        line
    };
    assert(is_mount_line(first, target) == is_mount_line(line, target));
    let rest = line.push('\n') + after;
    lemma_listed_in_either(seq![first], text::lines_of(after), rest, after, target);
    text::law_lines_follow_each_other(before, rest);
    let some = text::lines_of(before.push('\n'));
    let more = text::lines_of(rest);
    let whole = before.push('\n') + rest;
    lemma_listed_in_either(some, more, whole, rest, target);
    if lists_mount(before.push('\n'), target) {
        let i = choose|i: int|
            0 <= i < text::lines_of(before.push('\n')).len() && is_mount_line(
                #[trigger] text::lines_of(before.push('\n'))[i],
                target,
            );
        assert(is_mount_line(some[i], target));
    }
    if exists|i: int| 0 <= i < some.len() && is_mount_line(#[trigger] some[i], target) {
        let i = choose|i: int| 0 <= i < some.len() && is_mount_line(#[trigger] some[i], target);
        assert(is_mount_line(text::lines_of(before.push('\n'))[i], target));
    }
    assert(is_mount_line(seq![first][0], target) == is_mount_line(line, target));
    if line.len() == 0 {
        assert(line =~= none);
        assert(text::words(line).len() == 0);
    } else if is_mount_line(line, target) {
        assert(is_mount_line(text::lines_of(line)[0], target));
    }
}

proof fn lemma_listed_in_either(
    some: Seq<Seq<char>>,
    more: Seq<Seq<char>>,
    whole: Seq<char>,
    rest: Seq<char>,
    target: Seq<char>,
)
    requires
        text::lines_of(whole) == some + more,
        text::lines_of(rest) == more,
    ensures
        lists_mount(whole, target) <==> {
            ||| exists|i: int| 0 <= i < some.len() && is_mount_line(#[trigger] some[i], target)
            ||| lists_mount(rest, target)
        },
{
    let all = text::lines_of(whole);
    if lists_mount(whole, target) {
        let i = choose|i: int|
            0 <= i < text::lines_of(whole).len() && is_mount_line(
                #[trigger] text::lines_of(whole)[i],
                target,
            );
        if i < some.len() {
            assert(is_mount_line(some[i], target));
        } else {
            assert(is_mount_line(text::lines_of(rest)[i - some.len()], target));
        }
    }
    if exists|i: int| 0 <= i < some.len() && is_mount_line(#[trigger] some[i], target) {
        let i = choose|i: int| 0 <= i < some.len() && is_mount_line(#[trigger] some[i], target);
        assert(is_mount_line(text::lines_of(whole)[i], target));
    }
    if lists_mount(rest, target) {
        let i = choose|i: int|
            0 <= i < text::lines_of(rest).len() && is_mount_line(
                #[trigger] text::lines_of(rest)[i],
                target,
            );
        assert(is_mount_line(text::lines_of(whole)[some.len() + i], target));
    }
}

/// Each command is asked for by its name alone, an approval by its name and a
/// path; whatever else the arguments say, they ask for the usage.
pub proof fn law_command_is_asked_for_by_name(args: Seq<Seq<char>>, c: HelperCommand)
    requires
        asks(args, c),
    ensures
        c is Setup <==> args.len() == 2 && args[1] == "setup"@,
        c is Run <==> args.len() == 2 && args[1] == "run"@,
        c is ResetWhitelist <==> args.len() == 2 && args[1] == "reset-whitelist"@,
        c is AllowAlways <==> args.len() == 3 && args[1] == "allow-always"@,
        c is AllowAlways ==> c->AllowAlways_0@ == encode_utf8(args[2]),
{
    reveal_strlit("setup");
    reveal_strlit("run");
    reveal_strlit("reset-whitelist");
    assert("setup"@.len() == 5 && "run"@.len() == 3 && "reset-whitelist"@.len() == 15);
}

/// Everything that the helper touches is at a fixed place below the home
/// directory.
pub proof fn law_layout_is_fixed_below_home(layout: Layout, home: Seq<u8>)
    requires
        layout.is_in(home),
    ensures
        layout.mountpoint@ == path::joined(home, encode_utf8(".attache-mnt"@)),
        layout.cipherdir@ == path::joined(home, encode_utf8(".attache"@)),
        layout.state_dir@ == path::joined(home, encode_utf8(".local/state/attache"@)),
        layout.backing@ == path::joined(layout.state_dir@, encode_utf8("decrypted"@)),
        layout.pwfifo@ == path::joined(layout.state_dir@, encode_utf8("open.pwfifo"@)),
{
}

/// The stages follow in one order: the namespace, the directory, its permissions,
/// the decryption, and the look whether it is mounted.
pub proof fn law_stages_follow_in_order(stage: BackingStage)
    ensures
        stage_after(stage) == Some(BackingStage::MakeDirectory) <==> stage
            == BackingStage::EnterNamespace,
        stage_after(stage) == Some(BackingStage::Restrict) <==> stage
            == BackingStage::MakeDirectory,
        stage_after(stage) == Some(BackingStage::Decrypt) <==> stage == BackingStage::Restrict,
        stage_after(stage) == Some(BackingStage::CheckMounted) <==> stage == BackingStage::Decrypt,
        stage_after(stage) is None <==> stage == BackingStage::CheckMounted,
        stage_after(stage) != Some(BackingStage::EnterNamespace),
{
}

/// What is said of a failure names the helper, what it was doing, the directory
/// where there is one, and the error.
pub proof fn law_failure_says_what_failed(
    backing: Seq<u8>,
    path: Seq<u8>,
    exited: bool,
    detail: Seq<char>,
)
    ensures
        stage_failure(BackingStage::EnterNamespace, backing, exited, detail)
            == "attache-mount-helper: "@ + ("unshare(CLONE_NEWNS): "@ + detail),
        stage_failure(BackingStage::MakeDirectory, backing, exited, detail)
            == "attache-mount-helper: "@ + ("mkdir "@ + path::utf8_lossy(backing) + ": "@ + detail),
        stage_failure(BackingStage::Restrict, backing, exited, detail)
            == "attache-mount-helper: "@ + ("chmod 700 "@ + path::utf8_lossy(backing) + ": "@
            + detail),
        stage_failure(BackingStage::Decrypt, backing, true, detail) == "attache-mount-helper: "@ + (
        "gocryptfs exited with "@ + detail),
        stage_failure(BackingStage::Decrypt, backing, false, detail) == "attache-mount-helper: "@ + (
        "failed to run gocryptfs: "@ + detail),
        stage_failure(BackingStage::CheckMounted, backing, exited, detail)
            == "attache-mount-helper: "@ + ("gocryptfs reported success but "@
            + path::utf8_lossy(backing) + " isn't mounted"@),
        path_failure(path, detail) == "attache-mount-helper: "@ + path::utf8_lossy(path) + ": "@
            + detail,
{
}

/// A run on a closed vault goes from one thing to the next: a mount that failed
/// ends it, a mount that went well is followed by the work, the work by the
/// unmount, and the unmount by an end that is a success just where the work was.
pub proof fn law_offline_run_goes_on(run: OfflineRun, went_well: bool)
    ensures
        offline_next(run, went_well) == OfflineRun::Working <==> run == OfflineRun::Mounting
            && went_well,
        offline_next(run, went_well) is Unmounting <==> run == OfflineRun::Working,
        run == OfflineRun::Working ==> offline_next(run, went_well)->worked == went_well,
        run == OfflineRun::Mounting && !went_well ==> offline_next(run, went_well)
            == (OfflineRun::Done { success: false }),
        run is Unmounting ==> offline_next(run, went_well) == (OfflineRun::Done {
            success: run->worked,
        }),
        run is Done ==> offline_next(run, went_well) == run,
        offline_next(run, went_well) != OfflineRun::Mounting,
{
}

/// A directory is a mountpoint exactly when some line of the mount table has at
/// least five words of which the fifth is its path.
pub proof fn law_mountpoint_is_the_fifth_word_of_a_line(mountinfo: Seq<char>, target: Seq<char>)
    ensures
        lists_mount(mountinfo, target) <==> exists|i: int|
            0 <= i < text::lines_of(mountinfo).len() && text::words(
                #[trigger] text::lines_of(mountinfo)[i],
            ).len() >= 5 && text::words(text::lines_of(mountinfo)[i])[4] == target,
{
    let lines = text::lines_of(mountinfo);
    if lists_mount(mountinfo, target) {
        let i = choose|i: int| 0 <= i < lines.len() && is_mount_line(#[trigger] lines[i], target);
        assert(text::words(text::lines_of(mountinfo)[i])[4] == target);
    }
    if exists|i: int|
        0 <= i < lines.len() && text::words(#[trigger] lines[i]).len() >= 5 && text::words(
            lines[i],
        )[4] == target {
        let i = choose|i: int|
            0 <= i < lines.len() && text::words(#[trigger] lines[i]).len() >= 5 && text::words(
                lines[i],
            )[4] == target;
        assert(is_mount_line(text::lines_of(mountinfo)[i], target));
    }
}

/// A mount is found by its line, `a b c d target rest`, whatever the other words are,
/// whatever and however much the rest of the line holds, and whatever lines stand
/// before and after it.
pub proof fn law_mount_is_found_by_its_line(
    before: Seq<char>,
    a: Seq<char>,
    b: Seq<char>,
    c: Seq<char>,
    d: Seq<char>,
    target: Seq<char>,
    rest: Seq<char>,
    after: Seq<char>,
)
    requires
        a.len() > 0 && b.len() > 0 && c.len() > 0 && d.len() > 0 && target.len() > 0,
        forall|i: int| 0 <= i < a.len() ==> !text::is_space(#[trigger] a[i]),
        forall|i: int| 0 <= i < b.len() ==> !text::is_space(#[trigger] b[i]),
        forall|i: int| 0 <= i < c.len() ==> !text::is_space(#[trigger] c[i]),
        forall|i: int| 0 <= i < d.len() ==> !text::is_space(#[trigger] d[i]),
        forall|i: int| 0 <= i < target.len() ==> !text::is_space(#[trigger] target[i]),
        !rest.contains('\n'),
    ensures
        ({
            let gap = seq![' '];
            let line = a + gap + b + gap + c + gap + d + gap + target + gap + rest;
            &&& lists_mount(line, target)
            &&& lists_mount(line.push('\n') + after, target)
            &&& lists_mount(before.push('\n') + (line.push('\n') + after), target)
        }),
{
    let gap = seq![' '];
    let line = a + gap + b + gap + c + gap + d + gap + target + gap + rest;
    let gaps = seq![Seq::empty(), gap, gap, gap, gap];
    let names = seq![a, b, c, d, target];
    let tail = gap + rest;
    assert forall|i: int, j: int| 0 <= i < 5 && 0 <= j < gaps[i].len() implies text::is_space(
        #[trigger] gaps[i][j],
    ) by {}
    law_fifth_word_is_the_place_of_the_mount(gaps, names, tail, target);
    assert(line =~= gaps[0] + names[0] + (gaps[1] + names[1] + (gaps[2] + names[2] + (gaps[3]
        + names[3] + (gaps[4] + names[4] + tail)))));
    lemma_no_line_feed(a);
    lemma_no_line_feed(b);
    lemma_no_line_feed(c);
    lemma_no_line_feed(d);
    lemma_no_line_feed(target);
    lemma_no_line_feed_in_both(a, gap);
    lemma_no_line_feed_in_both(a + gap, b);
    lemma_no_line_feed_in_both(a + gap + b, gap);
    lemma_no_line_feed_in_both(a + gap + b + gap, c);
    lemma_no_line_feed_in_both(a + gap + b + gap + c, gap);
    lemma_no_line_feed_in_both(a + gap + b + gap + c + gap, d);
    lemma_no_line_feed_in_both(a + gap + b + gap + c + gap + d, gap);
    lemma_no_line_feed_in_both(a + gap + b + gap + c + gap + d + gap, target);
    lemma_no_line_feed_in_both(a + gap + b + gap + c + gap + d + gap + target, gap);
    lemma_no_line_feed_in_both(a + gap + b + gap + c + gap + d + gap + target + gap, rest);
    assert forall|i: int| 0 <= i < line.len() implies #[trigger] line[i] != '\n' by {
        assert(line.contains(line[i]));
    }
    law_mount_is_found_wherever_it_is_listed(before, line, after, target);
}

proof fn lemma_no_line_feed(word: Seq<char>)
    requires
        forall|i: int| 0 <= i < word.len() ==> !text::is_space(#[trigger] word[i]),
    ensures
        !word.contains('\n'),
{
    if word.contains('\n') {
        let i = choose|i: int| 0 <= i < word.len() && word[i] == '\n';
        assert(!text::is_space(word[i]));
    }
}

proof fn lemma_no_line_feed_in_both(a: Seq<char>, b: Seq<char>)
    requires
        !a.contains('\n'),
        !b.contains('\n'),
    ensures
        !(a + b).contains('\n'),
{
    if (a + b).contains('\n') {
        let i = choose|i: int| 0 <= i < (a + b).len() && (a + b)[i] == '\n';
        if i < a.len() {
            assert(a[i] == '\n');
        } else {
            assert(b[i - a.len()] == '\n');
        }
    }
}

} // verus!
