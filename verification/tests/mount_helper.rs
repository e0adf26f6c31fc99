use attache::mount_helper::{
    allow_binary, allow_outcome, binary_to_allow, decrypt_arguments, gate_arguments, is_mountpoint,
    next_stage, parse_args, reset_outcome, setup_failure, setup_steps, standalone_mount,
    whitelist_file, BackingStage, HelperCommand, Layout, MountCall, OfflineRun, Propagation,
    Removal, StageOutcome, BACKING_MODE,
};
use attache::path::UnixPath;
use attache::process_info::ProcessIdentity;
use attache::whitelist::Whitelist;

fn p(s: &str) -> UnixPath {
    UnixPath::new(s)
}

fn command(args: &[&str]) -> HelperCommand {
    let args: Vec<String> = args.iter().map(|s| s.to_string()).collect();
    parse_args(&args)
}

#[test]
fn helper_commands_are_told_apart() {
    assert!(matches!(command(&["helper", "setup"]), HelperCommand::Setup));
    assert!(matches!(command(&["helper", "run"]), HelperCommand::Run));
    assert!(matches!(command(&["helper", "reset-whitelist"]), HelperCommand::ResetWhitelist));
    match command(&["helper", "allow-always", "/usr/bin/cat"]) {
        HelperCommand::AllowAlways(path) => assert_eq!(path, p("/usr/bin/cat")),
        other => panic!("unexpected: {other:?}"),
    }
    assert!(matches!(command(&["helper", "allow-always"]), HelperCommand::Usage));
    assert!(matches!(command(&["helper", "setup", "x"]), HelperCommand::Usage));
    assert!(matches!(command(&["helper"]), HelperCommand::Usage));
    assert!(matches!(command(&[]), HelperCommand::Usage));
}

#[test]
fn every_path_is_fixed_below_the_home() {
    let layout = Layout::new(&p("/home/u"));
    assert_eq!(layout.mountpoint, p("/home/u/.attache-mnt"));
    assert_eq!(layout.state_dir, p("/home/u/.local/state/attache"));
    assert_eq!(layout.cipherdir, p("/home/u/.attache"));
    assert_eq!(layout.backing, p("/home/u/.local/state/attache/decrypted"));
    assert_eq!(layout.pwfifo, p("/home/u/.local/state/attache/open.pwfifo"));
    assert_eq!(gate_arguments(&layout), vec![layout.backing.clone(), layout.mountpoint.clone()]);
    assert_eq!(
        decrypt_arguments(&layout),
        vec![
            p("-passfile"),
            layout.pwfifo.clone(),
            layout.cipherdir.clone(),
            layout.backing.clone(),
        ]
    );
}

#[test]
fn a_mountpoint_is_found_in_the_mount_table() {
    let table = "22 28 0:21 / /proc rw,nosuid - proc proc rw\n\
                 29 28 0:26 / /home/u/.attache-mnt rw - fuse x rw\n";
    assert!(is_mountpoint(Some("/home/u/.attache-mnt"), Some(table)));
    assert!(is_mountpoint(Some("/proc"), Some(table)));
    assert!(!is_mountpoint(Some("/home/u"), Some(table)));
    assert!(!is_mountpoint(Some("/"), Some(table)));
    assert!(!is_mountpoint(None, Some(table)));
    assert!(!is_mountpoint(Some("/proc"), None));
    assert!(!is_mountpoint(Some("e"), Some("a b c d\n  a\tb c  d   f e\n")));
    assert!(is_mountpoint(Some("f"), Some("a b c d\n  a\tb c  d   f e\n")));
}

#[test]
fn a_directory_is_bound_to_itself_once() {
    let shared = MountCall::Propagate(Propagation::Shared);
    assert_eq!(standalone_mount(false, Propagation::Shared), vec![MountCall::BindToItself, shared]);
    assert_eq!(standalone_mount(true, Propagation::Shared), vec![shared]);
}

#[test]
fn setup_shares_the_mountpoint_and_hides_the_state() {
    let steps = setup_steps(&Layout::new(&p("/home/u")));
    assert_eq!(steps.len(), 2);
    assert_eq!(steps[0].path, p("/home/u/.attache-mnt"));
    assert_eq!(steps[0].propagation, Propagation::Shared);
    assert_eq!(steps[1].path, p("/home/u/.local/state/attache"));
    assert_eq!(steps[1].propagation, Propagation::Private);
    assert_eq!(
        setup_failure(&steps[0], "EPERM"),
        "attache-mount-helper: setup: sharing /home/u/.attache-mnt: EPERM"
    );
    assert_eq!(
        setup_failure(&steps[1], "EPERM"),
        "attache-mount-helper: setup: privatizing /home/u/.local/state/attache: EPERM"
    );
}

#[test]
fn the_vault_is_served_after_five_stages() {
    let backing = p("/b");
    let mut stage = BackingStage::EnterNamespace;
    let mut seen = vec![stage];
    while let Some(next) = next_stage(stage, &backing, StageOutcome::Done).unwrap() {
        stage = next;
        seen.push(stage);
    }
    assert_eq!(
        seen,
        vec![
            BackingStage::EnterNamespace,
            BackingStage::MakeDirectory,
            BackingStage::Restrict,
            BackingStage::Decrypt,
            BackingStage::CheckMounted,
        ]
    );
    assert_eq!(BACKING_MODE, 0o700);
}

#[test]
fn a_failed_stage_says_why() {
    let said = |stage, outcome| next_stage(stage, &p("/b"), outcome).unwrap_err();
    let failed = || StageOutcome::Failed("why".to_string());
    assert_eq!(
        said(BackingStage::EnterNamespace, failed()),
        "attache-mount-helper: unshare(CLONE_NEWNS): why"
    );
    assert_eq!(
        said(BackingStage::MakeDirectory, failed()),
        "attache-mount-helper: mkdir /b: why"
    );
    assert_eq!(said(BackingStage::Restrict, failed()), "attache-mount-helper: chmod 700 /b: why");
    assert_eq!(
        said(BackingStage::Decrypt, failed()),
        "attache-mount-helper: failed to run gocryptfs: why"
    );
    assert_eq!(
        said(BackingStage::Decrypt, StageOutcome::Exited("exit status: 12".to_string())),
        "attache-mount-helper: gocryptfs exited with exit status: 12"
    );
    assert_eq!(
        said(BackingStage::CheckMounted, failed()),
        "attache-mount-helper: gocryptfs reported success but /b isn't mounted"
    );
}

#[test]
fn removing_the_whitelist_is_reported() {
    let file = whitelist_file(&p("/b"));
    assert_eq!(file, p("/b/.attache-gate-whitelist.json"));
    assert_eq!(
        reset_outcome(&file, Removal::Removed),
        Ok("attache-mount-helper: removed /b/.attache-gate-whitelist.json".to_string())
    );
    assert_eq!(
        reset_outcome(&file, Removal::NotFound),
        Ok("attache-mount-helper: no whitelist to reset, already empty".to_string())
    );
    assert_eq!(
        reset_outcome(&file, Removal::Failed("EIO".to_string())),
        Err(
            "attache-mount-helper: failed to remove /b/.attache-gate-whitelist.json: EIO"
                .to_string()
        )
    );
}

#[test]
fn a_binary_is_approved_while_the_vault_is_closed() {
    let mut whitelist = Whitelist::load(&p("/b"), None);
    let bin = binary_to_allow(&p("cat"), Ok(p("/usr/bin/cat"))).unwrap();
    assert_eq!(allow_binary(&mut whitelist, &bin, Ok(b"cat"), 9), Ok(()));
    let identity = ProcessIdentity { path: p("/usr/bin/cat"), comm: "cat".to_string() };
    assert!(whitelist.is_allowed(&identity, Some(b"cat")));
    assert_eq!(whitelist.entries()[0].comm, "cat");
    assert_eq!(whitelist.entries()[0].added_at, 9);
    assert_eq!(
        allow_outcome(&bin, Ok(())),
        Ok("attache-mount-helper: whitelisted /usr/bin/cat".to_string())
    );
}

#[test]
fn approvals_that_fail_say_why() {
    let mut whitelist = Whitelist::load(&p("/b"), None);
    assert_eq!(
        binary_to_allow(&p("cat"), Err("not found".to_string())),
        Err("attache-mount-helper: cat: not found".to_string())
    );
    let bin = p("/usr/bin/cat");
    assert_eq!(
        allow_binary(&mut whitelist, &bin, Err("unreadable".to_string()), 9),
        Err("attache-mount-helper: /usr/bin/cat: unreadable".to_string())
    );
    assert_eq!(whitelist.entries().len(), 0);
    assert_eq!(
        allow_outcome(&bin, Err("disk full".to_string())),
        Err("attache-mount-helper: failed to whitelist /usr/bin/cat: disk full".to_string())
    );
}

#[test]
fn a_closed_vault_is_unmounted_after_the_work() {
    for (mounted, worked, unmounted) in [
        (true, true, true),
        (true, true, false),
        (true, false, true),
        (true, false, false),
    ] {
        let run = OfflineRun::new();
        assert_eq!(run, OfflineRun::Mounting);
        let run = run.step(mounted);
        assert_eq!(run, OfflineRun::Working);
        let run = run.step(worked);
        assert_eq!(run, OfflineRun::Unmounting { worked });
        let run = run.step(unmounted);
        assert_eq!(run, OfflineRun::Done { success: worked });
        assert_eq!(run.step(true), run);
    }
    assert_eq!(OfflineRun::new().step(false), OfflineRun::Done { success: false });
}
