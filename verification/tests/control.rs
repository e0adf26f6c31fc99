use std::cell::Cell;
use std::rc::Rc;

use attache::asking::Confirmer;
use attache::control::{
    allow_always, allow_confirmed, allow_confirmed_by_digest, allow_persisted, identity_of, list_whitelist, parse_command,
    reset_confirmed, reset_persisted, reset_whitelist, socket_path, status, unknown_command,
    Command,
};
use attache::passthrough_fs::ActivityMonitor;
use attache::path::UnixPath;
use attache::policy::ControlConfirm;
use attache::whitelist::Whitelist;

struct FakeConfirm {
    answer: bool,
    calls: Rc<Cell<usize>>,
}

impl FakeConfirm {
    fn new(answer: bool) -> Self {
        Self { answer, calls: Rc::default() }
    }
}

impl ControlConfirm for FakeConfirm {
    fn confirm(&self, _action: &str) -> bool {
        self.calls.set(self.calls.get() + 1);
        self.answer
    }
}

fn backing() -> UnixPath {
    UnixPath::new("/tmp/backing")
}

fn whitelist() -> Whitelist {
    Whitelist::load(&backing(), None)
}

/// A whole request to approve of `bin`, which holds `contents`.
fn request_allow(
    whitelist: &mut Whitelist,
    confirm: &mut Confirmer<FakeConfirm>,
    bin: &UnixPath,
    contents: Result<&[u8], String>,
    persisted: Result<(), String>,
) -> String {
    match allow_always(confirm, bin, Ok(bin.clone())) {
        Err(answer) => answer,
        Ok(confirmed) => match allow_confirmed(whitelist, &confirmed, contents, 42) {
            Err(answer) => answer,
            Ok(()) => allow_persisted(confirmed.subject(), persisted),
        },
    }
}

#[test]
fn allow_always_confirmed_whitelists_the_binary() {
    let bin = backing().join(b"trusted-tool");
    let mut whitelist = whitelist();
    let mut confirm = Confirmer::new(FakeConfirm::new(true));

    let response = request_allow(&mut whitelist, &mut confirm, &bin, Ok(b"a real binary"), Ok(()));

    assert!(response.starts_with("OK"), "unexpected response: {response}");
    assert_eq!(response, "OK whitelisted /tmp/backing/trusted-tool");
    assert!(whitelist.is_allowed(&identity_of(&bin), Some(b"a real binary")));
}

#[test]
fn allow_always_not_confirmed_does_not_whitelist() {
    let bin = backing().join(b"shady-tool");
    let mut whitelist = whitelist();
    let mut confirm = Confirmer::new(FakeConfirm::new(false));

    let response = request_allow(&mut whitelist, &mut confirm, &bin, Ok(b"a real binary"), Ok(()));

    assert_eq!(response, "DENIED not confirmed");
    assert!(!whitelist.is_allowed(&identity_of(&bin), Some(b"a real binary")));
}

#[test]
fn allow_always_nonexistent_path_never_prompts() {
    let fake = FakeConfirm::new(true);
    let calls = Rc::clone(&fake.calls);
    let mut confirm = Confirmer::new(fake);

    let response = allow_always(
        &mut confirm,
        &UnixPath::new("/nonexistent/binary"),
        Err("No such file or directory (os error 2)".to_string()),
    )
    .unwrap_err();

    assert!(response.starts_with("ERROR"), "unexpected response: {response}");
    assert_eq!(response, "ERROR /nonexistent/binary: No such file or directory (os error 2)");
    assert_eq!(
        calls.get(),
        0,
        "should validate the path before ever bothering the user with a confirmation"
    );
}

#[test]
fn list_whitelist_returns_entries_without_a_confirmation() {
    let bin = backing().join(b"trusted-tool");
    let mut whitelist = whitelist();
    assert_eq!(list_whitelist(&whitelist), "OK empty");

    let added: Result<(), ()> = whitelist.add(&identity_of(&bin), Ok(b"a real binary"), 42);
    assert_eq!(added, Ok(()));
    let response = list_whitelist(&whitelist);
    assert!(response.starts_with("OK\n"), "unexpected: {response}");
    assert!(response.contains("\ttrusted-tool\t"), "unexpected: {response}");
    assert!(response.ends_with("\t42\ttrusted-tool\t/tmp/backing/trusted-tool"));
}

#[test]
fn reset_whitelist_confirmed_clears_it() {
    let bin = backing().join(b"trusted-tool");
    let mut whitelist = whitelist();
    let added: Result<(), ()> = whitelist.add(&identity_of(&bin), Ok(b"a real binary"), 42);
    assert_eq!(added, Ok(()));

    let confirmed = reset_whitelist(&mut Confirmer::new(FakeConfirm::new(true))).unwrap();
    reset_confirmed(&mut whitelist, confirmed);
    let response = reset_persisted(Ok(()));

    assert_eq!(response, "OK whitelist reset");
    assert!(!whitelist.is_allowed(&identity_of(&bin), Some(b"a real binary")));
}

#[test]
fn reset_whitelist_not_confirmed_leaves_it_untouched() {
    let bin = backing().join(b"trusted-tool");
    let mut whitelist = whitelist();
    let added: Result<(), ()> = whitelist.add(&identity_of(&bin), Ok(b"a real binary"), 42);
    assert_eq!(added, Ok(()));

    let response = reset_whitelist(&mut Confirmer::new(FakeConfirm::new(false))).unwrap_err();

    assert_eq!(response, "DENIED not confirmed");
    assert!(whitelist.is_allowed(&identity_of(&bin), Some(b"a real binary")));
}

#[test]
fn failures_of_a_confirmed_request_are_answered() {
    let bin = backing().join(b"gone");
    let mut whitelist = whitelist();
    let mut confirm = Confirmer::new(FakeConfirm::new(true));
    assert_eq!(
        request_allow(&mut whitelist, &mut confirm, &bin, Err("denied".to_string()), Ok(())),
        "ERROR /tmp/backing/gone: denied"
    );
    assert_eq!(whitelist.entries().len(), 0);
    assert_eq!(
        request_allow(&mut whitelist, &mut confirm, &bin, Ok(b"x"), Err("disk full".to_string())),
        "ERROR disk full"
    );
    assert_eq!(reset_persisted(Err("disk full".to_string())), "ERROR disk full");
}

#[test]
fn commands_are_told_apart() {
    assert!(matches!(parse_command("STATUS\n"), Command::Status));
    assert!(matches!(parse_command("  RESET-WHITELIST  "), Command::ResetWhitelist));
    assert!(matches!(parse_command("LIST-WHITELIST\r\n"), Command::ListWhitelist));
    assert!(matches!(parse_command("status"), Command::Unknown));
    assert!(matches!(parse_command(""), Command::Unknown));
    assert!(matches!(parse_command("ALLOW-ALWAYS"), Command::Unknown));
    match parse_command("ALLOW-ALWAYS /usr/bin/my tool\n") {
        Command::AllowAlways(path) => assert_eq!(path.bytes, b"/usr/bin/my tool"),
        other => panic!("unexpected: {other:?}"),
    }
    assert_eq!(unknown_command(), "ERROR unknown command");
}

#[test]
fn status_tells_idle_seconds_and_open_files() {
    let activity = ActivityMonitor { last_activity: 1000, handles: 3 };
    assert_eq!(status(&activity, 1250), "OK 250 3");
    assert_eq!(status(&activity, 900), "OK 0 3");
}

#[test]
fn identity_of_a_binary_has_its_last_name() {
    let found = identity_of(&UnixPath::new("/usr/bin/cat"));
    assert_eq!(found.path, UnixPath::new("/usr/bin/cat"));
    assert_eq!(found.comm, "cat");
    assert_eq!(identity_of(&UnixPath::new("/")).comm, "");
}

#[test]
fn the_socket_is_in_the_state_directory() {
    assert_eq!(
        socket_path(&UnixPath::new("/home/u/.local/state/attache")),
        UnixPath::new("/home/u/.local/state/attache/control.sock")
    );
}

#[test]
fn a_person_is_asked_once() {
    let fake = FakeConfirm::new(true);
    let calls = Rc::clone(&fake.calls);
    let mut confirm = Confirmer::new(fake);
    let bin = backing().join(b"tool");
    let confirmed = allow_always(&mut confirm, &bin, Ok(bin.clone())).unwrap();
    assert_eq!(calls.get(), 1);
    assert!(reset_whitelist(&mut confirm).is_ok());
    assert_eq!(calls.get(), 2);

    let mut whitelist = whitelist();
    let approved =
        allow_confirmed_by_digest(&mut whitelist, &confirmed, Ok("ab12".to_string()), 3);
    assert_eq!(approved, Ok(()));
    assert_eq!(whitelist.tsv(), "ab12\t3\ttool\t/tmp/backing/tool\n");
    assert_eq!(
        allow_confirmed_by_digest(&mut whitelist, &confirmed, Err("gone".to_string()), 3),
        Err("ERROR /tmp/backing/tool: gone".to_string())
    );
}
