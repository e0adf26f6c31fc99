use std::cell::{Cell, RefCell};
use std::collections::VecDeque;
use std::rc::Rc;

use attache::path::UnixPath;
use attache::policy::{
    can_prompt, dialog_text, escape_markup, prompt_timeout, AuthPolicy, Decision, PromptResponse,
    Prompter, Verdict, ZenityConfirm, ZenityPrompter,
};
use attache::process_info::{ProcResolver, ProcessIdentity};
use attache::whitelist::{hash_file, Whitelist};

/// How often a prompter was asked.
type Calls = Rc<Cell<usize>>;

struct CountingPrompter {
    calls: Calls,
    answer: PromptResponse,
}

impl CountingPrompter {
    fn new(calls: &Calls, answer: PromptResponse) -> Self {
        Self { calls: Rc::clone(calls), answer }
    }
}

impl Prompter for CountingPrompter {
    fn ask(&self, _identity: &ProcessIdentity, _target: &UnixPath) -> PromptResponse {
        self.calls.set(self.calls.get() + 1);
        self.answer
    }
}

/// Returns each answer in turn, so a test can tell "asked again with a new
/// answer" apart from "served a stale one".
struct SequencedPrompter {
    answers: RefCell<VecDeque<PromptResponse>>,
    calls: Calls,
}

impl SequencedPrompter {
    fn new(calls: &Calls, answers: &[PromptResponse]) -> Self {
        Self {
            answers: RefCell::new(answers.iter().copied().collect()),
            calls: Rc::clone(calls),
        }
    }
}

impl Prompter for SequencedPrompter {
    fn ask(&self, _identity: &ProcessIdentity, _target: &UnixPath) -> PromptResponse {
        self.calls.set(self.calls.get() + 1);
        self.answers
            .borrow_mut()
            .pop_front()
            .expect("prompter called more times than answers were queued")
    }
}

fn empty_whitelist() -> Whitelist {
    Whitelist::load(&UnixPath::new("/tmp/backing"), None)
}

fn identity(bin: &str) -> ProcessIdentity {
    ProcessIdentity { path: UnixPath::new(bin), comm: bin.to_string() }
}

fn target(s: &str) -> UnixPath {
    UnixPath::new(s)
}

/// A decision about a binary that cannot be read.
fn decide<P: Prompter>(policy: &mut AuthPolicy<P>, bin: &ProcessIdentity, path: &str) -> Decision {
    policy.decide(bin, &target(path), None, None, 0).decision
}

#[test]
fn first_access_asks_the_prompter() {
    let calls = Calls::default();
    let mut policy =
        AuthPolicy::new(CountingPrompter::new(&calls, PromptResponse::AllowOnce), empty_whitelist());

    let decision = decide(&mut policy, &identity("/usr/bin/cat"), "/vault/a.txt");

    assert_eq!(decision, Decision::Allow);
    assert_eq!(calls.get(), 1);
}

#[test]
fn second_access_from_same_binary_uses_cache() {
    let calls = Calls::default();
    let mut policy =
        AuthPolicy::new(CountingPrompter::new(&calls, PromptResponse::AllowOnce), empty_whitelist());
    let bin = identity("/usr/bin/cat");

    decide(&mut policy, &bin, "/vault/a.txt");
    let decision = decide(&mut policy, &bin, "/vault/b.txt");

    assert_eq!(decision, Decision::Allow);
    assert_eq!(calls.get(), 1);
}

#[test]
fn denial_is_also_cached() {
    let calls = Calls::default();
    let mut policy = AuthPolicy::new(CountingPrompter::new(&calls, PromptResponse::Deny), empty_whitelist());
    let bin = identity("/usr/bin/evil");

    let first = decide(&mut policy, &bin, "/vault/a.txt");
    let second = decide(&mut policy, &bin, "/vault/a.txt");

    assert_eq!(first, Decision::Deny);
    assert_eq!(second, Decision::Deny);
    assert_eq!(calls.get(), 1);
}

#[test]
fn different_binaries_are_prompted_independently() {
    let calls = Calls::default();
    let mut policy =
        AuthPolicy::new(CountingPrompter::new(&calls, PromptResponse::AllowOnce), empty_whitelist());

    decide(&mut policy, &identity("/usr/bin/cat"), "/vault/a.txt");
    decide(&mut policy, &identity("/usr/bin/vim"), "/vault/a.txt");

    assert_eq!(calls.get(), 2);
}

#[test]
fn allow_always_persists_to_the_whitelist_and_is_not_reprompted() {
    let calls = Calls::default();
    let backing = UnixPath::new("/tmp/backing");
    let bin = ProcessIdentity {
        path: backing.join(b"trusted-tool"),
        comm: "trusted-tool".to_string(),
    };
    let held: Option<&[u8]> = Some(b"a real binary");

    let mut policy =
        AuthPolicy::new(CountingPrompter::new(&calls, PromptResponse::AllowAlways), empty_whitelist());
    let first = policy.decide(&bin, &target("/vault/a.txt"), held, held, 7);
    assert_eq!(first, Verdict { decision: Decision::Allow, persist: true });
    assert_eq!(calls.get(), 1);

    let stored = policy.whitelist_handle().entries().clone();
    let restarted_calls = Calls::default();
    let mut restarted = AuthPolicy::new(
        CountingPrompter::new(&restarted_calls, PromptResponse::Deny),
        Whitelist::load(&backing, Some(stored)),
    );
    let second = restarted.decide(&bin, &target("/vault/b.txt"), held, held, 8);
    assert_eq!(second.decision, Decision::Allow);
    assert_eq!(restarted_calls.get(), 0);
}

#[test]
fn binary_swapped_after_allow_always_is_reprompted_not_served_from_cache() {
    let calls = Calls::default();
    let bin = ProcessIdentity {
        path: UnixPath::new("/tmp/backing/trusted-tool"),
        comm: "trusted-tool".to_string(),
    };
    let real: Option<&[u8]> = Some(b"the real binary");
    let swapped: Option<&[u8]> = Some(b"a malicious payload");

    let mut policy = AuthPolicy::new(
        SequencedPrompter::new(&calls, &[PromptResponse::AllowAlways, PromptResponse::Deny]),
        empty_whitelist(),
    );

    let first = policy.decide(&bin, &target("/vault/a.txt"), real, real, 0);
    assert_eq!(first.decision, Decision::Allow);
    assert_eq!(calls.get(), 1);

    let second = policy.decide(&bin, &target("/vault/b.txt"), swapped, swapped, 0);
    assert_eq!(second.decision, Decision::Deny);
    assert_eq!(calls.get(), 2);
}

#[test]
fn cached_binary_is_not_blocked_by_a_concurrent_prompt_for_another_binary() {
    let calls = Calls::default();
    let mut policy =
        AuthPolicy::new(CountingPrompter::new(&calls, PromptResponse::AllowOnce), empty_whitelist());
    let cached = identity("/usr/bin/cat");
    assert_eq!(decide(&mut policy, &cached, "/vault/a.txt"), Decision::Allow);

    let unknown =
        ProcessIdentity { path: UnixPath::new("/usr/bin/unknown"), comm: "unknown".to_string() };
    // nothing is known of it, so a dialog is shown, with the policy free
    assert_eq!(policy.known(&unknown, None), None);

    // meanwhile the other binary is decided without anyone being asked
    assert_eq!(policy.known(&cached, None), Some(Decision::Allow));
    assert_eq!(calls.get(), 1);

    let answered = policy.settle(&unknown, PromptResponse::Deny, None, 0);
    assert_eq!(answered.decision, Decision::Deny);
    assert_eq!(policy.known(&unknown, None), Some(Decision::Deny));
}

#[test]
fn escape_markup_neutralizes_pango_special_characters() {
    assert_eq!(
        escape_markup("<b>fake system dialog</b> & \"quoted\" 'text'"),
        "&lt;b&gt;fake system dialog&lt;/b&gt; &amp; &quot;quoted&quot; &apos;text&apos;"
    );
}

#[test]
fn escape_markup_leaves_plain_text_unchanged() {
    assert_eq!(escape_markup("cat (/usr/bin/cat)"), "cat (/usr/bin/cat)");
}

#[test]
fn dialog_text_escapes_an_attacker_chosen_filename() {
    let identity =
        ProcessIdentity { path: UnixPath::new("/usr/bin/cat"), comm: "cat".to_string() };
    let target = UnixPath::new("/vault/<b>Security Update Required</b>.txt");

    let text = dialog_text(&identity, &target);

    assert!(!text.contains('<'), "raw markup leaked into the dialog text: {text}");
    assert!(!text.contains('>'), "raw markup leaked into the dialog text: {text}");
    assert!(text.contains("&lt;b&gt;Security Update Required&lt;/b&gt;.txt"));
}

#[test]
fn dialog_says_who_wants_what() {
    let identity =
        ProcessIdentity { path: UnixPath::new("/usr/bin/cat"), comm: "cat".to_string() };
    assert_eq!(
        dialog_text(&identity, &UnixPath::new("/vault/a.txt")),
        "cat (/usr/bin/cat) wants to access:\n/vault/a.txt\n\nAllow?"
    );
}

#[test]
fn unreadable_names_are_shown_with_replacement_characters() {
    let identity =
        ProcessIdentity { path: UnixPath { bytes: b"/bin/\xff".to_vec() }, comm: "x".to_string() };
    assert_eq!(
        dialog_text(&identity, &UnixPath::new("/v")),
        "x (/bin/\u{fffd}) wants to access:\n/v\n\nAllow?"
    );
}

#[test]
fn different_names_are_shown_differently() {
    assert_ne!(escape_markup("&lt;"), escape_markup("<"));
    assert_eq!(escape_markup("&lt;"), "&amp;lt;");
}

#[test]
fn allow_always_of_an_unreadable_binary_allows_this_once() {
    let calls = Calls::default();
    let mut policy =
        AuthPolicy::new(CountingPrompter::new(&calls, PromptResponse::AllowAlways), empty_whitelist());
    let bin = identity("/usr/bin/cat");
    let verdict = policy.decide(&bin, &target("/vault/a.txt"), None, None, 0);
    assert_eq!(verdict, Verdict { decision: Decision::Allow, persist: false });
    assert_eq!(policy.known(&bin, None), None);
    assert_eq!(policy.whitelist_handle().entries().len(), 0);
}

#[test]
fn approval_from_outside_is_seen_at_once() {
    let calls = Calls::default();
    let mut policy = AuthPolicy::new(CountingPrompter::new(&calls, PromptResponse::Deny), empty_whitelist());
    let bin = identity("/usr/bin/cat");
    assert_eq!(decide(&mut policy, &bin, "/vault/a.txt"), Decision::Deny);
    let added: Result<(), ()> = policy.whitelist_handle().add(&bin, Ok(b"cat"), 1);
    assert_eq!(added, Ok(()));
    assert_eq!(policy.known(&bin, Some(b"cat")), Some(Decision::Allow));
    assert_eq!(policy.known(&bin, Some(b"dog")), Some(Decision::Deny));
    let seen = policy.decide(&bin, &target("/vault/b.txt"), Some(b"cat"), None, 2);
    assert_eq!(seen.decision, Decision::Allow);
    policy.whitelist_handle().clear();
    let cleared = policy.decide(&bin, &target("/vault/c.txt"), Some(b"cat"), None, 3);
    assert_eq!(cleared.decision, Decision::Deny);
    assert_eq!(calls.get(), 1);
}

#[test]
fn zenity_is_asked_with_a_time_limit() {
    let identity =
        ProcessIdentity { path: UnixPath::new("/usr/bin/cat"), comm: "cat".to_string() };
    assert_eq!(
        ZenityPrompter.arguments(&identity, &UnixPath::new("/vault/a.txt"), 120),
        vec![
            "--question",
            "--title=Attache Access Request",
            "--text=cat (/usr/bin/cat) wants to access:\n/vault/a.txt\n\nAllow?",
            "--ok-label=Allow Once",
            "--cancel-label=Deny",
            "--extra-button=Always Allow",
            "--timeout=120",
        ]
    );
}

#[test]
fn zenity_answers_are_told_apart() {
    assert_eq!(ZenityPrompter.response(Some((true, b""))), PromptResponse::AllowOnce);
    assert_eq!(
        ZenityPrompter.response(Some((false, b"Always Allow\n"))),
        PromptResponse::AllowAlways
    );
    assert_eq!(ZenityPrompter.response(Some((false, b""))), PromptResponse::Deny);
    assert_eq!(ZenityPrompter.response(Some((false, b"Always Allow?"))), PromptResponse::Deny);
    assert_eq!(ZenityPrompter.response(Some((false, b"\xff"))), PromptResponse::Deny);
    assert_eq!(ZenityPrompter.response(None), PromptResponse::Deny);
}

#[test]
fn confirmation_dialog_is_escaped_and_fails_closed() {
    assert_eq!(
        ZenityConfirm.arguments("<allow>"),
        vec![
            "--question",
            "--title=Attache Control Request",
            "--text=&lt;allow&gt;",
            "--ok-label=Confirm",
            "--cancel-label=Deny",
        ]
    );
    assert!(ZenityConfirm.confirmed(Some(true)));
    assert!(!ZenityConfirm.confirmed(Some(false)));
    assert!(!ZenityConfirm.confirmed(None));
}

#[test]
fn prompt_timeout_is_two_minutes_unless_set() {
    assert_eq!(prompt_timeout(None), 120);
    assert_eq!(prompt_timeout(Some("30")), 30);
    assert_eq!(prompt_timeout(Some("soon")), 120);
    assert_eq!(prompt_timeout(Some("")), 120);
    assert_eq!(prompt_timeout(Some("18446744073709551615")), u64::MAX);
    assert_eq!(prompt_timeout(Some("18446744073709551616")), 120);
}

#[test]
fn a_dialog_needs_a_display_and_a_session_bus() {
    assert!(can_prompt(Some(":0"), None, Some("unix:path=/run/user/1000/bus")));
    assert!(can_prompt(None, Some("wayland-0"), Some("unix:path=/run/user/1000/bus")));
    assert!(!can_prompt(None, None, Some("unix:path=/run/user/1000/bus")));
    assert!(!can_prompt(Some(""), None, Some("unix:path=/run/user/1000/bus")));
    assert!(!can_prompt(Some(":0"), None, None));
}

#[test]
fn a_process_is_identified_by_its_link_and_name() {
    let resolver = ProcResolver;
    assert_eq!(resolver.exe_link(4711), UnixPath::new("/proc/4711/exe"));
    assert_eq!(resolver.comm_file(4711), UnixPath::new("/proc/4711/comm"));
    let found = resolver.identify(Some(UnixPath::new("/usr/bin/cat")), Some(" cat\n"));
    assert_eq!(
        found,
        Some(ProcessIdentity { path: UnixPath::new("/usr/bin/cat"), comm: "cat".to_string() })
    );
    let unnamed = resolver.identify(Some(UnixPath::new("/usr/bin/cat")), None);
    assert_eq!(unnamed.unwrap().comm, "");
    assert_eq!(resolver.identify(None, Some("cat")), None);
}

#[test]
fn a_binary_is_read_only_where_the_whitelist_names_it() {
    let calls = Calls::default();
    let mut policy = AuthPolicy::new(CountingPrompter::new(&calls, PromptResponse::Deny), empty_whitelist());
    let bin = identity("/usr/bin/cat");
    assert!(!policy.reads_binary(&bin));
    let added: Result<(), ()> = policy.whitelist_handle().add(&bin, Ok(b"cat"), 1);
    assert_eq!(added, Ok(()));
    assert!(policy.reads_binary(&bin));
    assert!(policy.whitelist_handle().mentions(&bin));
    assert!(!policy.reads_binary(&identity("/usr/bin/vim")));
}

#[test]
fn a_dialog_is_prepared_or_access_is_denied() {
    let identity =
        ProcessIdentity { path: UnixPath::new("/usr/bin/cat"), comm: "cat".to_string() };
    let path = UnixPath::new("/vault/a.txt");
    let bus = Some("unix:path=/run/user/1000/bus");
    assert_eq!(
        ZenityPrompter.prompt(&identity, &path, Some(":0"), None, bus, Some("30")),
        Ok(ZenityPrompter.arguments(&identity, &path, 30))
    );
    assert_eq!(
        ZenityPrompter.prompt(&identity, &path, None, Some("wayland-0"), bus, None),
        Ok(ZenityPrompter.arguments(&identity, &path, 120))
    );
    assert_eq!(
        ZenityPrompter.prompt(&identity, &path, None, None, bus, None),
        Err(PromptResponse::Deny)
    );
    assert_eq!(
        ZenityPrompter.prompt(&identity, &path, Some(":0"), None, None, None),
        Err(PromptResponse::Deny)
    );
}

#[test]
fn an_open_question_is_put_once() {
    let calls = Calls::default();
    let mut policy = AuthPolicy::new(
        SequencedPrompter::new(&calls, &[PromptResponse::AllowAlways, PromptResponse::Deny]),
        empty_whitelist(),
    );
    let bin = identity("/usr/bin/cat");
    let first = policy.decide(&bin, &target("/vault/a.txt"), None, None, 0);
    assert_eq!((first.decision, calls.get()), (Decision::Allow, 1));
    let second = policy.decide(&bin, &target("/vault/a.txt"), None, None, 0);
    assert_eq!((second.decision, calls.get()), (Decision::Deny, 2));
    let third = policy.decide(&bin, &target("/vault/a.txt"), None, None, 0);
    assert_eq!((third.decision, calls.get()), (Decision::Deny, 2));
}

#[test]
fn a_digest_decides_as_the_contents_do() {
    let calls = Calls::default();
    let mut policy =
        AuthPolicy::new(CountingPrompter::new(&calls, PromptResponse::Deny), empty_whitelist());
    let bin = identity("/usr/bin/cat");
    let sha256 = hash_file::<()>(Ok(b"cat")).unwrap();
    let verdict =
        policy.settle_by_digest(&bin, PromptResponse::AllowAlways, Some(sha256.clone()), 4);
    assert_eq!(verdict, Verdict { decision: Decision::Allow, persist: true });
    assert_eq!(policy.known_by_digest(&bin, Some(&sha256)), Some(Decision::Allow));
    assert_eq!(policy.known(&bin, Some(b"cat")), Some(Decision::Allow));
    assert_eq!(policy.known_by_digest(&bin, Some("other")), None);
    assert_eq!(policy.known_by_digest(&bin, None), None);
    let unread = policy.settle_by_digest(&bin, PromptResponse::AllowAlways, None, 5);
    assert_eq!(unread, Verdict { decision: Decision::Allow, persist: false });
    let whitelist = policy.whitelist_handle();
    assert!(whitelist.is_allowed_by_digest(&bin, Some(&sha256)));
    assert!(!whitelist.is_allowed_by_digest(&identity("/usr/bin/vim"), Some(&sha256)));
    assert_eq!(whitelist.add_by_digest(&bin, Err(7), 6), Err(7));
    assert_eq!(whitelist.entries()[0].added_at, 4);
    assert_eq!(calls.get(), 0);
}

#[test]
fn escaping_goes_part_by_part() {
    let (a, b) = ("a&b<", "\"c'");
    assert_eq!(escape_markup(&format!("{a}{b}")), escape_markup(a) + &escape_markup(b));
    assert_eq!(escape_markup("&&"), "&amp;&amp;");
}
