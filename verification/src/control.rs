//! The control channel, over which the vault's owner can approve programs and
//! ask about the vault while it is mounted.
//!
//! Whatever changes the whitelist is confirmed by a person first: the socket
//! restricts which user connects, not which program of that user does. What
//! only reads needs no confirmation.

use crate::asking;
use crate::asking::Confirmer;
use crate::digest;
use crate::passthrough_fs::ActivityMonitor;
use crate::path;
use crate::path::UnixPath;
use crate::policy::ControlConfirm;
use crate::process_info::ProcessIdentity;
use crate::text;
use crate::whitelist;
use crate::whitelist::Whitelist;
use vstd::prelude::*;
use vstd::string::*;
use vstd::utf8::*;

verus! {

/// The name of the socket in the directory that holds the vault's state.
pub const SOCKET_NAME: &'static str = "control.sock";

/// Where the control socket is.
pub fn socket_path(state_dir: &UnixPath) -> (r: UnixPath)
    ensures
        r@ == path::joined(state_dir@, encode_utf8(SOCKET_NAME@)),
{
    state_dir.join(SOCKET_NAME.as_bytes())
}

/// What a line on the control socket asks for.
#[derive(Debug)]
pub enum Command {
    /// Always allow the binary at a path.
    AllowAlways(UnixPath),
    /// Remove every approval.
    ResetWhitelist,
    /// List the approvals.
    ListWhitelist,
    /// Tell how long the vault has been idle.
    Status,
    Unknown,
}

/// The command that a line spells: white space around it does not count.
pub open spec fn is_command(line: Seq<char>, c: Command) -> bool {
    let l = text::trimmed(line);
    if text::starts_with(l, "ALLOW-ALWAYS "@) {
        c is AllowAlways && c->AllowAlways_0@ == encode_utf8(
            l.skip("ALLOW-ALWAYS "@.len() as int),
        )
    } else if l == "RESET-WHITELIST"@ {
        c is ResetWhitelist
    } else if l == "LIST-WHITELIST"@ {
        c is ListWhitelist
    } else if l == "STATUS"@ {
        c is Status
    } else {
        c is Unknown
    }
}

/// Reads a line from the control socket.
pub fn parse_command(line: &str) -> (r: Command)
    ensures
        is_command(line@, r),
{
    let l = text::trim(text::chars_of(line).as_slice());
    if let Some(path) = text::strip_prefix(l.as_str(), "ALLOW-ALWAYS ") {
        return Command::AllowAlways(UnixPath::new(path.as_str()));
    }
    if text::same_text(l.as_str(), "RESET-WHITELIST") {
        Command::ResetWhitelist
    } else if text::same_text(l.as_str(), "LIST-WHITELIST") {
        Command::ListWhitelist
    } else if text::same_text(l.as_str(), "STATUS") {
        Command::Status
    } else {
        Command::Unknown
    }
}

/// A request to allow a path is understood as it was written: the path may hold
/// spaces, as long as it does not end in white space.
pub proof fn law_allow_request_names_its_path(path: Seq<char>, c: Command)
    requires
        path.len() > 0,
        !text::is_space(path.last()),
        is_command("ALLOW-ALWAYS "@ + path + "\n"@, c),
    ensures
        c is AllowAlways,
        c->AllowAlways_0@ == encode_utf8(path),
{
    reveal_strlit("ALLOW-ALWAYS ");
    reveal_strlit("\n");
    let asked = "ALLOW-ALWAYS "@ + path;
    let line = asked + "\n"@;
    assert(line[0] == 'A');
    assert(text::trim_start(line) == line);
    assert(line.last() == '\n');
    assert(line.drop_last() =~= asked);
    assert(asked.last() == path.last());
    assert(text::trim_end(line) == text::trim_end(asked));
    assert(text::trim_end(asked) == asked);
    assert(asked.take("ALLOW-ALWAYS "@.len() as int) =~= "ALLOW-ALWAYS "@);
    assert(asked.skip("ALLOW-ALWAYS "@.len() as int) =~= path);
}

/// The answer to a line that spells no command.
pub fn unknown_command() -> (r: String)
    ensures
        r@ == "ERROR unknown command"@,
{
    "ERROR unknown command".to_owned()
}

/// The answer to a request that nobody confirmed.
pub open spec fn not_confirmed() -> Seq<char> {
    "DENIED not confirmed"@
}

/// An error about a path.
pub open spec fn path_error(path: Seq<u8>, error: Seq<char>) -> Seq<char> {
    "ERROR "@ + path::utf8_lossy(path) + ": "@ + error
}

/// What a person is asked to confirm before a binary is approved.
pub open spec fn allow_action(canonical: Seq<u8>) -> Seq<char> {
    "`att allow` wants to always allow:\n"@ + path::utf8_lossy(canonical)
}

/// Something that a person confirmed.
#[derive(Debug)]
pub struct Confirmed<T> {
    subject: T,
}

impl<T> Confirmed<T> {
    /// What was confirmed.
    pub closed spec fn about(&self) -> T {
        self.subject
    }

    /// What was confirmed.
    pub fn subject(&self) -> (r: &T)
        ensures
            *r == self.about(),
    {
        &self.subject
    }
}

/// What comes of asking a person about `subject`: it is confirmed, or there is
/// an answer that says that it was not.
fn when_confirmed<T>(subject: T, confirmed: bool) -> (r: Result<Confirmed<T>, String>)
    ensures
        is_said(r, subject, confirmed),
{
    if confirmed {
        Ok(Confirmed { subject })
    } else {
        Err("DENIED not confirmed".to_owned())
    }
}

/// Whether what came of a request is what the person said who was asked about
/// `subject`: that it is confirmed, or the answer that it was not.
pub open spec fn is_said<T>(r: Result<Confirmed<T>, String>, subject: T, confirmed: bool) -> bool {
    match r {
        Ok(c) => confirmed && c.about() == subject,
        Err(answer) => !confirmed && answer@ == not_confirmed(),
    }
}

/// Whether a person was asked to confirm `action`, just once, and answered
/// `confirmed`.
pub open spec fn is_asked<C: ControlConfirm>(
    before: Confirmer<C>,
    action: Seq<char>,
    confirmed: bool,
    after: Confirmer<C>,
) -> bool {
    &&& after.whom() == before.whom()
    &&& after.asked() == before.asked().push(asking::Request { action, confirmed })
    &&& exists|words: &str|
        words@ == action && #[trigger] call_ensures(
            C::confirm,
            (&before.whom(), words),
            confirmed,
        )
}

/// A request to always allow the binary at `target`, whose real path is
/// `canonical`. A path that cannot be resolved is answered at once, and nobody is
/// asked; otherwise a person is asked once, and has to confirm. `Ok` is the binary
/// to approve, and `Err` the answer.
pub fn allow_always<C: ControlConfirm>(
    confirm: &mut Confirmer<C>,
    target: &UnixPath,
    canonical: Result<UnixPath, String>,
) -> (r: Result<Confirmed<UnixPath>, String>)
    requires
        canonical is Ok ==> old(confirm).whom().may_confirm(allow_action(canonical->Ok_0@)),
    ensures
        match canonical {
            Err(e) => {
                &&& r is Err
                &&& r->Err_0@ == path_error(target@, e@)
                &&& *final(confirm) == *old(confirm)
            },
            Ok(p) => exists|confirmed: bool|
                {
                    &&& #[trigger] is_asked(
                        *old(confirm),
                        allow_action(p@),
                        confirmed,
                        *final(confirm),
                    )
                    &&& is_said(r, p, confirmed)
                },
        },
{
    match canonical {
        Err(e) => {
            let mut answer = "ERROR ".to_owned();
            answer.append(target.display().as_str());
            answer.append(": ");
            answer.append(e.as_str());
            Err(answer)
        },
        Ok(p) => {
            let mut action = "`att allow` wants to always allow:\n".to_owned();
            action.append(p.display().as_str());
            let confirmed = confirm.put(action.as_str());
            assert(is_asked(*old(confirm), allow_action(p@), confirmed, *confirm));
            when_confirmed(p, confirmed)
        },
    }
}

/// The name under which a binary is approved: the last name of its path.
pub open spec fn name_of(canonical: Seq<u8>) -> Seq<char> {
    match path::last_name(path::key_of(canonical)) {
        Some(name) => path::utf8_lossy(name),
        None => Seq::empty(),
    }
}

/// The identity of the binary at `canonical`.
pub fn identity_of(canonical: &UnixPath) -> (r: ProcessIdentity)
    ensures
        r.path@ == canonical@,
        r.comm@ == name_of(canonical@),
{
    let comm = match canonical.file_name() {
        Some(name) => path::from_utf8_lossy(name.as_slice()),
        None => String::new(),
    };
    ProcessIdentity { path: canonical.clone(), comm }
}

/// The entry under which the binary at `canonical`, with the digest `sha256`, is
/// approved at the time `now`.
pub open spec fn entry_for(
    canonical: Seq<u8>,
    sha256: Seq<char>,
    now: u64,
) -> whitelist::EntryView {
    whitelist::EntryView { path: canonical, comm: name_of(canonical), sha256, added_at: now }
}

/// Approves of the binary for which that was confirmed; the whitelist is then
/// to be persisted. `sha256` is the digest of what reading the binary gave. `Err`
/// is the answer where it cannot be read.
pub fn allow_confirmed_by_digest(
    whitelist: &mut Whitelist,
    binary: &Confirmed<UnixPath>,
    sha256: Result<String, String>,
    now: u64,
) -> (r: Result<(), String>)
    ensures
        final(whitelist).location() == old(whitelist).location(),
        match sha256 {
            Ok(h) => r is Ok && final(whitelist)@ == whitelist::with_entry(
                old(whitelist)@,
                entry_for(binary.about()@, h@, now),
            ),
            Err(e) => {
                &&& r is Err
                &&& r->Err_0@ == path_error(binary.about()@, e@)
                &&& final(whitelist)@ == old(whitelist)@
            },
        },
{
    let canonical = binary.subject();
    let identity = identity_of(canonical);
    match whitelist.add_by_digest(&identity, sha256, now) {
        Ok(_) => Ok(()),
        Err(e) => {
            let mut answer = "ERROR ".to_owned();
            answer.append(canonical.display().as_str());
            answer.append(": ");
            answer.append(e.as_str());
            Err(answer)
        },
    }
}

/// Approves of the binary for which that was confirmed. `contents` is what
/// reading the binary gave.
pub fn allow_confirmed(
    whitelist: &mut Whitelist,
    binary: &Confirmed<UnixPath>,
    contents: Result<&[u8], String>,
    now: u64,
) -> (r: Result<(), String>)
    ensures
        final(whitelist).location() == old(whitelist).location(),
        match contents {
            Ok(c) => r is Ok && final(whitelist)@ == whitelist::with_entry(
                old(whitelist)@,
                entry_for(binary.about()@, digest::sha256_text(c@), now),
            ),
            Err(e) => {
                &&& r is Err
                &&& r->Err_0@ == path_error(binary.about()@, e@)
                &&& final(whitelist)@ == old(whitelist)@
            },
        },
{
    allow_confirmed_by_digest(whitelist, binary, whitelist::hash_file(contents), now)
}

/// The answer to an approval, from how persisting the whitelist went.
pub fn allow_persisted(canonical: &UnixPath, persisted: Result<(), String>) -> (r: String)
    ensures
        r@ == match persisted {
            Ok(_) => "OK whitelisted "@ + path::utf8_lossy(canonical@),
            Err(e) => "ERROR "@ + e@,
        },
{
    match persisted {
        Ok(_) => {
            let mut answer = "OK whitelisted ".to_owned();
            answer.append(canonical.display().as_str());
            answer
        },
        Err(e) => {
            let mut answer = "ERROR ".to_owned();
            answer.append(e.as_str());
            answer
        },
    }
}

/// The answer to a request for the approvals: that there are none, or a row
/// for each.
pub fn list_whitelist(whitelist: &Whitelist) -> (r: String)
    ensures
        r@ == if whitelist::rows(whitelist@).len() == 0 {
            "OK empty"@
        } else {
            "OK\n"@ + text::trim_end(whitelist::rows(whitelist@))
        },
{
    let tsv = whitelist.tsv();
    let chars = text::chars_of(tsv.as_str());
    if chars.len() == 0 {
        "OK empty".to_owned()
    } else {
        let mut answer = "OK\n".to_owned();
        answer.append(text::trim_tail(chars.as_slice()).as_str());
        answer
    }
}

/// Seconds from `then` to `now`, or none where the clock went back.
pub open spec fn seconds_since(now: u64, then: u64) -> nat {
    if now >= then {
        (now - then) as nat
    } else {
        0
    }
}

/// The answer to a request for the vault's activity: how many seconds it has
/// been idle at the time `now`, and how many files are open. Either tells that
/// the vault is in use, so both are to be looked at before it is closed.
pub fn status(activity: &ActivityMonitor, now: u64) -> (r: String)
    ensures
        r@ == "OK "@ + text::decimal(seconds_since(now, activity.last_activity)) + " "@
            + text::decimal(activity.handles as nat),
{
    let last: u64 = activity.last_activity_secs();
    let idle: u64 = if now >= last {
        now - last
    } else {
        0
    };
    let mut answer = "OK ".to_owned();
    text::push_decimal(&mut answer, idle);
    answer.append(" ");
    text::push_decimal(&mut answer, activity.open_handles() as u64);
    answer
}

/// What a person is asked to confirm before every approval is removed.
pub open spec fn reset_action() -> Seq<char> {
    "`att reset-whitelist` wants to remove every always-allowed app.\nEvery app will need to be re-approved."@
}

/// A request to remove every approval: a person is asked once, and has to
/// confirm. `Err` is the answer where nobody did.
pub fn reset_whitelist<C: ControlConfirm>(confirm: &mut Confirmer<C>) -> (r: Result<
    Confirmed<()>,
    String,
>)
    requires
        old(confirm).whom().may_confirm(reset_action()),
    ensures
        exists|confirmed: bool|
            {
                &&& #[trigger] is_asked(
                    *old(confirm),
                    reset_action(),
                    confirmed,
                    *final(confirm),
                )
                &&& is_said(r, (), confirmed)
            },
{
    let action =
        "`att reset-whitelist` wants to remove every always-allowed app.\nEvery app will need to be re-approved.";
    let confirmed = confirm.put(action);
    assert(is_asked(*old(confirm), reset_action(), confirmed, *confirm));
    when_confirmed((), confirmed)
}

/// Removes every approval, once that is confirmed; the whitelist is then to be
/// persisted.
pub fn reset_confirmed(whitelist: &mut Whitelist, _confirmed: Confirmed<()>)
    ensures
        final(whitelist).location() == old(whitelist).location(),
        final(whitelist)@ == Seq::<whitelist::EntryView>::empty(),
{
    whitelist.clear();
}

/// The answer to a reset of the whitelist, from how persisting it went.
pub fn reset_persisted(persisted: Result<(), String>) -> (r: String)
    ensures
        r@ == match persisted {
            Ok(_) => "OK whitelist reset"@,
            Err(e) => "ERROR "@ + e@,
        },
{
    match persisted {
        Ok(_) => "OK whitelist reset".to_owned(),
        Err(e) => {
            let mut answer = "ERROR ".to_owned();
            answer.append(e.as_str());
            answer
        },
    }
}

/// Each command is spelled in one way, with white space around it or not: three by
/// their name alone, and an approval by its name, one space and a path, which is all
/// that follows. Nothing else is a command.
pub proof fn law_command_is_what_the_line_spells(line: Seq<char>, path: Seq<char>, c: Command)
    requires
        is_command(line, c),
    ensures
        c is Status <==> text::trimmed(line) == "STATUS"@,
        c is ListWhitelist <==> text::trimmed(line) == "LIST-WHITELIST"@,
        c is ResetWhitelist <==> text::trimmed(line) == "RESET-WHITELIST"@,
        c is AllowAlways <==> "ALLOW-ALWAYS "@.is_prefix_of(text::trimmed(line)),
        text::trimmed(line) == "ALLOW-ALWAYS "@ + path ==> c is AllowAlways && c->AllowAlways_0@
            == encode_utf8(path),
{
    reveal_strlit("ALLOW-ALWAYS ");
    reveal_strlit("RESET-WHITELIST");
    reveal_strlit("LIST-WHITELIST");
    reveal_strlit("STATUS");
    let l = text::trimmed(line);
    let n = "ALLOW-ALWAYS "@.len() as int;
    assert("ALLOW-ALWAYS "@[0] == 'A');
    assert("RESET-WHITELIST"@[0] == 'R');
    assert("LIST-WHITELIST"@[0] == 'L');
    assert("STATUS"@[0] == 'S');
    if l.len() >= n {
        assert(l.take(n) =~= l.subrange(0, n));
        assert(l.take(n)[0] == l[0]);
    }
    if l == "ALLOW-ALWAYS "@ + path {
        assert(l.take(n) =~= "ALLOW-ALWAYS "@);
        assert(l.skip(n) =~= path);
    }
}

/// A binary is to be approved exactly where a person confirmed it; otherwise the
/// answer says that nobody did.
pub proof fn law_only_what_is_confirmed_goes_ahead<T>(
    r: Result<Confirmed<T>, String>,
    subject: T,
    confirmed: bool,
)
    requires
        is_said(r, subject, confirmed),
    ensures
        r is Ok <==> confirmed,
        r is Ok ==> r->Ok_0.about() == subject,
        r is Err ==> r->Err_0@ == "DENIED not confirmed"@,
{
}

/// A person is asked once, in just the words of the action, and it is that person's
/// answer that counts.
pub proof fn law_person_is_asked_once<C: ControlConfirm>(
    before: Confirmer<C>,
    action: Seq<char>,
    confirmed: bool,
    after: Confirmer<C>,
)
    requires
        is_asked(before, action, confirmed, after),
    ensures
        after.whom() == before.whom(),
        after.asked().len() == before.asked().len() + 1,
        after.asked().drop_last() == before.asked(),
        after.asked().last().action == action,
        after.asked().last().confirmed == confirmed,
        exists|words: &str|
            words@ == action && #[trigger] call_ensures(
                C::confirm,
                (&before.whom(), words),
                confirmed,
            ),
{
    assert(after.asked().drop_last() =~= before.asked());
}

/// A person is told what is to be approved, by its path in full, or that every
/// approval goes; an error names its path and says what is wrong.
pub proof fn law_person_is_told_what_is_asked(path: Seq<u8>, error: Seq<char>)
    ensures
        allow_action(path) == "`att allow` wants to always allow:\n"@ + path::utf8_lossy(path),
        reset_action()
            == "`att reset-whitelist` wants to remove every always-allowed app.\nEvery app will need to be re-approved."@,
        path_error(path, error) == "ERROR "@ + path::utf8_lossy(path) + ": "@ + error,
        not_confirmed() == "DENIED not confirmed"@,
{
}

/// A binary is approved under its path, by the last name of that, with the digest
/// and the time that are given.
pub proof fn law_approval_is_under_the_last_name(
    canonical: Seq<u8>,
    sha256: Seq<char>,
    now: u64,
)
    ensures
        ({
            let e = entry_for(canonical, sha256, now);
            let last = path::last_name(path::key_of(canonical));
            &&& e.path == canonical
            &&& e.sha256 == sha256
            &&& e.added_at == now
            &&& last is Some ==> e.comm == path::utf8_lossy(last->0)
            &&& last is None ==> e.comm == Seq::<char>::empty()
        }),
{
}

/// The idle time and the time of the last use make up the present; where the clock
/// went back there is no idle time.
pub proof fn law_idle_time_leads_to_now(now: u64, then: u64)
    ensures
        then <= now ==> then + seconds_since(now, then) == now,
        then > now ==> seconds_since(now, then) == 0,
{
}

} // verus!
