//! Which program may open the vault: the session's decisions, the persistent
//! approvals, and the dialogs that ask for them.

use crate::asking;
use crate::asking::Asker;
use crate::digest;
use crate::path;
use crate::path::UnixPath;
use crate::path_map::PathMap;
use crate::process_info::ProcessIdentity;
use crate::text;
use crate::whitelist;
use crate::whitelist::Whitelist;
use vstd::prelude::*;
use vstd::string::*;

verus! {

#[derive(Debug, Clone, Copy, PartialEq, Eq, Structural)]
pub enum Decision {
    Allow,
    Deny,
}

/// A user's answer to an access prompt. `AllowAlways` is distinct from
/// `AllowOnce` in that it is recorded in the vault's [`Whitelist`], so the same
/// binary is allowed on later accesses without a prompt.
#[derive(Debug, Clone, Copy, PartialEq, Eq, Structural)]
pub enum PromptResponse {
    AllowOnce,
    AllowAlways,
    Deny,
}

/// Asks the user (or a test double) whether a process should be allowed access.
pub trait Prompter {
    /// Whether the user may be asked; always, unless an implementation narrows it.
    /// A function whose contract does not ask for this asks nobody.
    open spec fn may_ask(&self, identity: ProcessIdentity, target: UnixPath) -> bool {
        true
    }

    fn ask(&self, identity: &ProcessIdentity, target: &UnixPath) -> PromptResponse
        requires
            self.may_ask(*identity, *target),
    ;
}

/// What is decided about the binary at `k`, what it now holds having the digest
/// `sha256`, without asking. The whitelist comes first and is held against the
/// contents every time; then comes the answer that the user gave in this
/// session.
pub open spec fn standing_by_digest(
    approvals: Seq<whitelist::EntryView>,
    cache: Map<path::PathKey, Decision>,
    k: path::PathKey,
    sha256: Option<Seq<char>>,
) -> Option<Decision> {
    if whitelist::approved_by_digest(approvals, k, sha256) {
        Some(Decision::Allow)
    } else if cache.contains_key(k) {
        Some(cache[k])
    } else {
        None
    }
}

/// What is decided about the binary at `k`, which now holds `contents`, without
/// asking.
pub open spec fn standing(
    approvals: Seq<whitelist::EntryView>,
    cache: Map<path::PathKey, Decision>,
    k: path::PathKey,
    contents: Option<Seq<u8>>,
) -> Option<Decision> {
    standing_by_digest(approvals, cache, k, whitelist::digest_of(contents))
}

/// Whether the user has to be asked about the binary at `k`, which now holds
/// `contents`: neither the whitelist nor the session decides about it.
pub open spec fn is_open(
    approvals: Seq<whitelist::EntryView>,
    cache: Map<path::PathKey, Decision>,
    k: path::PathKey,
    contents: Option<Seq<u8>>,
) -> bool {
    standing(approvals, cache, k, contents) is None
}

/// What an answer decides.
pub open spec fn answer_decision(response: PromptResponse) -> Decision {
    match response {
        PromptResponse::Deny => Decision::Deny,
        _ => Decision::Allow,
    }
}

/// The session's decisions after an answer. `AllowAlways` leaves them as they
/// are: such a binary is held against the whitelist on every access, and a
/// decision kept here would outlive a swap of its contents.
pub open spec fn answer_cache(
    cache: Map<path::PathKey, Decision>,
    k: path::PathKey,
    response: PromptResponse,
) -> Map<path::PathKey, Decision> {
    match response {
        PromptResponse::AllowAlways => cache,
        _ => cache.insert(k, answer_decision(response)),
    }
}

/// The approvals after an answer. `AllowAlways` adds the binary with the digest
/// of what it holds, unless it cannot be read.
pub open spec fn answer_approvals(
    approvals: Seq<whitelist::EntryView>,
    identity: ProcessIdentity,
    response: PromptResponse,
    sha256: Option<Seq<char>>,
    now: u64,
) -> Seq<whitelist::EntryView> {
    match (response, sha256) {
        (PromptResponse::AllowAlways, Some(h)) => whitelist::with_entry(
            approvals,
            whitelist::EntryView {
                path: identity.path@,
                comm: identity.comm@,
                sha256: h,
                added_at: now,
            },
        ),
        _ => approvals,
    }
}

/// A decision, and whether the whitelist has changed with it and is to be
/// persisted.
#[derive(Debug, Clone, Copy, PartialEq, Eq, Structural)]
pub struct Verdict {
    pub decision: Decision,
    pub persist: bool,
}

/// What an answer comes to.
pub open spec fn answer_verdict(response: PromptResponse, sha256: Option<Seq<char>>) -> Verdict {
    Verdict {
        decision: answer_decision(response),
        persist: response == PromptResponse::AllowAlways && sha256 is Some,
    }
}

/// An answer about `identity` was settled with the verdict `r`, and the policy is
/// `after` then. `sha256` is the digest of what the binary held after the answer.
pub open spec fn settled<P: Prompter>(
    before: AuthPolicy<P>,
    identity: ProcessIdentity,
    response: PromptResponse,
    sha256: Option<Seq<char>>,
    now: u64,
    r: Verdict,
    after: AuthPolicy<P>,
) -> bool {
    &&& r == answer_verdict(response, sha256)
    &&& after.asker() == before.asker()
    &&& after.cached() == answer_cache(before.cached(), identity.path.key(), response)
    &&& after.approvals()@ == answer_approvals(
        before.approvals()@,
        identity,
        response,
        sha256,
        now,
    )
    &&& after.approvals().location() == before.approvals().location()
}

/// A policy came to the verdict `r` about `identity` and is `after` then. What
/// is decided already stands: nothing changes, and nobody is asked. Otherwise one
/// question was put to the policy's prompter, about just this program and target,
/// and its answer is settled. `contents` is what the binary held before, and
/// `fresh` what it held after an answer.
pub open spec fn decided<P: Prompter>(
    before: AuthPolicy<P>,
    identity: ProcessIdentity,
    target: UnixPath,
    contents: Option<Seq<u8>>,
    fresh: Option<Seq<u8>>,
    now: u64,
    r: Verdict,
    after: AuthPolicy<P>,
) -> bool {
    match standing(before.approvals()@, before.cached(), identity.path.key(), contents) {
        Some(d) => r == (Verdict { decision: d, persist: false }) && after == before,
        None => exists|response: PromptResponse|
            {
                &&& call_ensures(P::ask, (&before.asker(), &identity, &target), response)
                &&& after.asked() == before.asked().push(
                    asking::Question { identity, target, response },
                )
                &&& #[trigger] settled(
                    before,
                    identity,
                    response,
                    whitelist::digest_of(fresh),
                    now,
                    r,
                    after,
                )
            },
    }
}

/// Caches per-binary decisions for the lifetime of the mount, so the same
/// process isn't asked about on every file access. Also consults (and, on an
/// "always allow" response, updates) the vault's persistent [`Whitelist`], so
/// approvals survive across mounts too.
pub struct AuthPolicy<P: Prompter> {
    asker: Asker<P>,
    cache: PathMap<Decision>,
    whitelist: Whitelist,
}

impl<P: Prompter> AuthPolicy<P> {
    /// Whom the policy asks.
    pub closed spec fn asker(&self) -> P {
        self.asker.whom()
    }

    /// The questions that the policy put, with their answers.
    pub closed spec fn asked(&self) -> Seq<asking::Question> {
        self.asker.asked()
    }

    /// The decisions of this session.
    pub closed spec fn cached(&self) -> Map<path::PathKey, Decision> {
        self.cache@
    }

    /// The whitelist that the policy consults.
    pub closed spec fn approvals(&self) -> Whitelist {
        self.whitelist
    }

    pub fn new(prompter: P, whitelist: Whitelist) -> (r: Self)
        ensures
            r.asker() == prompter,
            r.asked() == Seq::<asking::Question>::empty(),
            r.cached() == Map::<path::PathKey, Decision>::empty(),
            r.approvals() == whitelist,
    {
        AuthPolicy { asker: Asker::new(prompter), cache: PathMap::new(), whitelist }
    }

    /// A handle to the whitelist that this policy consults, so that something
    /// outside the access path can add to it or clear it while the vault is
    /// mounted. The policy sees the change at once.
    pub fn whitelist_handle(&mut self) -> (r: &mut Whitelist)
        ensures
            *r == old(self).approvals(),
            final(self).approvals() == *final(r),
            final(self).cached() == old(self).cached(),
            final(self).asker() == old(self).asker(),
            final(self).asked() == old(self).asked(),
    {
        &mut self.whitelist
    }

    /// Whether what `identity`'s binary holds can matter to what is known of
    /// it: only then is it to be read.
    pub fn reads_binary(&self, identity: &ProcessIdentity) -> (r: bool)
        ensures
            r == (whitelist::first_entry(self.approvals()@, identity.path.key()) is Some),
            !r ==> forall|sha256: Option<Seq<char>>| #[trigger]
                standing_by_digest(self.approvals()@, self.cached(), identity.path.key(), sha256)
                    == standing_by_digest(
                    self.approvals()@,
                    self.cached(),
                    identity.path.key(),
                    None,
                ),
    {
        self.whitelist.mentions(identity)
    }

    /// What is decided about `identity` without asking the user. `sha256` is the
    /// digest of what reading its binary gave.
    pub fn known_by_digest(&self, identity: &ProcessIdentity, sha256: Option<&str>) -> (r: Option<
        Decision,
    >)
        ensures
            r == standing_by_digest(
                self.approvals()@,
                self.cached(),
                identity.path.key(),
                text::text_view(sha256),
            ),
    {
        if self.whitelist.is_allowed_by_digest(identity, sha256) {
            return Some(Decision::Allow);
        }
        self.cache.get(&identity.path)
    }

    /// What is decided about `identity` without asking the user. `contents` is
    /// what reading its binary gave.
    pub fn known(&self, identity: &ProcessIdentity, contents: Option<&[u8]>) -> (r: Option<
        Decision,
    >)
        ensures
            r == standing(
                self.approvals()@,
                self.cached(),
                identity.path.key(),
                whitelist::read_view(contents),
            ),
    {
        match contents {
            Some(c) if self.reads_binary(identity) => self.known_by_digest(
                identity,
                Some(digest::hex_digest(c).as_str()),
            ),
            _ => self.known_by_digest(identity, None),
        }
    }

    /// Takes the user's answer about `identity`. `sha256` is the digest of what
    /// reading its binary gave after the answer; it is looked at only where the
    /// answer is to allow always.
    pub fn settle_by_digest(
        &mut self,
        identity: &ProcessIdentity,
        response: PromptResponse,
        sha256: Option<String>,
        now: u64,
    ) -> (r: Verdict)
        ensures
            settled(
                *old(self),
                *identity,
                response,
                text::string_view(sha256),
                now,
                r,
                *final(self),
            ),
            final(self).asked() == old(self).asked(),
    {
        match response {
            PromptResponse::AllowOnce => {
                self.cache.insert(identity.path.clone(), Decision::Allow);
                Verdict { decision: Decision::Allow, persist: false }
            },
            PromptResponse::AllowAlways => {
                let read: Result<String, ()> = match sha256 {
                    Some(h) => Ok(h),
                    None => Err(()),
                };
                let added = self.whitelist.add_by_digest(identity, read, now);
                Verdict { decision: Decision::Allow, persist: added.is_ok() }
            },
            PromptResponse::Deny => {
                self.cache.insert(identity.path.clone(), Decision::Deny);
                Verdict { decision: Decision::Deny, persist: false }
            },
        }
    }

    /// Takes the user's answer about `identity`. `contents` is what reading its
    /// binary gave after the answer.
    pub fn settle(
        &mut self,
        identity: &ProcessIdentity,
        response: PromptResponse,
        contents: Option<&[u8]>,
        now: u64,
    ) -> (r: Verdict)
        ensures
            settled(
                *old(self),
                *identity,
                response,
                whitelist::digest_of(whitelist::read_view(contents)),
                now,
                r,
                *final(self),
            ),
            final(self).asked() == old(self).asked(),
    {
        let sha256 = match contents {
            Some(c) => Some(digest::hex_digest(c)),
            None => None,
        };
        self.settle_by_digest(identity, response, sha256, now)
    }

    /// Decides whether `identity` may touch `target`. The prompter is asked once,
    /// about `identity` and `target`, where nothing is decided yet, and otherwise
    /// not at all. `contents` is what reading the binary gave, and `fresh` what
    /// reading it once more gave when the answer was to allow always.
    pub fn decide(
        &mut self,
        identity: &ProcessIdentity,
        target: &UnixPath,
        contents: Option<&[u8]>,
        fresh: Option<&[u8]>,
        now: u64,
    ) -> (r: Verdict)
        requires
            is_open(
                old(self).approvals()@,
                old(self).cached(),
                identity.path.key(),
                whitelist::read_view(contents),
            ) ==> old(self).asker().may_ask(*identity, *target),
        ensures
            decided(
                *old(self),
                *identity,
                *target,
                whitelist::read_view(contents),
                whitelist::read_view(fresh),
                now,
                r,
                *final(self),
            ),
    {
        if let Some(decision) = self.known(identity, contents) {
            return Verdict { decision, persist: false };
        }
        let response = self.asker.put(identity, target);
        let verdict = self.settle(identity, response, fresh, now);
        assert(settled(
            *old(self),
            *identity,
            response,
            whitelist::digest_of(whitelist::read_view(fresh)),
            now,
            verdict,
            *self,
        ));
        verdict
    }
}

/// An answer for once, or a denial, holds for the rest of the session: the
/// binary is decided by it, and the user is not asked about it again.
pub proof fn law_answer_holds_for_the_session(
    approvals: Seq<whitelist::EntryView>,
    cache: Map<path::PathKey, Decision>,
    identity: ProcessIdentity,
    response: PromptResponse,
    read: Option<Seq<u8>>,
    now: u64,
    contents: Option<Seq<u8>>,
)
    requires
        response != PromptResponse::AllowAlways,
        !whitelist::approved(approvals, identity.path.key(), contents),
    ensures
        standing(
            answer_approvals(approvals, identity, response, whitelist::digest_of(read), now),
            answer_cache(cache, identity.path.key(), response),
            identity.path.key(),
            contents,
        ) == Some(answer_decision(response)),
        !is_open(
            answer_approvals(approvals, identity, response, whitelist::digest_of(read), now),
            answer_cache(cache, identity.path.key(), response),
            identity.path.key(),
            contents,
        ),
{
}

/// A binary that the whitelist approves of, such as one that was always allowed
/// before a restart, is allowed without asking, whatever the session says of it.
pub proof fn law_approved_binary_is_not_asked_about(
    approvals: Seq<whitelist::EntryView>,
    cache: Map<path::PathKey, Decision>,
    k: path::PathKey,
    contents: Option<Seq<u8>>,
)
    requires
        whitelist::approved(approvals, k, contents),
    ensures
        standing(approvals, cache, k, contents) == Some(Decision::Allow),
        !is_open(approvals, cache, k, contents),
{
}

/// A change of the whitelist is seen at once. Once a binary was added with what
/// it holds, it is allowed without asking, also where the session denied it.
/// Once the whitelist is cleared, the session's answer is back, again without
/// asking, and where there is none the user is asked.
pub proof fn law_whitelist_change_is_seen_at_once(
    approvals: Seq<whitelist::EntryView>,
    cache: Map<path::PathKey, Decision>,
    e: whitelist::EntryView,
    contents: Seq<u8>,
)
    requires
        e.sha256 == digest::sha256_text(contents),
    ensures
        ({
            let k = path::key_of(e.path);
            let added = whitelist::with_entry(approvals, e);
            let cleared = Seq::<whitelist::EntryView>::empty();
            &&& standing(added, cache, k, Some(contents)) == Some(Decision::Allow)
            &&& !is_open(added, cache, k, Some(contents))
            &&& standing(cleared, cache, k, Some(contents)) == if cache.contains_key(k) {
                Some(cache[k])
            } else {
                None::<Decision>
            }
            &&& is_open(cleared, cache, k, Some(contents)) == !cache.contains_key(k)
        }),
{
    whitelist::law_approval_is_pinned_to_the_contents(approvals, e, Some(contents));
}

/// An answer about one binary decides nothing about another.
pub proof fn law_answer_is_for_one_binary(
    approvals: Seq<whitelist::EntryView>,
    cache: Map<path::PathKey, Decision>,
    identity: ProcessIdentity,
    response: PromptResponse,
    read: Option<Seq<u8>>,
    now: u64,
    other: path::PathKey,
    contents: Option<Seq<u8>>,
)
    requires
        other != identity.path.key(),
    ensures
        standing(
            answer_approvals(approvals, identity, response, whitelist::digest_of(read), now),
            answer_cache(cache, identity.path.key(), response),
            other,
            contents,
        ) == standing(approvals, cache, other, contents),
{
    if response == PromptResponse::AllowAlways && read is Some {
        whitelist::law_approval_is_for_one_path(
            approvals,
            whitelist::EntryView {
                path: identity.path@,
                comm: identity.comm@,
                sha256: digest::sha256_text(read->0),
                added_at: now,
            },
            other,
            contents,
        );
    }
}

/// "Always allow" is pinned to what the binary held: while it holds that, it is
/// allowed, in this session and, with an empty cache, in any later one; once
/// its digest differs, the user is asked again.
pub proof fn law_allow_always_is_pinned_to_the_contents(
    approvals: Seq<whitelist::EntryView>,
    cache: Map<path::PathKey, Decision>,
    identity: ProcessIdentity,
    read: Seq<u8>,
    now: u64,
    contents: Option<Seq<u8>>,
)
    requires
        !cache.contains_key(identity.path.key()),
    ensures
        standing(
            answer_approvals(
                approvals,
                identity,
                PromptResponse::AllowAlways,
                Some(digest::sha256_text(read)),
                now,
            ),
            answer_cache(cache, identity.path.key(), PromptResponse::AllowAlways),
            identity.path.key(),
            contents,
        ) == if contents is Some && digest::sha256_text(contents->0) == digest::sha256_text(read) {
            Some(Decision::Allow)
        } else {
            None::<Decision>
        },
{
    whitelist::law_approval_is_pinned_to_the_contents(
        approvals,
        whitelist::EntryView {
            path: identity.path@,
            comm: identity.comm@,
            sha256: digest::sha256_text(read),
            added_at: now,
        },
        contents,
    );
}

/// What a session remembers of the answers that were given in it.
pub open spec fn session(answers: Seq<asking::Question>) -> Map<path::PathKey, Decision>
    decreases answers.len(),
{
    if answers.len() == 0 {
        Map::empty()
    } else {
        let last = answers.last();
        answer_cache(session(answers.drop_last()), last.identity.path.key(), last.response)
    }
}

/// Whether an answer about the binary at `k` is remembered in the session.
pub open spec fn is_remembered(q: asking::Question, k: path::PathKey) -> bool {
    q.identity.path.key() == k && q.response != PromptResponse::AllowAlways
}

/// A policy whose session is that of the answers it was given keeps it so, with
/// every decision; a new policy is such a one.
pub proof fn law_session_is_that_of_the_answers<P: Prompter>(
    before: AuthPolicy<P>,
    identity: ProcessIdentity,
    target: UnixPath,
    contents: Option<Seq<u8>>,
    fresh: Option<Seq<u8>>,
    now: u64,
    r: Verdict,
    after: AuthPolicy<P>,
)
    requires
        before.cached() == session(before.asked()),
        decided(before, identity, target, contents, fresh, now, r, after),
    ensures
        session(Seq::<asking::Question>::empty()) == Map::<path::PathKey, Decision>::empty(),
        after.cached() == session(after.asked()),
{
    if is_open(before.approvals()@, before.cached(), identity.path.key(), contents) {
        assert(after.asked().drop_last() =~= before.asked());
    }
}

/// A session remembers the last answer about a binary that was for once or a
/// denial, and nothing of a binary that was given none.
pub proof fn law_session_remembers_the_last_answer(
    answers: Seq<asking::Question>,
    k: path::PathKey,
)
    ensures
        session(answers).contains_key(k) <==> exists|i: int|
            0 <= i < answers.len() && is_remembered(#[trigger] answers[i], k),
        forall|i: int|
            0 <= i < answers.len() && is_remembered(#[trigger] answers[i], k) && (forall|j: int|
                i < j < answers.len() ==> !is_remembered(#[trigger] answers[j], k))
                ==> session(answers)[k] == answer_decision(answers[i].response),
    decreases answers.len(),
{
    if answers.len() > 0 {
        let front = answers.drop_last();
        let n = answers.len() - 1;
        law_session_remembers_the_last_answer(front, k);
        assert(answers[n] == answers.last());
        if session(front).contains_key(k) {
            let i = choose|i: int| 0 <= i < front.len() && is_remembered(#[trigger] front[i], k);
            assert(is_remembered(answers[i], k));
        }
        if session(answers).contains_key(k) && !is_remembered(answers[n], k) {
            assert(session(front).contains_key(k));
        }
        assert forall|i: int| 0 <= i < n implies #[trigger] answers[i] == front[i] by {}
        if exists|i: int| 0 <= i < answers.len() && is_remembered(#[trigger] answers[i], k) {
            let i = choose|i: int|
                0 <= i < answers.len() && is_remembered(#[trigger] answers[i], k);
            if i < n {
                assert(is_remembered(front[i], k));
            }
        }
        assert forall|i: int|
            0 <= i < answers.len() && is_remembered(#[trigger] answers[i], k) && (forall|j: int|
                i < j < answers.len() ==> !is_remembered(#[trigger] answers[j], k))
            implies session(answers)[k] == answer_decision(answers[i].response) by {
            if i < n {
                assert(!is_remembered(answers[n], k));
                assert(is_remembered(front[i], k));
                assert forall|j: int| i < j < front.len() implies !is_remembered(
                    #[trigger] front[j],
                    k,
                ) by {
                    assert(!is_remembered(answers[j], k));
                }
            }
        }
    }
}

/// What a binary that is on no whitelist and was never asked about gets
/// without an answer: nothing.
pub proof fn law_unknown_binary_is_never_allowed_unasked(
    approvals: Seq<whitelist::EntryView>,
    cache: Map<path::PathKey, Decision>,
    k: path::PathKey,
    contents: Option<Seq<u8>>,
)
    requires
        whitelist::first_entry(approvals, k) is None,
        !cache.contains_key(k),
    ensures
        is_open(approvals, cache, k, contents),
{
}

/// What stands for a character in markup.
pub open spec fn entity(c: char) -> Seq<char> {
    if c == '&' {
        seq!['&', 'a', 'm', 'p', ';']
    } else if c == '<' {
        seq!['&', 'l', 't', ';']
    } else if c == '>' {
        seq!['&', 'g', 't', ';']
    } else if c == '\'' {
        seq!['&', 'a', 'p', 'o', 's', ';']
    } else if c == '"' {
        seq!['&', 'q', 'u', 'o', 't', ';']
    } else {
        seq![c]
    }
}

/// A text as markup that shows it.
pub open spec fn escaped(s: Seq<char>) -> Seq<char>
    decreases s.len(),
{
    if s.len() == 0 {
        Seq::empty()
    } else {
        entity(s[0]) + escaped(s.subrange(1, s.len() as int))
    }
}

/// The characters of markup that a text must not hold as they are.
pub open spec fn is_markup(c: char) -> bool {
    c == '<' || c == '>' || c == '\'' || c == '"'
}

/// Escapes the five characters Pango/GLib markup treats specially. Process
/// names and paths are chosen by whoever asks for access; unescaped, they could
/// put formatting into the dialog and misrepresent what is being asked.
pub fn escape_markup(s: &str) -> (r: String)
    ensures
        r@ == escaped(s@),
{
    let chars = text::chars_of(s);
    let ghost all = chars@;
    let mut r = String::new();
    let mut i: usize = 0;
    assert(all.subrange(0, all.len() as int) =~= all);
    while i < chars.len()
        invariant
            i <= chars@.len(),
            all == chars@,
            escaped(all) == r@ + escaped(all.subrange(i as int, all.len() as int)),
        decreases chars@.len() - i,
    {
        let ghost before = r@;
        let ghost rest = all.subrange(i as int, all.len() as int);
        let c: char = chars[i];
        proof {
            reveal_strlit("&amp;");
            reveal_strlit("&lt;");
            reveal_strlit("&gt;");
            reveal_strlit("&apos;");
            reveal_strlit("&quot;");
        }
        if c == '&' {
            r.append("&amp;");
        } else if c == '<' {
            r.append("&lt;");
        } else if c == '>' {
            r.append("&gt;");
        } else if c == '\'' {
            r.append("&apos;");
        } else if c == '"' {
            r.append("&quot;");
        } else {
            r.push(c);
        }
        assert(r@ =~= before + entity(c));
        assert(rest.subrange(1, rest.len() as int) =~= all.subrange(i + 1, all.len() as int));
        assert(before + (entity(c) + escaped(all.subrange(i + 1, all.len() as int))) =~= r@
            + escaped(all.subrange(i + 1, all.len() as int)));
        i += 1;
    }
    assert(r@ + escaped(all.subrange(all.len() as int, all.len() as int)) =~= r@);
    r
}

/// Escaped text holds none of the characters that start or quote markup.
pub proof fn law_escaped_text_has_no_markup(s: Seq<char>)
    ensures
        forall|i: int| 0 <= i < escaped(s).len() ==> !is_markup(#[trigger] escaped(s)[i]),
    decreases s.len(),
{
    if s.len() > 0 {
        let rest = s.subrange(1, s.len() as int);
        law_escaped_text_has_no_markup(rest);
        let head = entity(s[0]);
        assert forall|i: int| 0 <= i < escaped(s).len() implies !is_markup(
            #[trigger] escaped(s)[i],
        ) by {
            if i >= head.len() {
                assert(escaped(s)[i] == escaped(rest)[i - head.len()]);
            } else {
                assert(escaped(s)[i] == head[i]);
            }
        }
    }
}

/// Text without special characters is its own markup.
pub proof fn law_plain_text_is_unchanged(s: Seq<char>)
    requires
        forall|i: int| 0 <= i < s.len() ==> !is_markup(#[trigger] s[i]) && s[i] != '&',
    ensures
        escaped(s) == s,
    decreases s.len(),
{
    if s.len() > 0 {
        let rest = s.subrange(1, s.len() as int);
        assert forall|i: int| 0 <= i < rest.len() implies !is_markup(#[trigger] rest[i]) && rest[i]
            != '&' by {
            assert(rest[i] == s[i + 1]);
        }
        law_plain_text_is_unchanged(rest);
        assert(!is_markup(s[0]));
        assert(escaped(s) =~= s);
    }
}

/// Different texts are shown differently: nothing that a program calls itself
/// or its target can pass for another name.
pub proof fn law_escaping_is_injective(a: Seq<char>, b: Seq<char>)
    requires
        escaped(a) == escaped(b),
    ensures
        a == b,
    decreases a.len(),
{
    if a.len() == 0 || b.len() == 0 {
        if a.len() > 0 {
            assert(escaped(a).len() > 0);
        }
        if b.len() > 0 {
            assert(escaped(b).len() > 0);
        }
        assert(a =~= b);
    } else {
        let ra = a.subrange(1, a.len() as int);
        let rb = b.subrange(1, b.len() as int);
        let ea = entity(a[0]);
        let eb = entity(b[0]);
        let all = escaped(a);
        assert(all[0] == ea[0] && all[0] == eb[0]);
        if ea.len() > 1 && eb.len() > 1 {
            assert(all[1] == ea[1] && all[1] == eb[1]);
            assert(all[2] == ea[2] && all[2] == eb[2]);
        }
        assert(a[0] == b[0]);
        assert(escaped(ra) =~= all.subrange(ea.len() as int, all.len() as int));
        assert(escaped(rb) =~= all.subrange(ea.len() as int, all.len() as int));
        law_escaping_is_injective(ra, rb);
        assert(a =~= seq![a[0]] + ra);
        assert(b =~= seq![b[0]] + rb);
    }
}

/// A text is escaped part by part.
pub proof fn law_escaping_respects_parts(a: Seq<char>, b: Seq<char>)
    ensures
        escaped(a + b) == escaped(a) + escaped(b),
    decreases a.len(),
{
    if a.len() == 0 {
        assert(a + b =~= b);
        assert(escaped(a) + escaped(b) =~= escaped(b));
    } else {
        let rest = a.subrange(1, a.len() as int);
        law_escaping_respects_parts(rest, b);
        assert((a + b).subrange(1, (a + b).len() as int) =~= rest + b);
        assert(entity(a[0]) + (escaped(rest) + escaped(b)) =~= escaped(a) + escaped(b));
    }
}

/// Whether `word` stands in `s` at the place `i`.
pub open spec fn stands_at(s: Seq<char>, i: int, word: Seq<char>) -> bool {
    i + word.len() <= s.len() && s.subrange(i, i + word.len()) == word
}

/// Whether what stands for one of the special characters stands at the place `i`.
pub open spec fn is_entity_at(s: Seq<char>, i: int) -> bool {
    ||| stands_at(s, i, entity('&'))
    ||| stands_at(s, i, entity('<'))
    ||| stands_at(s, i, entity('>'))
    ||| stands_at(s, i, entity('\''))
    ||| stands_at(s, i, entity('"'))
}

/// Whether every ampersand in a text begins what stands for a special character.
pub open spec fn has_entities_only(s: Seq<char>) -> bool {
    forall|i: int| 0 <= i < s.len() && #[trigger] s[i] == '&' ==> is_entity_at(s, i)
}

proof fn lemma_entities_of_both(a: Seq<char>, b: Seq<char>)
    requires
        has_entities_only(a),
        has_entities_only(b),
    ensures
        has_entities_only(a + b),
{
    let s = a + b;
    assert forall|i: int| 0 <= i < s.len() && #[trigger] s[i] == '&' implies is_entity_at(s, i) by {
        if i < a.len() {
            assert(a[i] == '&');
            assert forall|w: Seq<char>| #[trigger] stands_at(a, i, w) implies stands_at(s, i, w) by {
                assert(s.subrange(i, i + w.len()) =~= a.subrange(i, i + w.len()));
            }
        } else {
            let j = i - a.len();
            assert(b[j] == '&');
            assert forall|w: Seq<char>| #[trigger] stands_at(b, j, w) implies stands_at(s, i, w) by {
                assert(s.subrange(i, i + w.len()) =~= b.subrange(j, j + w.len()));
            }
        }
    }
}

/// Every ampersand in escaped text begins what stands for a special character:
/// none that the text held is left to begin anything else.
pub proof fn law_escaped_text_has_entities_only(s: Seq<char>)
    ensures
        has_entities_only(escaped(s)),
    decreases s.len(),
{
    if s.len() > 0 {
        let head = entity(s[0]);
        law_escaped_text_has_entities_only(s.subrange(1, s.len() as int));
        assert(head.subrange(0, head.len() as int) =~= head);
        assert(has_entities_only(head));
        lemma_entities_of_both(head, escaped(s.subrange(1, s.len() as int)));
    }
}

/// What the dialog for an access says.
pub open spec fn dialog(comm: Seq<char>, binary: Seq<char>, target: Seq<char>) -> Seq<char> {
    escaped(comm) + " ("@ + escaped(binary) + ") wants to access:\n"@ + escaped(target)
        + "\n\nAllow?"@
}

/// The text of the dialog that asks about an access.
pub fn dialog_text(identity: &ProcessIdentity, target: &UnixPath) -> (r: String)
    ensures
        r@ == dialog(
            identity.comm@,
            path::utf8_lossy(identity.path@),
            path::utf8_lossy(target@),
        ),
{
    let mut r = escape_markup(identity.comm.as_str());
    r.append(" (");
    r.append(escape_markup(identity.path.display().as_str()).as_str());
    r.append(") wants to access:\n");
    r.append(escape_markup(target.display().as_str()).as_str());
    r.append("\n\nAllow?");
    r
}

/// Nothing in the dialog for an access is markup, whatever the program and the
/// file are called: it holds no bracket or quote, and no ampersand but those that
/// stand for special characters.
pub proof fn law_dialog_has_no_markup(comm: Seq<char>, binary: Seq<char>, target: Seq<char>)
    ensures
        forall|i: int|
            0 <= i < dialog(comm, binary, target).len() ==> !is_markup(
                #[trigger] dialog(comm, binary, target)[i],
            ),
        has_entities_only(dialog(comm, binary, target)),
{
    law_escaped_text_has_entities_only(comm);
    law_escaped_text_has_entities_only(binary);
    law_escaped_text_has_entities_only(target);
    law_escaped_text_has_no_markup(comm);
    law_escaped_text_has_no_markup(binary);
    law_escaped_text_has_no_markup(target);
    reveal_strlit(" (");
    reveal_strlit(") wants to access:\n");
    reveal_strlit("\n\nAllow?");
    let d1 = escaped(comm);
    let d2 = d1 + " ("@;
    let d3 = d2 + escaped(binary);
    let d4 = d3 + ") wants to access:\n"@;
    let d5 = d4 + escaped(target);
    let d6 = d5 + "\n\nAllow?"@;
    lemma_entities_of_both(d1, " ("@);
    lemma_entities_of_both(d2, escaped(binary));
    lemma_entities_of_both(d3, ") wants to access:\n"@);
    lemma_entities_of_both(d4, escaped(target));
    lemma_entities_of_both(d5, "\n\nAllow?"@);
    assert(forall|i: int| 0 <= i < d2.len() ==> !is_markup(#[trigger] d2[i]));
    assert(forall|i: int| 0 <= i < d3.len() ==> !is_markup(#[trigger] d3[i]));
    assert(forall|i: int| 0 <= i < d4.len() ==> !is_markup(#[trigger] d4[i]));
    assert(forall|i: int| 0 <= i < d5.len() ==> !is_markup(#[trigger] d5[i]));
    assert(forall|i: int| 0 <= i < d6.len() ==> !is_markup(#[trigger] d6[i]));
}

/// How long an access prompt waits for an answer where nothing else is set.
pub const PROMPT_TIMEOUT_SECS: u64 = 120;

/// How many seconds an access prompt waits, where `setting` is set.
pub open spec fn timeout_secs(setting: Option<&str>) -> nat {
    match setting {
        Some(s) => if text::is_number(s@) && text::number(s@) <= u64::MAX {
            text::number(s@)
        } else {
            PROMPT_TIMEOUT_SECS as nat
        },
        None => PROMPT_TIMEOUT_SECS as nat,
    }
}

/// How many seconds an access prompt waits before it counts as denied:
/// `setting` (what the environment says) where it is a number, and otherwise
/// two minutes.
pub fn prompt_timeout(setting: Option<&str>) -> (r: u64)
    ensures
        r == timeout_secs(setting),
{
    match setting {
        Some(s) => match text::parse_number(s) {
            Some(n) => n,
            None => PROMPT_TIMEOUT_SECS,
        },
        None => PROMPT_TIMEOUT_SECS,
    }
}

/// Whether a dialog can be shown at all: there is a display, of either kind,
/// and a session bus. Without them an access is denied at once.
pub fn can_prompt(
    display: Option<&str>,
    wayland_display: Option<&str>,
    session_bus: Option<&str>,
) -> (r: bool)
    ensures
        r == has_screen(display, wayland_display, session_bus),
{
    let display_set = match display {
        Some(s) => !s.is_empty(),
        None => false,
    };
    let wayland_set = match wayland_display {
        Some(s) => !s.is_empty(),
        None => false,
    };
    let bus_set = match session_bus {
        Some(s) => !s.is_empty(),
        None => false,
    };
    (display_set || wayland_set) && bus_set
}

/// Whether there is a display, of either kind, and a session bus.
pub open spec fn has_screen(
    display: Option<&str>,
    wayland_display: Option<&str>,
    session_bus: Option<&str>,
) -> bool {
    (is_set(display) || is_set(wayland_display)) && is_set(session_bus)
}

/// Whether a setting of the environment is there and not empty.
pub open spec fn is_set(setting: Option<&str>) -> bool {
    setting is Some && setting->0@.len() > 0
}

/// What the end of a dialog says: its two built-in buttons differ in whether
/// it succeeded, and the third prints its own label.
pub open spec fn dialog_answer(outcome: Option<(bool, &[u8])>) -> PromptResponse {
    match outcome {
        None => PromptResponse::Deny,
        Some((success, stdout)) => if success {
            PromptResponse::AllowOnce
        } else if text::trimmed(path::utf8_lossy(stdout@)) == "Always Allow"@ {
            PromptResponse::AllowAlways
        } else {
            PromptResponse::Deny
        },
    }
}

/// The arguments with which `zenity` asks about an access and waits for `timeout`
/// seconds.
pub open spec fn dialog_arguments(
    identity: ProcessIdentity,
    target: UnixPath,
    timeout: nat,
) -> Seq<Seq<char>> {
    seq![
        "--question"@,
        "--title=Attache Access Request"@,
        "--text="@ + dialog(
            identity.comm@,
            path::utf8_lossy(identity.path@),
            path::utf8_lossy(target@),
        ),
        "--ok-label=Allow Once"@,
        "--cancel-label=Deny"@,
        "--extra-button=Always Allow"@,
        "--timeout="@ + text::decimal(timeout),
    ]
}

/// Prompts the user via a `zenity` dialog.
#[derive(Debug, Clone, Copy)]
pub struct ZenityPrompter;

impl ZenityPrompter {
    /// The arguments with which `zenity` asks about an access.
    pub fn arguments(&self, identity: &ProcessIdentity, target: &UnixPath, timeout: u64) -> (r: Vec<
        String,
    >)
        ensures
            text::texts(r@) == dialog_arguments(*identity, *target, timeout as nat),
    {
        let mut r: Vec<String> = Vec::new();
        r.push("--question".to_owned());
        r.push("--title=Attache Access Request".to_owned());
        let mut said = "--text=".to_owned();
        said.append(dialog_text(identity, target).as_str());
        r.push(said);
        r.push("--ok-label=Allow Once".to_owned());
        r.push("--cancel-label=Deny".to_owned());
        r.push("--extra-button=Always Allow".to_owned());
        let mut limit = "--timeout=".to_owned();
        text::push_decimal(&mut limit, timeout);
        r.push(limit);
        assert(text::texts(r@) =~= dialog_arguments(*identity, *target, timeout as nat));
        r
    }

    /// How to ask about an access, where the environment has these settings: the
    /// arguments to run `zenity` with, or, where no dialog can be shown, a denial
    /// without asking.
    pub fn prompt(
        &self,
        identity: &ProcessIdentity,
        target: &UnixPath,
        display: Option<&str>,
        wayland_display: Option<&str>,
        session_bus: Option<&str>,
        timeout: Option<&str>,
    ) -> (r: Result<Vec<String>, PromptResponse>)
        ensures
            match r {
                Ok(arguments) => has_screen(display, wayland_display, session_bus) && text::texts(
                    arguments@,
                ) == dialog_arguments(*identity, *target, timeout_secs(timeout)),
                Err(response) => !has_screen(display, wayland_display, session_bus) && response
                    == PromptResponse::Deny,
            },
    {
        if can_prompt(display, wayland_display, session_bus) {
            Ok(self.arguments(identity, target, prompt_timeout(timeout)))
        } else {
            Err(PromptResponse::Deny)
        }
    }

    /// The user's answer, from whether the dialog succeeded and what it
    /// printed. Where it could not even be run (`None`), access is denied.
    pub fn response(&self, outcome: Option<(bool, &[u8])>) -> (r: PromptResponse)
        ensures
            r == dialog_answer(outcome),
    {
        match outcome {
            None => PromptResponse::Deny,
            Some((success, stdout)) => {
                if success {
                    return PromptResponse::AllowOnce;
                }
                let printed = path::from_utf8_lossy(stdout);
                let label = text::trim(text::chars_of(printed.as_str()).as_slice());
                if text::same_text(label.as_str(), "Always Allow") {
                    PromptResponse::AllowAlways
                } else {
                    PromptResponse::Deny
                }
            },
        }
    }
}

/// Confirms a request that comes over the control socket rather than from an
/// access to a file. The socket says which user asks, not which program, so a
/// person has to confirm what it asks for: otherwise any program of the user
/// could approve of itself.
pub trait ControlConfirm {
    /// Whether a person may be asked to confirm; always, unless an implementation
    /// narrows it. A function whose contract does not ask for this asks nobody.
    open spec fn may_confirm(&self, action: Seq<char>) -> bool {
        true
    }

    fn confirm(&self, action: &str) -> bool
        requires
            self.may_confirm(action@),
    ;
}

/// Confirms via a `zenity` dialog.
#[derive(Debug, Clone, Copy)]
pub struct ZenityConfirm;

impl ZenityConfirm {
    /// The arguments with which `zenity` asks to confirm `action`.
    pub fn arguments(&self, action: &str) -> (r: Vec<String>)
        ensures
            text::texts(r@) == seq![
                "--question"@,
                "--title=Attache Control Request"@,
                "--text="@ + escaped(action@),
                "--ok-label=Confirm"@,
                "--cancel-label=Deny"@,
            ],
    {
        let mut r: Vec<String> = Vec::new();
        r.push("--question".to_owned());
        r.push("--title=Attache Control Request".to_owned());
        let mut said = "--text=".to_owned();
        said.append(escape_markup(action).as_str());
        r.push(said);
        r.push("--ok-label=Confirm".to_owned());
        r.push("--cancel-label=Deny".to_owned());
        r
    }

    /// Whether the action was confirmed, from whether the dialog succeeded
    /// (`None` where it could not be run).
    pub fn confirmed(&self, outcome: Option<bool>) -> (r: bool)
        ensures
            r == (outcome == Some(true)),
    {
        match outcome {
            Some(success) => success,
            None => false,
        }
    }
}

/// What is decided without asking: a binary whose entry on the whitelist holds the
/// digest of what the binary holds now is allowed, whatever that is; otherwise the
/// session's answer about its path stands, where there is one; and nothing else is
/// decided.
pub proof fn law_whitelist_and_session_decide(
    approvals: Seq<whitelist::EntryView>,
    cache: Map<path::PathKey, Decision>,
    k: path::PathKey,
    contents: Option<Seq<u8>>,
    sha256: Option<Seq<char>>,
)
    ensures
        ({
            let entry = whitelist::first_entry(approvals, k);
            let matches_now = entry is Some && contents is Some && digest::sha256_text(contents->0)
                == entry->0.sha256;
            &&& matches_now ==> standing(approvals, cache, k, contents) == Some(Decision::Allow)
            &&& !matches_now && cache.contains_key(k) ==> standing(approvals, cache, k, contents)
                == Some(cache[k])
            &&& !matches_now && !cache.contains_key(k) ==> standing(approvals, cache, k, contents)
                is None
            &&& is_open(approvals, cache, k, contents) <==> !matches_now && !cache.contains_key(k)
        }),
        ({
            let entry = whitelist::first_entry(approvals, k);
            let matches_now = entry is Some && sha256 == Some(entry->0.sha256);
            &&& matches_now ==> standing_by_digest(approvals, cache, k, sha256) == Some(
                Decision::Allow,
            )
            &&& !matches_now && cache.contains_key(k) ==> standing_by_digest(
                approvals,
                cache,
                k,
                sha256,
            ) == Some(cache[k])
            &&& !matches_now && !cache.contains_key(k) ==> standing_by_digest(
                approvals,
                cache,
                k,
                sha256,
            ) is None
        }),
{
}

/// What an answer comes to. It is denied exactly where the answer is to deny. For
/// the rest of the session an answer for once or a denial is kept about that one
/// path, and an answer for always leaves what was kept. The whitelist changes, and
/// is to be persisted, exactly where the answer is for always and the binary can be
/// read; the new entry then stands last, with the program's path and name, the
/// digest and the time.
pub proof fn law_answer_is_settled_as_it_was_given<P: Prompter>(
    before: AuthPolicy<P>,
    identity: ProcessIdentity,
    response: PromptResponse,
    sha256: Option<Seq<char>>,
    now: u64,
    r: Verdict,
    after: AuthPolicy<P>,
)
    requires
        settled(before, identity, response, sha256, now, r, after),
    ensures
        answer_decision(response) == Decision::Deny <==> response == PromptResponse::Deny,
        r.decision == Decision::Deny <==> response == PromptResponse::Deny,
        r.persist <==> response == PromptResponse::AllowAlways && sha256 is Some,
        after.asker() == before.asker(),
        after.approvals().location() == before.approvals().location(),
        response == PromptResponse::AllowAlways ==> after.cached() == before.cached(),
        response == PromptResponse::AllowOnce ==> after.cached() == before.cached().insert(
            identity.path.key(),
            Decision::Allow,
        ),
        response == PromptResponse::Deny ==> after.cached() == before.cached().insert(
            identity.path.key(),
            Decision::Deny,
        ),
        !r.persist ==> after.approvals()@ == before.approvals()@,
        r.persist ==> {
            let kept = after.approvals()@.drop_last();
            let added = after.approvals()@.last();
            &&& after.approvals()@.len() > 0
            &&& kept == before.approvals()@.filter(
                |e: whitelist::EntryView| path::key_of(e.path) != path::key_of(identity.path@),
            )
            &&& added.path == identity.path@
            &&& added.comm == identity.comm@
            &&& sha256 == Some(added.sha256)
            &&& added.added_at == now
        },
{
    if r.persist {
        whitelist::law_approval_replaces_the_entries_for_its_path(
            before.approvals()@,
            identity.path.key(),
            whitelist::EntryView {
                path: identity.path@,
                comm: identity.comm@,
                sha256: sha256->0,
                added_at: now,
            },
        );
    }
}

/// The user is asked exactly where nothing is decided, once, about the program and
/// the file that the access is about, and the verdict is the answer. Where something
/// is decided that is the verdict, and nothing changes.
pub proof fn law_user_is_asked_once_where_nothing_is_decided<P: Prompter>(
    before: AuthPolicy<P>,
    identity: ProcessIdentity,
    target: UnixPath,
    contents: Option<Seq<u8>>,
    fresh: Option<Seq<u8>>,
    now: u64,
    r: Verdict,
    after: AuthPolicy<P>,
)
    requires
        decided(before, identity, target, contents, fresh, now, r, after),
    ensures
        ({
            let entry = whitelist::first_entry(before.approvals()@, identity.path.key());
            let matches_now = entry is Some && contents is Some && digest::sha256_text(contents->0)
                == entry->0.sha256;
            let kept = before.cached().contains_key(identity.path.key());
            &&& matches_now || kept ==> {
                &&& after == before
                &&& !r.persist
                &&& r.decision == if matches_now {
                    Decision::Allow
                } else {
                    before.cached()[identity.path.key()]
                }
            }
            &&& !matches_now && !kept ==> {
                let q = after.asked().last();
                &&& after.asked().len() == before.asked().len() + 1
                &&& after.asked().drop_last() == before.asked()
                &&& q.identity == identity
                &&& q.target == target
                &&& call_ensures(P::ask, (&before.asker(), &identity, &target), q.response)
                &&& r.decision == Decision::Deny <==> q.response == PromptResponse::Deny
                &&& r.persist <==> q.response == PromptResponse::AllowAlways && fresh is Some
                &&& settled(
                    before,
                    identity,
                    q.response,
                    if fresh is Some {
                        Some(digest::sha256_text(fresh->0))
                    } else {
                        None
                    },
                    now,
                    r,
                    after,
                )
            }
        }),
{
    law_whitelist_and_session_decide(
        before.approvals()@,
        before.cached(),
        identity.path.key(),
        contents,
        None,
    );
    if is_open(before.approvals()@, before.cached(), identity.path.key(), contents) {
        assert(after.asked().drop_last() =~= before.asked());
    }
}

/// A session remembers an answer for once and a denial, about its own path, until
/// the next such answer about that path; an answer for always changes nothing of it.
pub proof fn law_session_takes_up_each_answer(
    answers: Seq<asking::Question>,
    q: asking::Question,
    k: path::PathKey,
)
    ensures
        session(Seq::empty()) == Map::<path::PathKey, Decision>::empty(),
        q.response == PromptResponse::AllowAlways ==> session(answers.push(q)) == session(answers),
        q.response == PromptResponse::AllowOnce ==> session(answers.push(q)) == session(
            answers,
        ).insert(q.identity.path.key(), Decision::Allow),
        q.response == PromptResponse::Deny ==> session(answers.push(q)) == session(answers).insert(
            q.identity.path.key(),
            Decision::Deny,
        ),
        is_remembered(q, k) <==> k == q.identity.path.key() && (q.response
            == PromptResponse::AllowOnce || q.response == PromptResponse::Deny),
{
    assert(answers.push(q).drop_last() =~= answers);
}

/// Each of the five special characters is shown by what stands for it, and every
/// other character by itself.
pub proof fn law_special_characters_are_escaped(c: char)
    ensures
        escaped(Seq::empty()) == Seq::<char>::empty(),
        escaped(seq!['&']) == seq!['&', 'a', 'm', 'p', ';'],
        escaped(seq!['<']) == seq!['&', 'l', 't', ';'],
        escaped(seq!['>']) == seq!['&', 'g', 't', ';'],
        escaped(seq!['\'']) == seq!['&', 'a', 'p', 'o', 's', ';'],
        escaped(seq!['"']) == seq!['&', 'q', 'u', 'o', 't', ';'],
        is_markup(c) <==> seq!['<', '>', '\'', '"'].contains(c),
        !seq!['&', '<', '>', '\'', '"'].contains(c) ==> escaped(seq![c]) == seq![c],
{
    lemma_one_character('&');
    lemma_one_character('<');
    lemma_one_character('>');
    lemma_one_character('\'');
    lemma_one_character('"');
    lemma_one_character(c);
    let some = seq!['<', '>', '\'', '"'];
    assert(some[0] == '<' && some[1] == '>' && some[2] == '\'' && some[3] == '"');
    let all = seq!['&', '<', '>', '\'', '"'];
    assert(all[0] == '&' && all[1] == '<' && all[2] == '>' && all[3] == '\'' && all[4] == '"');
}

proof fn lemma_one_character(c: char)
    ensures
        escaped(seq![c]) == entity(c),
{
    reveal_with_fuel(escaped, 2);
    assert(seq![c].subrange(1, 1) =~= Seq::<char>::empty());
    assert(entity(c) + Seq::<char>::empty() =~= entity(c));
}

/// The dialog names the program, its binary and the file, each as it is, escaped
/// and in full; it is shown with the three answers as buttons, and waits as long as
/// is set.
pub proof fn law_dialog_names_what_is_asked(
    identity: ProcessIdentity,
    target: UnixPath,
    timeout: nat,
)
    ensures
        ({
            let said = dialog_arguments(identity, target, timeout);
            &&& said.len() == 7
            &&& said[0] == "--question"@
            &&& said[1] == "--title=Attache Access Request"@
            &&& said[2] == "--text="@ + (escaped(identity.comm@) + " ("@ + escaped(
                path::utf8_lossy(identity.path@),
            ) + ") wants to access:\n"@ + escaped(path::utf8_lossy(target@)) + "\n\nAllow?"@)
            &&& said[3] == "--ok-label=Allow Once"@
            &&& said[4] == "--cancel-label=Deny"@
            &&& said[5] == "--extra-button=Always Allow"@
            &&& said[6] == "--timeout="@ + text::decimal(timeout)
        }),
{
}

/// The dialog says the three names that it is given, in their order, each escaped as
/// a whole.
pub proof fn law_dialog_says_the_names(comm: Seq<char>, binary: Seq<char>, target: Seq<char>)
    ensures
        dialog(comm, binary, target) == escaped(comm) + " ("@ + escaped(binary)
            + ") wants to access:\n"@ + escaped(target) + "\n\nAllow?"@,
{
}

/// A dialog waits for as many seconds as the setting says where that is a number
/// that fits in 64 bits, also where it is zero, and two minutes otherwise.
pub proof fn law_timeout_is_the_one_set(s: &str)
    ensures
        timeout_secs(None) == 120,
        text::is_number(s@) && text::number(s@) <= 0xffff_ffff_ffff_ffff ==> timeout_secs(Some(s))
            == text::number(s@),
        !(text::is_number(s@) && text::number(s@) <= 0xffff_ffff_ffff_ffff) ==> timeout_secs(
            Some(s),
        ) == 120,
{
}

/// A dialog can be shown exactly where a display of either kind and a session bus
/// are there and not empty.
pub proof fn law_dialog_needs_a_display_and_a_bus(
    display: Option<&str>,
    wayland_display: Option<&str>,
    session_bus: Option<&str>,
)
    ensures
        has_screen(display, wayland_display, session_bus) <==> {
            let empty = Seq::<char>::empty();
            let x = display is Some && display->0@ != empty;
            let wayland = wayland_display is Some && wayland_display->0@ != empty;
            let bus = session_bus is Some && session_bus->0@ != empty;
            bus && (x || wayland)
        },
{
    let empty = Seq::<char>::empty();
    assert(display is Some && display->0@.len() == 0 ==> display->0@ =~= empty);
    assert(wayland_display is Some && wayland_display->0@.len() == 0 ==> wayland_display->0@
        =~= empty);
    assert(session_bus is Some && session_bus->0@.len() == 0 ==> session_bus->0@ =~= empty);
}

/// A dialog allows once exactly where it succeeded, whatever it printed; it allows
/// always exactly where it did not and printed that button's label, with white space
/// around it or not; and it denies in every other case, also where it could not be
/// run.
pub proof fn law_dialog_answers_by_its_end(success: bool, printed: &[u8])
    ensures
        dialog_answer(None) == PromptResponse::Deny,
        dialog_answer(Some((success, printed))) == PromptResponse::AllowOnce <==> success,
        dialog_answer(Some((success, printed))) == PromptResponse::AllowAlways <==> !success
            && text::trimmed(path::utf8_lossy(printed@)) == "Always Allow"@,
{
}

/// Where every ampersand of a text begins what stands for a special character, that
/// is one of five words.
pub proof fn law_entities_are_the_five_words(s: Seq<char>, i: int)
    requires
        has_entities_only(s),
        0 <= i < s.len(),
        s[i] == '&',
    ensures
        ({
            let rest = s.skip(i);
            ||| seq!['&', 'a', 'm', 'p', ';'].is_prefix_of(rest)
            ||| seq!['&', 'l', 't', ';'].is_prefix_of(rest)
            ||| seq!['&', 'g', 't', ';'].is_prefix_of(rest)
            ||| seq!['&', 'a', 'p', 'o', 's', ';'].is_prefix_of(rest)
            ||| seq!['&', 'q', 'u', 'o', 't', ';'].is_prefix_of(rest)
        }),
{
    assert(is_entity_at(s, i));
    let rest = s.skip(i);
    assert forall|w: Seq<char>| #[trigger] stands_at(s, i, w) implies w.is_prefix_of(rest) by {
        assert(rest.subrange(0, w.len() as int) =~= s.subrange(i, i + w.len()));
    }
}

} // verus!
