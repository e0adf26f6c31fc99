//! Whom the user's questions go through, and what was asked.
//!
//! Contracts keep account of every question and its answer. The account is
//! ghost: it is kept by `put`, which is the only way to the prompter or the
//! confirmation that is held here, and which puts one question.

use crate::path::UnixPath;
use crate::policy::{ControlConfirm, PromptResponse, Prompter};
use crate::process_info::ProcessIdentity;
use vstd::prelude::*;

verus! {

/// A question about an access, with its answer.
pub struct Question {
    pub identity: ProcessIdentity,
    pub target: UnixPath,
    pub response: PromptResponse,
}

/// A prompter that is reached only by putting a question.
pub struct Asker<P: Prompter> {
    prompter: P,
    log: Ghost<Seq<Question>>,
}

impl<P: Prompter> Asker<P> {
    /// Who is asked.
    pub closed spec fn whom(&self) -> P {
        self.prompter
    }

    /// The questions that were put, with their answers.
    pub closed spec fn asked(&self) -> Seq<Question> {
        self.log@
    }

    /// A prompter that nothing was asked of yet.
    pub fn new(prompter: P) -> (r: Self)
        ensures
            r.whom() == prompter,
            r.asked() == Seq::<Question>::empty(),
    {
        Asker { prompter, log: Ghost(Seq::empty()) }
    }

    /// Puts one question.
    pub fn put(&mut self, identity: &ProcessIdentity, target: &UnixPath) -> (r: PromptResponse)
        requires
            old(self).whom().may_ask(*identity, *target),
        ensures
            final(self).whom() == old(self).whom(),
            final(self).asked() == old(self).asked().push(
                Question { identity: *identity, target: *target, response: r },
            ),
            call_ensures(P::ask, (&old(self).whom(), identity, target), r),
    {
        let response = self.prompter.ask(identity, target);
        self.log = Ghost(
            self.log@.push(Question { identity: *identity, target: *target, response }),
        );
        response
    }
}

/// A request to confirm an action, with its answer.
pub struct Request {
    pub action: Seq<char>,
    pub confirmed: bool,
}

/// A confirmation that is reached only by putting a request.
pub struct Confirmer<C: ControlConfirm> {
    confirm: C,
    log: Ghost<Seq<Request>>,
}

impl<C: ControlConfirm> Confirmer<C> {
    /// Who is asked.
    pub closed spec fn whom(&self) -> C {
        self.confirm
    }

    /// The requests that were put, with their answers.
    pub closed spec fn asked(&self) -> Seq<Request> {
        self.log@
    }

    /// A confirmation that nothing was asked of yet.
    pub fn new(confirm: C) -> (r: Self)
        ensures
            r.whom() == confirm,
            r.asked() == Seq::<Request>::empty(),
    {
        Confirmer { confirm, log: Ghost(Seq::empty()) }
    }

    /// Puts one request.
    pub fn put(&mut self, action: &str) -> (r: bool)
        requires
            old(self).whom().may_confirm(action@),
        ensures
            final(self).whom() == old(self).whom(),
            final(self).asked() == old(self).asked().push(
                Request { action: action@, confirmed: r },
            ),
            call_ensures(C::confirm, (&old(self).whom(), action), r),
    {
        let confirmed = self.confirm.confirm(action);
        self.log = Ghost(self.log@.push(Request { action: action@, confirmed }));
        confirmed
    }
}

} // verus!
