//! Calls as they arrive, and the context a handler answers them through.
use vstd::prelude::*;

use crate::wire::{encode_progress, encode_reply, progress_envelopes, reply_envelopes, texts};

verus! {

/// One call from the front-end.
pub struct Message {
    /// Tells the replies to this call apart from those to other calls.
    pub id: String,
    /// The name of the handler that is to answer the call.
    pub call_name: String,
    /// The call's arguments, where it has any.
    pub arguments: Option<Vec<String>>,
}

impl Message {
    /// The call's id and name, as a log shows them.
    pub fn describe(&self) -> (r: String)
        ensures
            r@ == "(id: "@ + self.id@ + ", call_name: "@ + self.call_name@ + ")"@,
    {
        let mut out = String::from_str("(id: ");
        out.append(self.id.as_str());
        out.append(", call_name: ");
        out.append(self.call_name.as_str());
        out.append(")");
        out
    }
}

/// The session that the engine and its handlers talk to the front-end over.
pub trait Transport {
    /// Sends one text message to the front-end.
    fn send(&self, message: &str);

    /// Starts closing the session.
    fn exit(&self);

    /// Blocks until the session is closed.
    fn wait_for_exit(&self);
}

/// One step of closing the session.
#[derive(Clone, Copy, Debug, PartialEq, Eq, Structural)]
pub enum Teardown {
    /// The session was asked to close.
    Exit,
    /// The session was waited on until it closed.
    WaitForExit,
}

/// Whether `steps` begin with a request to close the session followed by a
/// wait until it closed.
pub open spec fn closed_down(steps: Seq<Teardown>) -> bool {
    steps.len() >= 2 && steps[0] == Teardown::Exit && steps[1] == Teardown::WaitForExit
}

/// The envelopes that carry `result` as the reply to call `id`.
pub open spec fn reply_for(id: Seq<char>, result: Result<String, String>) -> Seq<Seq<char>> {
    match result {
        Ok(payload) => reply_envelopes(id, true, payload@),
        Err(error) => reply_envelopes(id, false, error@),
    }
}

/// What a handler gets for the one call it answers.
pub struct MessageContext<'a, T> {
    /// Tells the replies to this call apart from those to other calls.
    pub id: String,
    /// The name of the call.
    pub call_name: String,
    /// The call's arguments, where it has any.
    pub arguments: Option<Vec<String>>,
    session: &'a T,
    is_shutdown: bool,
    sent: Ghost<Seq<Seq<char>>>,
    closing: Ghost<Seq<Teardown>>,
}

impl<'a, T> MessageContext<'a, T> {
    /// The shutdown flag is set only once the session has been closed.
    #[verifier::type_invariant]
    spec fn flag_follows_teardown(&self) -> bool {
        &&& self.closing@.len() > 0 ==> self.closing@[0] == Teardown::Exit
        &&& self.closing@.len() > 1 ==> self.closing@[1] == Teardown::WaitForExit
        &&& self.closing@.len() != 1
        &&& self.is_shutdown ==> self.closing@.len() >= 2
    }
}

impl<'a, T: Transport> MessageContext<'a, T> {
    /// Whether the handler has asked the engine to shut down.
    pub closed spec fn shutdown_requested(&self) -> bool {
        self.is_shutdown
    }

    /// The id that replies to this call carry.
    pub closed spec fn reply_id(&self) -> Seq<char> {
        self.id@
    }

    /// The name of the call.
    pub closed spec fn name(&self) -> Seq<char> {
        self.call_name@
    }

    /// The call's arguments.
    pub closed spec fn args(&self) -> Option<Vec<String>> {
        self.arguments
    }

    /// Every message handed to the session so far, in order, since the
    /// engine started.
    pub closed spec fn sent(&self) -> Seq<Seq<char>> {
        self.sent@
    }

    /// The steps taken so far, in order, to close the session.
    pub closed spec fn teardown(&self) -> Seq<Teardown> {
        self.closing@
    }

    /// Whether `self` is about the same call as `before`, with the same
    /// session steps taken to close it.
    pub open spec fn same_call(&self, before: &Self) -> bool {
        &&& self.reply_id() == before.reply_id()
        &&& self.name() == before.name()
        &&& self.args() == before.args()
        &&& self.shutdown_requested() == before.shutdown_requested()
        &&& self.teardown() == before.teardown()
    }

    /// The context for `message`, over `session`, after `sent` went out.
    pub(crate) fn build(message: Message, session: &'a T, sent: Ghost<Seq<Seq<char>>>) -> (r: Self)
        ensures
            r.reply_id() == message.id@,
            r.name() == message.call_name@,
            r.args() == message.arguments,
            !r.shutdown_requested(),
            r.sent() == sent@,
            r.teardown() == Seq::<Teardown>::empty(),
    {
        MessageContext {
            id: message.id,
            call_name: message.call_name,
            arguments: message.arguments,
            session,
            is_shutdown: false,
            sent,
            closing: Ghost(Seq::empty()),
        }
    }

    /// Closes the session, waits until it is closed, and then marks the
    /// engine to stop once the current handler returns.
    pub fn shutdown(&mut self)
        ensures
            final(self).shutdown_requested(),
            final(self).teardown() == old(self).teardown() + seq![
                Teardown::Exit,
                Teardown::WaitForExit,
            ],
            final(self).sent() == old(self).sent(),
            final(self).reply_id() == old(self).reply_id(),
            final(self).name() == old(self).name(),
            final(self).args() == old(self).args(),
    {
        proof {
            use_type_invariant(&*self);
        }
        self.session.exit();
        self.session.wait_for_exit();
        proof {
            let steps = self.closing@ + seq![Teardown::Exit, Teardown::WaitForExit];
            if self.closing@.len() == 0 {
                assert(steps == seq![Teardown::Exit, Teardown::WaitForExit]);
            } else {
                assert(steps[0] == self.closing@[0] && steps[1] == self.closing@[1]);
            }
            self.closing@ = steps;
        }
        self.is_shutdown = true;
    }

    /// Whether the engine has been asked to shut down.
    pub fn is_shutdown(&self) -> (r: bool)
        ensures
            r == self.shutdown_requested(),
            r ==> closed_down(self.teardown()),
    {
        proof {
            use_type_invariant(self);
        }
        self.is_shutdown
    }

    fn send_all(&mut self, envelopes: &Vec<String>)
        ensures
            final(self).sent() == old(self).sent() + texts(envelopes@),
            final(self).same_call(&old(self)),
    {
        let mut i: usize = 0;
        while i < envelopes.len()
            invariant
                i <= envelopes.len(),
                self.sent() == old(self).sent() + texts(envelopes@).take(i as int),
                self.same_call(&old(self)),
            decreases envelopes.len() - i,
        {
            self.session.send(envelopes[i].as_str());
            proof {
                use_type_invariant(&*self);
                self.sent@ = self.sent@.push(envelopes[i as int]@);
            }
            i += 1;
            assert(texts(envelopes@).take(i as int) =~= texts(envelopes@).take(i - 1).push(
                envelopes[i - 1]@,
            ));
        }
        assert(texts(envelopes@).take(i as int) =~= texts(envelopes@));
    }

    /// Sends a progress note, the JSON text of a progress record, to the
    /// front-end, escaped and in chunks as a reply is, under the id
    /// `progress`.
    pub fn send_progress(&mut self, payload: &str)
        ensures
            final(self).sent() == old(self).sent() + progress_envelopes(payload@),
            final(self).same_call(&old(self)),
    {
        let envelopes = encode_progress(payload);
        self.send_all(&envelopes);
    }

    /// Sends the reply `message` to this call, flagged as a success or a
    /// failure.
    pub(crate) fn return_result(&mut self, message: &str, is_ok: bool)
        ensures
            final(self).sent() == old(self).sent() + reply_envelopes(
                old(self).reply_id(),
                is_ok,
                message@,
            ),
            final(self).same_call(&old(self)),
    {
        let envelopes = encode_reply(self.id.as_str(), is_ok, message);
        self.send_all(&envelopes);
    }

    /// Sends `message` as the successful reply to this call.
    pub(crate) fn return_ok(&mut self, message: &str)
        ensures
            final(self).sent() == old(self).sent() + reply_envelopes(
                old(self).reply_id(),
                true,
                message@,
            ),
            final(self).same_call(&old(self)),
    {
        self.return_result(message, true);
    }

    /// Sends `message` as the failed reply to this call.
    pub(crate) fn return_error(&mut self, message: &str)
        ensures
            final(self).sent() == old(self).sent() + reply_envelopes(
                old(self).reply_id(),
                false,
                message@,
            ),
            final(self).same_call(&old(self)),
    {
        self.return_result(message, false);
    }

    /// Ends the call with what its handler returned: nothing more is sent
    /// where the handler asked for a shutdown (the session is closed by
    /// then); otherwise the result goes out as the reply. Returns whether the
    /// engine is to stop.
    pub fn complete(&mut self, result: Result<String, String>) -> (stop: bool)
        ensures
            stop == old(self).shutdown_requested(),
            stop ==> closed_down(old(self).teardown()),
            stop ==> final(self).sent() == old(self).sent(),
            !stop ==> final(self).sent() == old(self).sent() + reply_for(
                old(self).reply_id(),
                result,
            ),
            final(self).same_call(&old(self)),
    {
        proof {
            use_type_invariant(&*self);
        }
        if self.is_shutdown {
            return true;
        }
        match result {
            Ok(payload) => self.return_ok(payload.as_str()),
            Err(error) => self.return_error(error.as_str()),
        }
        false
    }
}

} // verus!
