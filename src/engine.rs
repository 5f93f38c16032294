//! The registry of handlers and the dispatch of one call to them.
use vstd::prelude::*;

use crate::message::{closed_down, reply_for, Message, MessageContext, Teardown, Transport};
use crate::wire::reply_envelopes;

verus! {

/// Answers the calls of one name.
pub trait Handler<T> {
    /// Answers the call in `context`: `Ok` with the reply, or `Err` with
    /// what went wrong.
    fn call(&self, context: &mut MessageContext<'_, T>) -> Result<String, String>;
}

/// The most bytes that one received message may hold.
pub const MAX_MESSAGE_BYTES: usize = 0x200000;

/// The most characters of a message that cannot be read that a log shows
/// whole.
pub const PREVIEW_CHARS: usize = 300;

/// What a log shows of a message that cannot be read: all of it where it is
/// short, else its start and a note that it was cut.
pub open spec fn preview_of(text: Seq<char>) -> Seq<char> {
    if text.len() <= PREVIEW_CHARS {
        text
    } else {
        text.take(PREVIEW_CHARS - 1) + " <truncated for performance>"@
    }
}

/// What a log shows of a message that cannot be read.
pub fn preview(text: &str) -> (r: String)
    ensures
        r@ == preview_of(text@),
{
    let n = text.unicode_len();
    if n <= PREVIEW_CHARS {
        String::from_str(text)
    } else {
        let mut out = String::from_str(text.substring_char(0, PREVIEW_CHARS - 1));
        out.append(" <truncated for performance>");
        out
    }
}

/// How the engine dealt with one call.
#[derive(Clone, Copy, Debug, PartialEq, Eq, Structural)]
pub enum Outcome {
    /// No handler is registered under the call's name; nothing was sent.
    Ignored,
    /// The call's arguments did not match the handler's count; an error
    /// reply was sent and the handler was not run.
    Rejected,
    /// The handler ran and its result was sent as the reply.
    Answered,
    /// The handler ran and asked for a shutdown; nothing more was sent.
    Stopped,
}

/// One run of a handler: the handler, and the call that its context held.
pub struct Invocation<H> {
    /// The name of the call.
    pub name: Seq<char>,
    /// The handler that ran.
    pub handler: H,
    /// The id of the call.
    pub id: Seq<char>,
    /// The call's arguments, as the handler's context held them.
    pub arguments: Option<Vec<String>>,
}

/// Where a handler run stood when the handler returned.
pub struct HandlerReturn {
    /// Every message handed to the session up to then.
    pub sent: Seq<Seq<char>>,
    /// The id that the call's reply was to carry.
    pub reply_id: Seq<char>,
    /// Whether the handler had asked for a shutdown.
    pub shutdown: bool,
    /// The steps taken to close the session.
    pub teardown: Seq<Teardown>,
    /// What the handler returned.
    pub result: Result<String, String>,
}

struct HandlerEntry<H> {
    call_name: String,
    arg_count: Option<usize>,
    callback: H,
}

/// Serves the calls of a front-end over one session, with the handlers
/// registered for each call name.
pub struct RequestEngine<T, H> {
    is_exit: bool,
    session: T,
    handlers: Vec<HandlerEntry<H>>,
    sent: Ghost<Seq<Seq<char>>>,
    invoked: Ghost<Seq<Invocation<H>>>,
    returned: Ghost<Option<HandlerReturn>>,
}

/// The descriptor that a call name maps to: the argument count it demands,
/// if any, and its handler.
pub type Descriptor<H> = (Option<usize>, H);

spec fn registry_of<H>(s: Seq<HandlerEntry<H>>) -> Map<Seq<char>, Descriptor<H>>
    decreases s.len(),
{
    if s.len() == 0 {
        Map::empty()
    } else {
        registry_of(s.drop_last()).insert(
            s.last().call_name@,
            (s.last().arg_count, s.last().callback),
        )
    }
}

/// The error reply for a call to `name` whose arguments do not fit the
/// count `expected`, if they do not.
pub open spec fn arity_error(
    name: Seq<char>,
    expected: Option<usize>,
    arguments: Option<Vec<String>>,
) -> Option<Seq<char>> {
    match expected {
        None => None,
        Some(n) => match arguments {
            None => Some("No arguments were provided for "@ + name),
            Some(a) => if a.len() != n {
                Some("Incorrect number of arguments were provided for "@ + name)
            } else {
                None
            },
        },
    }
}

/// Whether `after` holds the handlers of `before` with `handler` and
/// `count` under `name`, in place of any that was there.
pub open spec fn registered<T: Transport, H: Handler<T>>(
    before: RequestEngine<T, H>,
    after: RequestEngine<T, H>,
    name: Seq<char>,
    count: Option<usize>,
    handler: H,
) -> bool {
    after.registry() == before.registry().insert(name, (count, handler))
}

/// Checks the arguments of a call to `call_name` against the count its
/// handler demands: `None` where they fit, else the error reply.
pub fn check_arguments(
    call_name: &str,
    expected: Option<usize>,
    arguments: &Option<Vec<String>>,
) -> (r: Option<String>)
    ensures
        match r {
            Some(e) => arity_error(call_name@, expected, *arguments) == Some(e@),
            None => arity_error(call_name@, expected, *arguments) is None,
        },
{
    match expected {
        None => None,
        Some(n) => match arguments {
            None => {
                let mut e = String::from_str("No arguments were provided for ");
                e.append(call_name);
                Some(e)
            },
            Some(a) => {
                if a.len() != n {
                    let mut e = String::from_str("Incorrect number of arguments were provided for ");
                    e.append(call_name);
                    Some(e)
                } else {
                    None
                }
            },
        },
    }
}

proof fn lemma_registry_step<H>(s: Seq<HandlerEntry<H>>, i: int, k: Seq<char>)
    requires
        0 < i <= s.len(),
    ensures
        s[i - 1].call_name@ == k ==> registry_of(s.take(i)).contains_key(k) && registry_of(
            s.take(i),
        )[k] == (s[i - 1].arg_count, s[i - 1].callback),
        s[i - 1].call_name@ != k ==> (registry_of(s.take(i)).contains_key(k) == registry_of(
            s.take(i - 1),
        ).contains_key(k) && registry_of(s.take(i))[k] == registry_of(s.take(i - 1))[k]),
{
    assert(s.take(i).drop_last() == s.take(i - 1));
    assert(s.take(i).last() == s[i - 1]);
}

/// No two entries share a call name.
spec fn names_unique<H>(s: Seq<HandlerEntry<H>>) -> bool {
    forall|i: int, j: int|
        0 <= i < s.len() && 0 <= j < s.len() && i != j ==> (#[trigger] s[i]).call_name@ != (
        #[trigger] s[j]).call_name@
}

proof fn lemma_registry_update<H>(s: Seq<HandlerEntry<H>>, i: int, e: HandlerEntry<H>)
    requires
        0 <= i < s.len(),
        names_unique(s),
        e.call_name@ == s[i].call_name@,
    ensures
        registry_of(s.update(i, e)) == registry_of(s).insert(
            e.call_name@,
            (e.arg_count, e.callback),
        ),
    decreases s.len(),
{
    let t = s.update(i, e);
    let k = e.call_name@;
    if i == s.len() - 1 {
        assert(t.drop_last() == s.drop_last());
        assert(registry_of(t) =~= registry_of(s).insert(k, (e.arg_count, e.callback)));
    } else {
        assert(t.drop_last() == s.drop_last().update(i, e));
        assert(names_unique(s.drop_last()));
        lemma_registry_update(s.drop_last(), i, e);
        assert(s.last().call_name@ != k);
        assert(t.last() == s.last());
        assert(registry_of(t) =~= registry_of(s).insert(k, (e.arg_count, e.callback)));
    }
}

impl<T: Transport, H: Handler<T>> RequestEngine<T, H> {
    /// Each call name has one entry at most.
    pub closed spec fn wf(&self) -> bool {
        names_unique(self.handlers@)
    }

    /// Each registered call name, with its descriptor.
    pub closed spec fn registry(&self) -> Map<Seq<char>, Descriptor<H>> {
        registry_of(self.handlers@)
    }

    /// Whether a handler has shut the engine down.
    pub closed spec fn exited(&self) -> bool {
        self.is_exit
    }

    /// Every message handed to the session so far, in order.
    pub closed spec fn sent(&self) -> Seq<Seq<char>> {
        self.sent@
    }

    /// The handler runs so far, in order.
    pub closed spec fn invoked(&self) -> Seq<Invocation<H>> {
        self.invoked@
    }

    /// Where the last handler run stood when its handler returned, if any
    /// handler has run.
    pub closed spec fn at_return(&self) -> Option<HandlerReturn> {
        self.returned@
    }

    /// An engine over `session`, with no handler registered yet.
    pub fn new(session: T) -> (r: Self)
        ensures
            r.wf(),
            r.registry() == Map::<Seq<char>, Descriptor<H>>::empty(),
            !r.exited(),
            r.sent() == Seq::<Seq<char>>::empty(),
            r.invoked() == Seq::<Invocation<H>>::empty(),
            r.at_return() is None,
    {
        RequestEngine {
            is_exit: false,
            session,
            handlers: Vec::new(),
            sent: Ghost(Seq::empty()),
            invoked: Ghost(Seq::empty()),
            returned: Ghost(None),
        }
    }

    /// The session the engine serves.
    pub fn session(&self) -> &T {
        &self.session
    }

    /// Registers `handler` for calls named `request_name`, replacing any
    /// handler registered under that name before. Where `arg_count` is
    /// given, calls whose arguments are missing or of another number are
    /// answered with an error and never reach the handler.
    /// Returns the engine, so that registrations can be chained.
    pub fn register(&mut self, request_name: &str, arg_count: Option<usize>, handler: H) -> (r:
        &mut Self)
        requires
            old(self).wf(),
        ensures
            r.wf(),
            registered(*old(self), *r, request_name@, arg_count, handler),
            *final(self) == *final(r),
            r.exited() == old(self).exited(),
            r.sent() == old(self).sent(),
            r.invoked() == old(self).invoked(),
            r.at_return() == old(self).at_return(),
    {
        let name = String::from_str(request_name);
        let found = self.find(&name);
        let entry = HandlerEntry { call_name: name, arg_count, callback: handler };
        match found {
            Some(i) => {
                proof {
                    lemma_registry_update(self.handlers@, i as int, entry);
                }
                self.handlers.set(i, entry);
                assert(names_unique(self.handlers@)) by {
                    assert forall|a: int, b: int|
                        0 <= a < self.handlers.len() && 0 <= b < self.handlers.len() && a != b
                            implies (#[trigger] self.handlers@[a]).call_name@ != (
                        #[trigger] self.handlers@[b]).call_name@ by {
                        assert(old(self).handlers@[a].call_name@ == self.handlers@[a].call_name@);
                        assert(old(self).handlers@[b].call_name@ == self.handlers@[b].call_name@);
                    }
                }
            },
            None => {
                self.handlers.push(entry);
                assert(self.handlers@.drop_last() == old(self).handlers@);
                assert(names_unique(self.handlers@)) by {
                    assert forall|a: int, b: int|
                        0 <= a < self.handlers.len() && 0 <= b < self.handlers.len() && a != b
                            implies (#[trigger] self.handlers@[a]).call_name@ != (
                        #[trigger] self.handlers@[b]).call_name@ by {
                        if a < old(self).handlers.len() && b < old(self).handlers.len() {
                            assert(self.handlers@[a] == old(self).handlers@[a]);
                            assert(self.handlers@[b] == old(self).handlers@[b]);
                        } else if a < old(self).handlers.len() {
                            assert(self.handlers@[a] == old(self).handlers@[a]);
                        } else {
                            assert(self.handlers@[b] == old(self).handlers@[b]);
                        }
                    }
                }
            },
        }
        self
    }

    /// Where the handler registered under `name` stands, if any.
    fn find(&self, name: &String) -> (r: Option<usize>)
        ensures
            match r {
                None => !self.registry().contains_key(name@) && forall|j: int|
                    0 <= j < self.handlers.len() ==> (#[trigger] self.handlers[j]).call_name@
                        != name@,
                Some(i) => i < self.handlers.len() && self.handlers[i as int].call_name@ == name@
                    && self.registry().contains_key(name@)
                    && self.registry()[name@] == (
                    self.handlers[i as int].arg_count,
                    self.handlers[i as int].callback,
                ),
            },
    {
        let ghost s = self.handlers@;
        let mut i: usize = self.handlers.len();
        assert(s.take(s.len() as int) == s);
        while i > 0
            invariant
                i <= s.len(),
                s == self.handlers@,
                registry_of(s).contains_key(name@) == registry_of(s.take(i as int)).contains_key(
                    name@,
                ),
                registry_of(s).contains_key(name@) ==> registry_of(s)[name@] == registry_of(
                    s.take(i as int),
                )[name@],
                forall|j: int| i <= j < s.len() ==> (#[trigger] s[j]).call_name@ != name@,
            decreases i,
        {
            proof {
                lemma_registry_step(s, i as int, name@);
            }
            if self.handlers[i - 1].call_name == *name {
                return Some(i - 1);
            }
            i -= 1;
        }
        assert(s.take(0) == Seq::<HandlerEntry<H>>::empty());
        None
    }

    /// Serves one call: looks its handler up, checks its arguments, runs the
    /// handler, and sends the reply, unless the handler shut the engine down.
    pub fn handle(&mut self, message: Message) -> (r: Outcome)
        requires
            old(self).wf(),
        ensures
            final(self).wf(),
            final(self).registry() == old(self).registry(),
            final(self).exited() == (old(self).exited() || r == Outcome::Stopped),
            !old(self).registry().contains_key(message.call_name@) ==> r == Outcome::Ignored
                && final(self).sent() == old(self).sent() && final(self).invoked() == old(
                self,
            ).invoked() && final(self).at_return() == old(self).at_return(),
            old(self).registry().contains_key(message.call_name@) ==> ({
                let (expected, handler) = old(self).registry()[message.call_name@];
                match arity_error(message.call_name@, expected, message.arguments) {
                    Some(e) => r == Outcome::Rejected && final(self).sent() == old(self).sent()
                        + reply_envelopes(message.id@, false, e) && final(self).invoked() == old(
                        self,
                    ).invoked() && final(self).at_return() == old(self).at_return(),
                    None => final(self).invoked() == old(self).invoked().push(
                        (Invocation {
                            name: message.call_name@,
                            handler,
                            id: message.id@,
                            arguments: message.arguments,
                        }),
                    ) && handler_ended(final(self).at_return(), r, final(self).sent()),
                }
            }),
    {
        let found = self.find(&message.call_name);
        let i = match found {
            None => return Outcome::Ignored,
            Some(i) => i,
        };
        let error = check_arguments(
            message.call_name.as_str(),
            self.handlers[i].arg_count,
            &message.arguments,
        );
        let mut context = MessageContext::build(message, &self.session, self.sent);
        if let Some(e) = error {
            context.return_error(e.as_str());
            self.sent = Ghost(context.sent());
            return Outcome::Rejected;
        }
        proof {
            self.invoked@ = self.invoked@.push(
                Invocation {
                    name: context.name(),
                    handler: self.handlers[i as int].callback,
                    id: context.reply_id(),
                    arguments: context.args(),
                },
            );
        }
        let result = self.handlers[i].callback.call(&mut context);
        let ghost returned = HandlerReturn {
            sent: context.sent(),
            reply_id: context.reply_id(),
            shutdown: context.shutdown_requested(),
            teardown: context.teardown(),
            result,
        };
        let stop = context.complete(result);
        proof {
            self.returned@ = Some(returned);
        }
        self.sent = Ghost(context.sent());
        if stop {
            self.is_exit = true;
            Outcome::Stopped
        } else {
            Outcome::Answered
        }
    }
}

/// Whether a handler run that ended with `r` and left `sent` behind was
/// finished as `returned` demands: where the handler asked for a shutdown,
/// the session was closed during the run, the engine stopped and nothing
/// more was sent; otherwise exactly the reply for its result was sent.
pub open spec fn handler_ended(returned: Option<HandlerReturn>, r: Outcome, sent: Seq<Seq<char>>) -> bool {
    match returned {
        None => false,
        Some(ret) => if ret.shutdown {
            r == Outcome::Stopped && closed_down(ret.teardown) && sent == ret.sent
        } else {
            r == Outcome::Answered && sent == ret.sent + reply_for(ret.reply_id, ret.result)
        },
    }
}

/// Of two registrations under one name, the second is the one that stays:
/// the name maps to the second handler and count, and every other name to
/// what it mapped to before either.
pub proof fn lemma_last_registration_wins<T: Transport, H: Handler<T>>(
    e0: RequestEngine<T, H>,
    e1: RequestEngine<T, H>,
    e2: RequestEngine<T, H>,
    name: Seq<char>,
    first_count: Option<usize>,
    first: H,
    second_count: Option<usize>,
    second: H,
)
    requires
        registered(e0, e1, name, first_count, first),
        registered(e1, e2, name, second_count, second),
    ensures
        e2.registry().contains_key(name),
        e2.registry()[name] == (second_count, second),
        forall|k: Seq<char>|
            k != name ==> (#[trigger] e2.registry().contains_key(k) == e0.registry().contains_key(k)
                && e2.registry()[k] == e0.registry()[k]),
{
}

} // verus!
