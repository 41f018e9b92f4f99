//! The transport, with a record of everything that was asked of it.
//!
//! The library is handed the USB transport as a function. It is kept in a
//! `Transport`, whose fields no other module can reach: the one way to call
//! the function is `Transport::perform`, which writes the action and the
//! reply into the log. So where a function of the library says what it added
//! to the log, it says everything that it asked of the transport. `Recorded`
//! does the same for any other function that is handed in, and `Once` for a
//! function that may be called once: it says whether it was called.

use vstd::prelude::*;
use crate::protocol::{Action, Exchange, Reply};

verus! {

/// The USB transport of one device handle, and the log of what was asked of it.
pub struct Transport<F> {
    perform: F,
    log: Vec<Exchange>,
}

impl<F: Fn(Action) -> Reply> Transport<F> {
    /// The function that carries out an action on the device handle.
    pub closed spec fn function(self) -> F {
        self.perform
    }

    /// Everything that was asked of the transport so far, with the replies,
    /// and how the caller's transfers went where they were run.
    pub closed spec fn asked(self) -> Seq<Exchange> {
        self.log@
    }

    /// A transport that nothing was asked of yet.
    pub fn new(perform: F) -> (r: Self)
        ensures
            r.function() == perform,
            r.asked() == Seq::<Exchange>::empty(),
    {
        Transport { perform, log: Vec::new() }
    }

    /// Carries out one action, once, and writes it into the log with its reply.
    pub fn perform(&mut self, action: Action) -> (reply: Reply)
        requires
            !(action is Transfer),
            call_requires(old(self).function(), (action,)),
        ensures
            final(self).function() == old(self).function(),
            call_ensures(old(self).function(), (action,), reply),
            final(self).asked() == old(self).asked().push(Exchange { action, reply }),
    {
        let reply = (self.perform)(action);
        self.log.push(Exchange { action, reply });
        reply
    }

    /// Writes into the log how the caller's transfers went. Nothing is asked
    /// of the transport.
    pub fn yielded(&mut self, reply: Reply)
        ensures
            final(self).function() == old(self).function(),
            final(self).asked() == old(self).asked().push(
                Exchange { action: Action::Transfer, reply },
            ),
    {
        self.log.push(Exchange { action: Action::Transfer, reply });
    }

    /// The log.
    pub fn log(&self) -> (r: &Vec<Exchange>)
        ensures
            r@ == self.asked(),
    {
        &self.log
    }
}

/// A function that was handed in, with a record of every call of it.
pub struct Recorded<A, R, F> {
    function: F,
    calls: Ghost<Seq<(A, R)>>,
}

impl<A, R, F: Fn(A) -> R> Recorded<A, R, F> {
    /// The function.
    pub closed spec fn function(self) -> F {
        self.function
    }

    /// Every call so far: the argument and what came back.
    pub closed spec fn calls(self) -> Seq<(A, R)> {
        self.calls@
    }

    /// A function that was not called yet.
    pub fn new(function: F) -> (r: Self)
        ensures
            r.function() == function,
            r.calls() == Seq::<(A, R)>::empty(),
    {
        Recorded { function, calls: Ghost(Seq::empty()) }
    }

    /// Calls the function, once, and records the call.
    pub fn call(&mut self, argument: A) -> (r: R)
        requires
            call_requires(old(self).function(), (argument,)),
        ensures
            final(self).function() == old(self).function(),
            call_ensures(old(self).function(), (argument,), r),
            final(self).calls() == old(self).calls().push((argument, r)),
    {
        let ghost given = argument;
        let r = (self.function)(argument);
        proof {
            self.calls@ = self.calls@.push((given, r));
        }
        r
    }
}

/// A function that can be called once, with a record of whether it was, and
/// of the call.
pub struct Once<A, R, F> {
    function: Option<F>,
    spent: Ghost<F>,
    made: Ghost<Option<(A, R)>>,
}

impl<A, R, F: FnOnce(A) -> R> Once<A, R, F> {
    /// The function.
    pub closed spec fn function(self) -> F {
        match self.function {
            Some(function) => function,
            None => self.spent@,
        }
    }

    /// Whether the function can still be called.
    pub closed spec fn unspent(self) -> bool {
        self.function is Some
    }

    /// The call that was made, if one was: the argument and what came back.
    pub closed spec fn called(self) -> Option<(A, R)> {
        self.made@
    }

    /// A function that was not called yet.
    pub fn new(function: F) -> (r: Self)
        ensures
            r.function() == function,
            r.unspent(),
            r.called() is None,
    {
        let ghost given = function;
        Once { function: Some(function), spent: Ghost(given), made: Ghost(None) }
    }

    /// Tests whether the function can still be called.
    pub fn is_unspent(&self) -> (r: bool)
        ensures
            r == self.unspent(),
    {
        self.function.is_some()
    }

    /// Calls the function and records the call. The function must not have
    /// been called before: see `is_unspent`.
    pub fn call(&mut self, argument: A) -> (r: R)
        requires
            old(self).unspent(),
            call_requires(old(self).function(), (argument,)),
        ensures
            final(self).function() == old(self).function(),
            !final(self).unspent(),
            call_ensures(old(self).function(), (argument,), r),
            final(self).called() == Some((argument, r)),
    {
        let ghost passed = argument;
        match self.function.take() {
            Some(function) => {
                proof {
                    self.spent@ = function;
                }
                let r = function(argument);
                proof {
                    self.made@ = Some((passed, r));
                }
                r
            },
            None => vstd::pervasive::unreached(),
        }
    }
}

} // verus!
