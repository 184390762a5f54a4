//! A server that keeps to a script.

use vstd::prelude::*;

use crate::clients::{Error, ErrorView, Reply, RequestResponse, Session};
use crate::text;

verus! {

/// What a server that keeps to a script replies to the last of some requests: the reply that the
/// script has in that place, provided that it is to that request.
pub open spec fn scripted(convo: Seq<(Seq<char>, Seq<char>)>, sent: Seq<Seq<char>>) -> Reply {
    let i = sent.len() - 1;
    if 0 <= i < convo.len() && convo[i].0 == sent[i] {
        Ok(convo[i].1)
    } else {
        Err(ErrorView::Io { source: "unexpected request"@ })
    }
}

/// The requests & replies of a script.
pub open spec fn script_of(convo: Seq<(String, String)>) -> Seq<(Seq<char>, Seq<char>)> {
    convo.map_values(|e: (String, String)| (e.0@, e.1@))
}

/// An implementation of [`RequestResponse`] that checks expected requests & gives the responses it
/// was given for them, and fails a request that it does not expect.
pub struct Mock {
    convo: Vec<(String, String)>,
    next: usize,
    sent: Ghost<Seq<Seq<char>>>,
}

impl Mock {
    #[verifier::type_invariant]
    spec fn wf(self) -> bool {
        &&& self.next <= self.convo@.len()
        &&& self.sent@.len() < self.convo@.len() ==> self.next == self.sent@.len()
        &&& self.sent@.len() >= self.convo@.len() ==> self.next == self.convo@.len()
    }

    /// A server that keeps to `convo`.
    pub fn new(convo: Vec<(String, String)>) -> (r: Mock)
        ensures
            r.session().sent == Seq::<Seq<char>>::empty(),
            forall|sent: Seq<Seq<char>>|
                #![auto]
                (r.session().server)(sent) == scripted(script_of(convo@), sent),
    {
        Mock { convo, next: 0, sent: Ghost(Seq::empty()) }
    }
}

impl RequestResponse for Mock {
    closed spec fn session(&self) -> Session {
        let convo = script_of(self.convo@);
        Session { server: |sent: Seq<Seq<char>>| scripted(convo, sent), sent: self.sent@ }
    }

    fn req(&mut self, msg: &str) -> (r: Result<String, Error>) {
        self.req_w_hint(msg, 512)
    }

    fn req_w_hint(&mut self, msg: &str, hint: usize) -> (r: Result<String, Error>) {
        proof {
            use_type_invariant(&*self);
        }
        let ghost before = *self;
        let ghost sent = self.sent@.push(msg@);
        let i: usize = self.next;
        let mut held = Mock::new(Vec::new());
        std::mem::swap(self, &mut held);
        let Mock { convo, next: _, sent: _ } = held;
        let r = if i < convo.len() {
            if text::same(convo[i].0.as_str(), msg) {
                Ok(convo[i].1.clone())
            } else {
                Err(Error::Io { source: text::owned("unexpected request") })
            }
        } else {
            Err(Error::Io { source: text::owned("unexpected request") })
        };
        let next: usize = if i < convo.len() {
            i + 1
        } else {
            i
        };
        *self = Mock { convo, next, sent: Ghost(sent) };
        assert(script_of(convo@) == script_of(before.convo@));
        assert(before.session().ask(msg@).1.server =~= self.session().server);
        r
    }
}

} // verus!
