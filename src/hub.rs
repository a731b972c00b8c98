use vstd::prelude::*;
use crate::client::{listed, members, Client, ClientRegistry, RegistryMap};
use crate::handler::{
    connection_url, id_shape, new_client_id, regex_is_match, url_of, valid_space_code, RegisterError,
    RegisterResponse, SPACE_CODE_PATTERN,
};
use crate::space::{adjusted, current, opened, SpaceTable};
use crate::text::{count_text, decimal};
use crate::ws::{is_ping, ping_text, Outcome, UpdateRequest};

verus! {

/// The shared state of the service: the live connections and the space counters.
pub struct Hub {
    clients: ClientRegistry,
    spaces: SpaceTable,
}

/// What a broadcast outcome must carry for a counter `count` of space `code`, given the
/// registry it was computed from.
pub open spec fn broadcast_of(r: Outcome, reg: RegistryMap, code: Seq<char>, count: int) -> bool {
    match r {
        Outcome::Broadcast { space_code, count: c, text, recipients } => {
            &&& space_code@ == code
            &&& c as int == count
            &&& count >= 0 && text@ == decimal(count as nat)
            &&& forall|k: Seq<char>| #[trigger] members(reg, code).contains(k) <==> listed(recipients@, k)
            &&& forall|a: int, b: int| 0 <= a < b < recipients@.len() ==> recipients@[a]@ != recipients@[b]@
        },
        _ => false,
    }
}

impl Hub {
    pub closed spec fn wf(self) -> bool {
        self.clients.wf() && self.spaces.wf()
    }

    /// The registry: connection id to (space code, attached).
    pub closed spec fn clients(self) -> RegistryMap {
        self.clients@
    }

    /// The counters: space code to counter.
    pub closed spec fn spaces(self) -> Map<Seq<char>, int> {
        self.spaces@
    }

    /// A hub with no connection and no space.
    pub fn new() -> (r: Hub)
        ensures
            r.wf(),
            r.clients() == RegistryMap::empty(),
            r.spaces() == Map::<Seq<char>, int>::empty(),
    {
        Hub { clients: ClientRegistry::new(), spaces: SpaceTable::new() }
    }

    /// Whether a connection with this id is registered.
    pub fn contains(&self, id: &str) -> (r: bool)
        requires
            self.wf(),
        ensures
            r == self.clients().contains_key(id@),
    {
        self.clients.contains(id)
    }

    /// The counter of a space; a space never seen counts zero.
    pub fn count_of(&self, code: &str) -> (r: isize)
        requires
            self.wf(),
        ensures
            r as int == current(self.spaces(), code@),
    {
        self.spaces.count_of(code)
    }

    /// Registers connection `id` in space `space_code`, not yet upgraded, when the code was
    /// found valid and the id is not in use; otherwise turns it down and changes nothing.
    pub fn register_client(&mut self, id: String, space_code: String, code_ok: bool) -> (r:
        Result<RegisterResponse, RegisterError>)
        requires
            old(self).wf(),
        ensures
            final(self).wf(),
            r is Ok <==> code_ok && !old(self).clients().contains_key(id@),
            r is Ok ==> final(self).clients() == old(self).clients().insert(id@, (space_code@, false)),
            r is Ok ==> r->Ok_0.url@ == url_of(id@),
            !code_ok ==> r is Err && r->Err_0.message@ == "invalid space code"@,
            code_ok && old(self).clients().contains_key(id@) ==> r is Err && r->Err_0.message@
                == "identifier already in use"@,
            r is Err ==> final(self).clients() == old(self).clients(),
            final(self).spaces() == old(self).spaces(),
    {
        if !code_ok {
            return Err(RegisterError { message: String::from_str("invalid space code") });
        }
        if self.clients.contains(id.as_str()) {
            return Err(RegisterError { message: String::from_str("identifier already in use") });
        }
        let url = connection_url(id.as_str());
        self.clients.insert(Client { id, space_code, attached: false });
        Ok(RegisterResponse { url })
    }

    /// Registers a new connection in a space under a fresh identifier, and returns the
    /// address of its socket. A space code that is not four to six upper-case letters is
    /// turned down; so is the registration, changing nothing, in the unlikely case that the
    /// random identifier drawn is already in use.
    pub fn register(&mut self, space_code: &str) -> (r: Result<RegisterResponse, RegisterError>)
        requires
            old(self).wf(),
        ensures
            final(self).wf(),
            !regex_is_match(SPACE_CODE_PATTERN@, space_code@) ==> r is Err && r->Err_0.message@
                == "invalid space code"@,
            regex_is_match(SPACE_CODE_PATTERN@, space_code@) ==> r is Ok || r->Err_0.message@
                == "identifier already in use"@,
            r is Ok ==> exists|id: Seq<char>|
                #![trigger url_of(id)]
                id_shape(id) && !old(self).clients().contains_key(id)
                    && final(self).clients() == old(self).clients().insert(id, (space_code@, false))
                    && url_of(id) == r->Ok_0.url@,
            r is Err && regex_is_match(SPACE_CODE_PATTERN@, space_code@) ==> exists|id: Seq<char>|
                #![trigger old(self).clients().contains_key(id)]
                id_shape(id) && old(self).clients().contains_key(id),
            r is Err ==> final(self).clients() == old(self).clients(),
            final(self).spaces() == old(self).spaces(),
    {
        let ok = valid_space_code(space_code);
        if !ok {
            return Err(RegisterError { message: String::from_str("invalid space code") });
        }
        let id = new_client_id();
        let ghost g = id@;
        let r = self.register_client(id, String::from_str(space_code), true);
        assert(r is Ok ==> url_of(g) == r->Ok_0.url@ && id_shape(g));
        assert(r is Err ==> id_shape(g) && old(self).clients().contains_key(g));
        r
    }

    /// Removes a connection, whether it never opened its socket or has just closed it, and
    /// tells whether it was registered.
    pub fn unregister(&mut self, id: &str) -> (r: bool)
        requires
            old(self).wf(),
        ensures
            final(self).wf(),
            r == old(self).clients().contains_key(id@),
            final(self).clients() == old(self).clients().remove(id@),
            final(self).spaces() == old(self).spaces(),
    {
        let known = self.clients.contains(id);
        self.clients.remove(id);
        known
    }

    /// Marks a connection's socket as upgraded, so that broadcasts reach it; an unknown id
    /// is refused and changes nothing.
    pub fn upgrade(&mut self, id: &str) -> (r: bool)
        requires
            old(self).wf(),
        ensures
            final(self).wf(),
            r == old(self).clients().contains_key(id@),
            r ==> final(self).clients() == old(self).clients().insert(
                id@,
                (old(self).clients()[id@].0, true),
            ),
            !r ==> final(self).clients() == old(self).clients(),
            final(self).spaces() == old(self).spaces(),
    {
        self.clients.attach(id)
    }

    /// Handles one inbound message of a connection. `request` is the message decoded, or
    /// `None` where it could not be. Pings, messages of unknown connections and undecodable
    /// messages change nothing; a join moves the connection; a counter update adjusts the
    /// connection's space and names the text and recipients of the broadcast.
    pub fn client_msg(&mut self, client_id: &str, message: &str, request: Option<UpdateRequest>) -> (r:
        Outcome)
        requires
            old(self).wf(),
        ensures
            final(self).wf(),
            ({
                let reg = old(self).clients();
                let known = reg.contains_key(client_id@);
                if ping_text(message@) || !known || request is None {
                    &&& r is Ignored
                    &&& final(self).clients() == reg
                    &&& final(self).spaces() == old(self).spaces()
                } else {
                    match request {
                        Some(UpdateRequest::SpaceSet { space_code }) => {
                            &&& r is Joined
                            &&& final(self).clients() == reg.insert(client_id@, (space_code@, reg[client_id@].1))
                            &&& final(self).spaces() == opened(old(self).spaces(), space_code@)
                        },
                        Some(UpdateRequest::CountUpdate { mode, value }) => {
                            let code = reg[client_id@].0;
                            let count = adjusted(current(old(self).spaces(), code), mode@, value as int);
                            &&& final(self).clients() == reg
                            &&& final(self).spaces() == old(self).spaces().insert(code, count)
                            &&& broadcast_of(r, reg, code, count)
                        },
                        None => false,
                    }
                }
            }),
    {
        if is_ping(message) {
            return Outcome::Ignored;
        }
        let code = match self.clients.space_of(client_id) {
            Some(c) => c,
            None => return Outcome::Ignored,
        };
        match request {
            None => Outcome::Ignored,
            Some(UpdateRequest::SpaceSet { space_code }) => {
                self.spaces.open(space_code.as_str());
                self.clients.set_space(client_id, space_code);
                Outcome::Joined
            },
            Some(UpdateRequest::CountUpdate { mode, value }) => {
                let count = self.spaces.adjust(code.as_str(), mode.as_str(), value);
                let text = count_text(count);
                let recipients = self.clients.recipients(code.as_str());
                Outcome::Broadcast { space_code: code, count, text, recipients }
            },
        }
    }
}

/// A broadcast for a space reaches exactly the upgraded connections joined to that space:
/// a connection joined to another space, or not yet upgraded, is never among them.
pub proof fn lemma_broadcast_audience(reg: RegistryMap, code: Seq<char>, k: Seq<char>)
    ensures
        members(reg, code).contains(k) <==> (reg.contains_key(k) && reg[k] == (code, true)),
        reg.contains_key(k) && reg[k].0 != code ==> !members(reg, code).contains(k),
{
}

/// Once a connection is removed, no later broadcast, to whatever space, is addressed to it.
pub proof fn lemma_removed_never_reached(reg: RegistryMap, id: Seq<char>, code: Seq<char>)
    ensures
        !members(reg.remove(id), code).contains(id),
{
}

/// Registering a fresh connection and then removing it leaves the registry exactly as it
/// was, so repeated connect and disconnect cycles leave no entry behind.
pub proof fn lemma_connect_disconnect(reg: RegistryMap, id: Seq<char>, entry: (Seq<char>, bool))
    requires
        !reg.contains_key(id),
    ensures
        reg.insert(id, entry).remove(id) == reg,
{
    assert(reg.insert(id, entry).remove(id) =~= reg);
}

} // verus!
