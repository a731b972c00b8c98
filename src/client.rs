use vstd::prelude::*;
use crate::text::same_text;

verus! {

/// One connection: its identifier, the space it belongs to, and whether its socket has
/// been upgraded, so that it has an outbound channel to receive broadcasts.
pub struct Client {
    pub id: String,
    pub space_code: String,
    pub attached: bool,
}

/// The registry as a map: connection id to (space code, attached).
pub type RegistryMap = Map<Seq<char>, (Seq<char>, bool)>;

/// The connections that a broadcast to a space must reach: those joined to it whose socket
/// is upgraded.
pub open spec fn members(m: RegistryMap, code: Seq<char>) -> Set<Seq<char>> {
    Set::new(|k: Seq<char>| m.contains_key(k) && m[k].0 == code && m[k].1)
}

/// The live connections, at most one entry per id.
pub struct ClientRegistry {
    clients: Vec<Client>,
}

impl ClientRegistry {
    pub closed spec fn has_at(self, id: Seq<char>, i: int) -> bool {
        0 <= i < self.clients@.len() && self.clients@[i].id@ == id
    }

    /// No two entries share an id.
    pub closed spec fn wf(self) -> bool {
        forall|i: int, j: int|
            0 <= i < j < self.clients@.len() ==> self.clients@[i].id@ != self.clients@[j].id@
    }

    pub closed spec fn view(self) -> RegistryMap {
        Map::new(
            |k: Seq<char>| exists|i: int| self.has_at(k, i),
            |k: Seq<char>|
                {
                    let c = self.clients@[choose|i: int| self.has_at(k, i)];
                    (c.space_code@, c.attached)
                },
        )
    }

    proof fn lemma_at(self, i: int)
        requires
            self.wf(),
            0 <= i < self.clients@.len(),
        ensures
            self@.contains_key(self.clients@[i].id@),
            self@[self.clients@[i].id@] == (self.clients@[i].space_code@, self.clients@[i].attached),
    {
        let k = self.clients@[i].id@;
        assert(self.has_at(k, i));
        let j = choose|j: int| self.has_at(k, j);
        assert(i == j);
    }

    pub closed spec fn holds(self, c: Client) -> bool {
        exists|l: int| 0 <= l < self.clients@.len() && self.clients@[l] == c
    }

    /// Where `a` holds at every index but `skip` the entries of `b`, the maps agree on every
    /// id but `id`.
    proof fn lemma_same_elsewhere(a: Self, b: Self, id: Seq<char>, skip: int)
        requires
            a.wf(),
            b.wf(),
            forall|j: int| 0 <= j < b.clients@.len() && j != skip ==> #[trigger] a.holds(b.clients@[j]),
            forall|l: int| 0 <= l < a.clients@.len() ==> (a.clients@[l].id@ == id || #[trigger] b.holds(a.clients@[l])),
            0 <= skip < b.clients@.len() ==> b.clients@[skip].id@ == id,
        ensures
            forall|k: Seq<char>| k != id ==> (#[trigger] a@.contains_key(k) == b@.contains_key(k)) && (a@.contains_key(k) ==> a@[k] == b@[k]),
    {
        assert forall|k: Seq<char>| k != id implies (#[trigger] a@.contains_key(k) == b@.contains_key(k)) && (a@.contains_key(k) ==> a@[k] == b@[k]) by {
            if b@.contains_key(k) {
                let j = choose|j: int| b.has_at(k, j);
                assert(j != skip);
                assert(a.holds(b.clients@[j]));
                let l = choose|l: int| 0 <= l < a.clients@.len() && a.clients@[l] == b.clients@[j];
                assert(a.has_at(k, l));
                a.lemma_at(l);
                b.lemma_at(j);
            }
            if a@.contains_key(k) {
                let l = choose|l: int| a.has_at(k, l);
                assert(b.holds(a.clients@[l]));
                let j = choose|j: int| 0 <= j < b.clients@.len() && a.clients@[l] == b.clients@[j];
                assert(b.has_at(k, j));
            }
        }
    }

    /// An empty registry.
    pub fn new() -> (r: ClientRegistry)
        ensures
            r.wf(),
            r@ == RegistryMap::empty(),
    {
        let r = ClientRegistry { clients: Vec::new() };
        assert(r@ =~= RegistryMap::empty());
        r
    }

    fn find(&self, id: &str) -> (r: Option<usize>)
        requires
            self.wf(),
        ensures
            match r {
                Some(i) => self.has_at(id@, i as int),
                None => !self@.contains_key(id@),
            },
    {
        let mut i: usize = 0;
        while i < self.clients.len()
            invariant
                i <= self.clients@.len(),
                forall|j: int| 0 <= j < i ==> !self.has_at(id@, j),
            decreases self.clients@.len() - i,
        {
            if same_text(self.clients[i].id.as_str(), id) {
                return Some(i);
            }
            i = i + 1;
        }
        None
    }

    /// Whether a connection with this id is registered.
    pub fn contains(&self, id: &str) -> (r: bool)
        requires
            self.wf(),
        ensures
            r == self@.contains_key(id@),
    {
        match self.find(id) {
            Some(i) => {
                proof {
                    self.lemma_at(i as int);
                }
                true
            },
            None => false,
        }
    }

    /// The space a registered connection belongs to.
    pub fn space_of(&self, id: &str) -> (r: Option<String>)
        requires
            self.wf(),
        ensures
            match r {
                Some(s) => self@.contains_key(id@) && s@ == self@[id@].0,
                None => !self@.contains_key(id@),
            },
    {
        match self.find(id) {
            Some(i) => {
                proof {
                    self.lemma_at(i as int);
                }
                Some(self.clients[i].space_code.clone())
            },
            None => None,
        }
    }

    /// Adds a connection, replacing any entry with the same id.
    pub fn insert(&mut self, client: Client)
        requires
            old(self).wf(),
        ensures
            final(self).wf(),
            final(self)@ == old(self)@.insert(client.id@, (client.space_code@, client.attached)),
    {
        let ghost c = client;
        match self.find(client.id.as_str()) {
            Some(i) => {
                self.clients.set(i, client);
                proof {
                    let o = *old(self);
                    assert forall|j: int| 0 <= j < o.clients@.len() && j != i implies #[trigger] self.holds(o.clients@[j]) by {
                        assert(self.clients@[j] == o.clients@[j]);
                    }
                    assert forall|j: int| 0 <= j < self.clients@.len() && j != i implies #[trigger] o.holds(self.clients@[j]) by {
                        assert(self.clients@[j] == o.clients@[j]);
                    }
                    assert forall|j: int| 0 <= j < self.clients@.len() implies self.clients@[j].id@ == c.id@ || #[trigger] o.holds(self.clients@[j]) by {
                        if j != i {
                            assert(self.clients@[j] == o.clients@[j]);
                        }
                    }
                    assert forall|j: int| 0 <= j < o.clients@.len() implies o.clients@[j].id@ == c.id@ || #[trigger] self.holds(o.clients@[j]) by {
                        if j != i {
                            assert(self.clients@[j] == o.clients@[j]);
                        }
                    }
                    Self::lemma_same_elsewhere(*self, *old(self), c.id@, i as int);
                    Self::lemma_same_elsewhere(*old(self), *self, c.id@, i as int);
                    self.lemma_at(i as int);
                }
            },
            None => {
                self.clients.push(client);
                proof {
                    let o = *old(self);
                    let n = o.clients@.len() as int;
                    assert forall|j: int| 0 <= j < n implies self.clients@[j].id@ != c.id@ by {
                        if o.has_at(c.id@, j) {
                            assert(o@.contains_key(c.id@));
                        }
                    }
                    assert forall|j: int| 0 <= j < n implies #[trigger] self.holds(o.clients@[j]) by {
                        assert(self.clients@[j] == o.clients@[j]);
                    }
                    assert forall|j: int| 0 <= j < n implies #[trigger] o.holds(self.clients@[j]) by {
                        assert(self.clients@[j] == o.clients@[j]);
                    }
                    Self::lemma_same_elsewhere(*self, o, c.id@, n);
                    Self::lemma_same_elsewhere(o, *self, c.id@, n);
                    self.lemma_at(n);
                }
            },
        }
        assert(self@ =~= old(self)@.insert(c.id@, (c.space_code@, c.attached)));
    }

    /// Removes a connection; an unknown id leaves the registry as it was.
    pub fn remove(&mut self, id: &str)
        requires
            old(self).wf(),
        ensures
            final(self).wf(),
            final(self)@ == old(self)@.remove(id@),
    {
        match self.find(id) {
            Some(i) => {
                self.clients.remove(i);
                proof {
                    let o = *old(self);
                    assert forall|j: int| 0 <= j < self.clients@.len() implies self.clients@[j].id@ != id@ by {
                        let src = if j < i { j } else { j + 1 };
                        assert(self.clients@[j] == o.clients@[src]);
                    }
                    assert forall|j: int| 0 <= j < o.clients@.len() && j != i implies #[trigger] self.holds(o.clients@[j]) by {
                        let l = if j < i { j } else { j - 1 };
                        assert(self.clients@[l] == o.clients@[j]);
                    }
                    assert forall|l: int| 0 <= l < self.clients@.len() implies #[trigger] o.holds(self.clients@[l]) by {
                        let j = if l < i { l } else { l + 1 };
                        assert(self.clients@[l] == o.clients@[j]);
                    }
                    Self::lemma_same_elsewhere(*self, o, id@, i as int);
                    Self::lemma_same_elsewhere(o, *self, id@, -1);
                    if self@.contains_key(id@) {
                        let l = choose|l: int| self.has_at(id@, l);
                    }
                }
            },
            None => {},
        }
        assert(self@ =~= old(self)@.remove(id@));
    }

    /// Moves a registered connection into a space; returns false, changing nothing, when
    /// the id is unknown.
    pub fn set_space(&mut self, id: &str, code: String) -> (r: bool)
        requires
            old(self).wf(),
        ensures
            final(self).wf(),
            r == old(self)@.contains_key(id@),
            r ==> final(self)@ == old(self)@.insert(id@, (code@, old(self)@[id@].1)),
            !r ==> final(self)@ == old(self)@,
    {
        match self.find(id) {
            Some(i) => {
                proof {
                    self.lemma_at(i as int);
                }
                let c = Client { id: self.clients[i].id.clone(), space_code: code, attached: self.clients[i].attached };
                self.insert(c);
                true
            },
            None => false,
        }
    }

    /// Marks a registered connection as upgraded; returns false, changing nothing, when the
    /// id is unknown.
    pub fn attach(&mut self, id: &str) -> (r: bool)
        requires
            old(self).wf(),
        ensures
            final(self).wf(),
            r == old(self)@.contains_key(id@),
            r ==> final(self)@ == old(self)@.insert(id@, (old(self)@[id@].0, true)),
            !r ==> final(self)@ == old(self)@,
    {
        match self.find(id) {
            Some(i) => {
                proof {
                    self.lemma_at(i as int);
                }
                let c = Client { id: self.clients[i].id.clone(), space_code: self.clients[i].space_code.clone(), attached: true };
                self.insert(c);
                true
            },
            None => false,
        }
    }

    spec fn member_at(self, code: Seq<char>, l: int) -> bool {
        self.clients@[l].space_code@ == code && self.clients@[l].attached
    }

    /// The ids of the connections that a broadcast to a space must reach, each once.
    pub fn recipients(&self, code: &str) -> (r: Vec<String>)
        requires
            self.wf(),
        ensures
            forall|k: Seq<char>| #[trigger] members(self@, code@).contains(k) <==> listed(r@, k),
            forall|a: int, b: int| 0 <= a < b < r@.len() ==> r@[a]@ != r@[b]@,
    {
        let mut r: Vec<String> = Vec::new();
        let ghost idx: Seq<int> = Seq::empty();
        let mut i: usize = 0;
        while i < self.clients.len()
            invariant
                self.wf(),
                i <= self.clients@.len(),
                idx.len() == r@.len(),
                forall|j: int| 0 <= j < r@.len() ==> 0 <= #[trigger] idx[j] < i && r@[j]@ == self.clients@[idx[j]].id@ && self.member_at(code@, idx[j]),
                forall|l: int| 0 <= l < i && self.member_at(code@, l) ==> listed(r@, #[trigger] self.clients@[l].id@),
                forall|a: int, b: int| 0 <= a < b < r@.len() ==> r@[a]@ != r@[b]@,
            decreases self.clients@.len() - i,
        {
            let c = &self.clients[i];
            if c.attached && same_text(c.space_code.as_str(), code) {
                let ghost before = r@;
                proof {
                    assert forall|j: int| 0 <= j < r@.len() implies r@[j]@ != self.clients@[i as int].id@ by {
                        assert(idx[j] != i);
                    }
                }
                r.push(c.id.clone());
                proof {
                    idx = idx.push(i as int);
                    assert forall|l: int| 0 <= l <= i && self.member_at(code@, l) implies listed(r@, #[trigger] self.clients@[l].id@) by {
                        if l < i {
                            let j = choose|j: int| 0 <= j < before.len() && before[j]@ == self.clients@[l].id@;
                            assert(r@[j] == before[j]);
                        } else {
                            assert(r@[r@.len() - 1]@ == self.clients@[l].id@);
                        }
                    }
                }
            }
            i = i + 1;
        }
        proof {
            assert forall|k: Seq<char>| #[trigger] members(self@, code@).contains(k) <==> listed(r@, k) by {
                if members(self@, code@).contains(k) {
                    let l = choose|l: int| self.has_at(k, l);
                    self.lemma_at(l);
                    assert(listed(r@, self.clients@[l].id@));
                }
                if listed(r@, k) {
                    let j = choose|j: int| 0 <= j < r@.len() && r@[j]@ == k;
                    self.lemma_at(idx[j]);
                }
            }
        }
        r
    }
}

/// Whether one of the strings reads `k`.
pub open spec fn listed(r: Seq<String>, k: Seq<char>) -> bool {
    exists|j: int| 0 <= j < r.len() && r[j]@ == k
}

} // verus!
