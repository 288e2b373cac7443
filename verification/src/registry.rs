//! The clients that run, one for each language, and the identifiers they
//! are known by.

use crate::table::{
    entries_map, keys_distinct, lemma_entries_map_contains, lemma_entries_map_value, Key, Table,
};
use std::collections::HashSet;
use vstd::prelude::*;

verus! {

/// Seconds to wait for the answer to a request, unless the language says
/// otherwise.
pub const DEFAULT_TIMEOUT: u64 = 20;

/// How the server of a language is started.
#[derive(Clone, Debug, PartialEq)]
pub struct LanguageServerConfiguration {
    pub command: String,
    pub args: Vec<String>,
    /// Variables to add to the environment of the server.
    pub environment: Vec<(String, String)>,
    /// Seconds to wait for the answer to a request.
    pub timeout: u64,
}

impl LanguageServerConfiguration {
    /// The server that is started by `command` alone, with the default
    /// timeout.
    pub fn new(command: String) -> (c: Self)
        ensures
            c.command == command,
            c.args@.len() == 0,
            c.environment@.len() == 0,
            c.timeout == DEFAULT_TIMEOUT,
    {
        LanguageServerConfiguration {
            command,
            args: Vec::new(),
            environment: Vec::new(),
            timeout: DEFAULT_TIMEOUT,
        }
    }
}

/// What the editor knows of a language.
#[derive(Clone, Debug, PartialEq)]
pub struct LanguageConfiguration {
    /// The name by which the language goes, and one client at most runs.
    pub scope: String,
    pub language_server: Option<LanguageServerConfiguration>,
    /// File names that mark the root of a workspace.
    pub roots: Vec<String>,
    /// Options handed to the server as they are.
    pub config: Option<serde_json::Value>,
}

/// What to do for a language that a client is wanted for.
#[derive(Clone, Copy, Debug, PartialEq, Eq, Structural, Hash)]
pub enum Step {
    /// There is nothing to do, and no client.
    Absent,
    /// The client with this identifier runs for the language.
    Running(usize),
    /// A client is to be started under this identifier, and handed to
    /// `insert` once it runs.
    Start(usize),
    /// A client would be started, but no identifier is left.
    Exhausted,
}

/// The clients that run, by the scope of their language. `C` is the
/// handle by which a client is reached.
pub struct Registry<C> {
    inner: Table<String, (usize, C)>,
    counter: usize,
    /// The identifiers that were handed out and not taken in yet.
    waiting: HashSet<usize>,
}

impl<C> Default for Registry<C> {
    fn default() -> (r: Self)
        ensures
            r.wf(),
            r.clients() == Map::<Seq<char>, (usize, C)>::empty(),
            r.issued() == 0,
            r.handed_out() == Set::<usize>::empty(),
    {
        Registry::new()
    }
}

impl<C> Registry<C> {
    /// The running clients: for each scope the identifier and the handle.
    pub closed spec fn clients(&self) -> Map<Seq<char>, (usize, C)> {
        self.inner@
    }

    /// The number of identifiers handed out so far, which is the next one.
    pub closed spec fn issued(&self) -> usize {
        self.counter
    }

    /// The identifiers that were handed out for clients to be started,
    /// and under which no client was taken in yet.
    pub closed spec fn handed_out(&self) -> Set<usize> {
        self.waiting@
    }

    /// The scopes that have a client, each once, in the order in which
    /// `iter_clients` gives their clients.
    pub closed spec fn scopes(&self) -> Seq<Seq<char>> {
        Seq::new(self.inner.spec_entries().len(), |i: int| self.inner.spec_entries()[i].0@)
    }

    /// Every running client has an identifier that was handed out, and
    /// one of its own.
    pub closed spec fn wf(&self) -> bool {
        &&& self.inner.wf()
        &&& forall|i: int|
            0 <= i < self.inner.spec_entries().len() ==> (#[trigger] self.inner.spec_entries()[i]).1.0
                < self.counter
        &&& forall|i: int, j: int|
            0 <= i < j < self.inner.spec_entries().len() ==> (
            #[trigger] self.inner.spec_entries()[i]).1.0 != (
            #[trigger] self.inner.spec_entries()[j]).1.0
        &&& forall|id: usize| #[trigger]
            self.waiting@.contains(id) ==> id < self.counter && !self.has_id(id)
    }

    /// Whether a client runs under this identifier.
    pub open spec fn has_id(&self, id: usize) -> bool {
        exists|scope: Seq<char>| self.holds(scope, id)
    }

    /// Whether this handle is that of a running client.
    pub open spec fn runs(&self, client: C) -> bool {
        exists|scope: Seq<char>|
            self.clients().contains_key(scope) && self.clients()[scope].1 == client
    }

    /// Whether the client of this scope runs under this identifier.
    pub open spec fn holds(&self, scope: Seq<char>, id: usize) -> bool {
        self.clients().contains_key(scope) && self.clients()[scope].0 == id
    }

    proof fn lemma_entry_of_scope(&self, scope: Seq<char>) -> (i: int)
        requires
            self.wf(),
            self.clients().contains_key(scope),
        ensures
            0 <= i < self.inner.spec_entries().len(),
            self.inner.spec_entries()[i].0@ == scope,
            self.inner.spec_entries()[i].1 == self.clients()[scope],
    {
        self.inner.lemma_view();
        let entries = self.inner.spec_entries();
        lemma_entries_map_contains(entries, scope);
        let i = choose|i: int| 0 <= i < entries.len() && (#[trigger] entries[i]).0.id() == scope;
        lemma_entries_map_value(entries, i);
        i
    }

    proof fn lemma_scope_of_entry(&self, i: int)
        requires
            self.wf(),
            0 <= i < self.inner.spec_entries().len(),
        ensures
            self.clients().contains_key(self.inner.spec_entries()[i].0@),
            self.clients()[self.inner.spec_entries()[i].0@] == self.inner.spec_entries()[i].1,
    {
        self.inner.lemma_view();
        lemma_entries_map_value(self.inner.spec_entries(), i);
    }

    /// The identifiers of the running clients were all handed out, and no
    /// two clients share one.
    pub proof fn lemma_identifiers(&self)
        requires
            self.wf(),
        ensures
            !self.has_id(self.issued()),
            !self.handed_out().contains(self.issued()),
            forall|id: usize| #[trigger]
                self.handed_out().contains(id) ==> id < self.issued() && !self.has_id(id),
            forall|id: usize| #[trigger] self.has_id(id) ==> id < self.issued(),
            forall|scope: Seq<char>| #[trigger]
                self.clients().contains_key(scope) ==> self.clients()[scope].0 < self.issued(),
            forall|a: Seq<char>, b: Seq<char>|
                self.clients().contains_key(a) && self.clients().contains_key(b) && a != b
                    ==> (#[trigger] self.clients()[a]).0 != (#[trigger] self.clients()[b]).0,
    {
        assert forall|id: usize| #[trigger] self.has_id(id) implies id < self.issued() by {
            let scope = choose|scope: Seq<char>| self.holds(scope, id);
            let i = self.lemma_entry_of_scope(scope);
        }
        assert forall|scope: Seq<char>| #[trigger]
            self.clients().contains_key(scope) implies self.clients()[scope].0 < self.issued() by {
            let i = self.lemma_entry_of_scope(scope);
        }
        assert forall|a: Seq<char>, b: Seq<char>|
            self.clients().contains_key(a) && self.clients().contains_key(b) && a != b implies (
        #[trigger] self.clients()[a]).0 != (#[trigger] self.clients()[b]).0 by {
            let i = self.lemma_entry_of_scope(a);
            let j = self.lemma_entry_of_scope(b);
            assert(i != j);
        }
    }

    pub fn new() -> (r: Self)
        ensures
            r.wf(),
            r.clients() == Map::<Seq<char>, (usize, C)>::empty(),
            r.issued() == 0,
            r.handed_out() == Set::<usize>::empty(),
    {
        Registry { inner: Table::new(), counter: 0, waiting: HashSet::new() }
    }

    /// The place of the entry with this identifier.
    fn position_of_id(&self, id: usize) -> (at: Option<usize>)
        requires
            self.wf(),
        ensures
            at is Some <==> self.has_id(id),
            at matches Some(i) ==> i < self.inner.spec_entries().len()
                && self.inner.spec_entries()[i as int].1.0 == id,
    {
        let mut i: usize = 0;
        while i < self.inner.len()
            invariant
                i <= self.inner.spec_entries().len(),
                self.wf(),
                forall|j: int| 0 <= j < i ==> (#[trigger] self.inner.spec_entries()[j]).1.0 != id,
            decreases self.inner.spec_entries().len() - i,
        {
            let (_, value) = self.inner.entry(i);
            if value.0 == id {
                proof {
                    self.lemma_scope_of_entry(i as int);
                    assert(self.holds(self.inner.spec_entries()[i as int].0@, id));
                }
                return Some(i);
            }
            i += 1;
        }
        proof {
            if self.has_id(id) {
                let scope = choose|scope: Seq<char>| self.holds(scope, id);
                let j = self.lemma_entry_of_scope(scope);
                assert(false);
            }
        }
        None
    }

    /// The client that runs under this identifier.
    pub fn get_by_id(&self, id: usize) -> (r: Option<&C>)
        requires
            self.wf(),
        ensures
            r is Some <==> self.has_id(id),
            r matches Some(client) ==> exists|scope: Seq<char>|
                self.holds(scope, id) && self.clients()[scope].1 == *client,
    {
        match self.position_of_id(id) {
            Some(i) => {
                let (_, value) = self.inner.entry(i);
                proof {
                    self.lemma_scope_of_entry(i as int);
                    assert(self.holds(self.inner.spec_entries()[i as int].0@, id));
                }
                Some(&value.1)
            },
            None => None,
        }
    }

    /// Forgets the client that runs under this identifier.
    pub fn remove_by_id(&mut self, id: usize)
        requires
            old(self).wf(),
        ensures
            final(self).wf(),
            final(self).issued() == old(self).issued(),
            final(self).handed_out() == old(self).handed_out(),
            !final(self).has_id(id),
            forall|scope: Seq<char>|
                final(self).clients().contains_key(scope) <==> old(self).clients().contains_key(
                    scope,
                ) && !old(self).holds(scope, id),
            forall|scope: Seq<char>| #[trigger]
                final(self).clients().contains_key(scope) ==> final(self).clients()[scope] == old(self).clients()[scope],
    {
        match self.position_of_id(id) {
            Some(i) => {
                proof {
                    self.lemma_scope_of_entry(i as int);
                    self.lemma_identifiers();
                }
                let ghost entries = self.inner.spec_entries();
                let (scope, _) = self.inner.remove_at(i);
                proof {
                    let out = self.inner.spec_entries();
                    assert forall|a: int| 0 <= a < out.len() implies (#[trigger] out[a]).1.0
                        < self.counter by {
                        let a2 = if a < i { a } else { a + 1 };
                        assert(out[a] == entries[a2]);
                    }
                    assert forall|a: int, b: int| 0 <= a < b < out.len() implies (
                    #[trigger] out[a]).1.0 != (#[trigger] out[b]).1.0 by {
                        let a2 = if a < i { a } else { a + 1 };
                        let b2 = if b < i { b } else { b + 1 };
                        assert(out[a] == entries[a2] && out[b] == entries[b2]);
                    }
                    assert(old(self).holds(scope@, id));
                    assert forall|s: Seq<char>|
                        self.clients().contains_key(s) <==> old(self).clients().contains_key(s)
                            && !old(self).holds(s, id) by {
                        if old(self).clients().contains_key(s) && s != scope@ {
                            assert(old(self).clients()[s].0 != old(self).clients()[scope@].0);
                        }
                    }
                    if self.has_id(id) {
                        let s = choose|s: Seq<char>| self.holds(s, id);
                        assert(old(self).holds(s, id));
                    }
                    assert forall|x: usize| #[trigger] self.waiting@.contains(x) implies x
                        < self.counter && !self.has_id(x) by {
                        if self.has_id(x) {
                            let s = choose|s: Seq<char>| self.holds(s, x);
                            assert(old(self).holds(s, x));
                        }
                    }
                }
            },
            None => {
                proof {
                    assert forall|s: Seq<char>|
                        self.clients().contains_key(s) <==> old(self).clients().contains_key(s)
                            && !old(self).holds(s, id) by {
                        if old(self).holds(s, id) {
                            assert(old(self).has_id(id));
                        }
                    }
                }
            },
        }
    }

    /// Hands out the next identifier, if one is left.
    fn next_id(&mut self) -> (step: Step)
        requires
            old(self).wf(),
        ensures
            final(self).wf(),
            final(self).clients() == old(self).clients(),
            old(self).issued() == usize::MAX ==> step == Step::Exhausted && final(self).issued()
                == old(self).issued() && final(self).handed_out() == old(self).handed_out(),
            old(self).issued() < usize::MAX ==> step == Step::Start(old(self).issued()) && final(self).issued() == old(self).issued() + 1 && final(self).handed_out() == old(self).handed_out().insert(old(self).issued()),
    {
        if self.counter == usize::MAX {
            Step::Exhausted
        } else {
            proof {
                self.lemma_identifiers();
            }
            let id = self.counter;
            self.counter = id + 1;
            self.waiting.insert(id);
            proof {
                assert forall|x: usize| #[trigger] self.waiting@.contains(x) implies x
                    < self.counter && !self.has_id(x) by {
                    if self.has_id(x) {
                        let scope = choose|scope: Seq<char>| self.holds(scope, x);
                        assert(old(self).holds(scope, x));
                    }
                }
            }
            Step::Start(id)
        }
    }

    /// Asks for the client of a language.
    ///
    /// A language without a server has none. Where a client runs for the
    /// scope of the language, it is the one. Otherwise one is to be
    /// started, under an identifier that no client had before.
    pub fn get(&mut self, language_config: &LanguageConfiguration) -> (step: Step)
        requires
            old(self).wf(),
        ensures
            final(self).wf(),
            final(self).clients() == old(self).clients(),
            step == (if language_config.language_server is None {
                Step::Absent
            } else if old(self).clients().contains_key(language_config.scope@) {
                Step::Running(old(self).clients()[language_config.scope@].0)
            } else if old(self).issued() == usize::MAX {
                Step::Exhausted
            } else {
                Step::Start(old(self).issued())
            }),
            final(self).issued() == (if step is Start {
                old(self).issued() + 1
            } else {
                old(self).issued() as int
            }),
            final(self).handed_out() == (if step is Start {
                old(self).handed_out().insert(old(self).issued())
            } else {
                old(self).handed_out()
            }),
            step matches Step::Start(id) ==> !old(self).has_id(id) && !old(self).handed_out().contains(id),
    {
        proof {
            self.lemma_identifiers();
        }
        if language_config.language_server.is_none() {
            return Step::Absent;
        }
        match self.inner.get(&language_config.scope) {
            Some(entry) => Step::Running(entry.0),
            None => self.next_id(),
        }
    }

    /// Asks for a new client in place of the one that runs for a language.
    ///
    /// Where the language has no server, or no client runs for its scope,
    /// there is nothing to do. Otherwise a client is to be started, under
    /// an identifier that no client had before; the one that runs stays
    /// until the new one is handed to `insert`.
    pub fn restart(&mut self, language_config: &LanguageConfiguration) -> (step: Step)
        requires
            old(self).wf(),
        ensures
            final(self).wf(),
            final(self).clients() == old(self).clients(),
            step == (if language_config.language_server is None || !old(self).clients().contains_key(language_config.scope@) {
                Step::Absent
            } else if old(self).issued() == usize::MAX {
                Step::Exhausted
            } else {
                Step::Start(old(self).issued())
            }),
            final(self).issued() == (if step is Start {
                old(self).issued() + 1
            } else {
                old(self).issued() as int
            }),
            final(self).handed_out() == (if step is Start {
                old(self).handed_out().insert(old(self).issued())
            } else {
                old(self).handed_out()
            }),
            step matches Step::Start(id) ==> !old(self).has_id(id) && !old(self).handed_out().contains(id),
    {
        proof {
            self.lemma_identifiers();
        }
        if language_config.language_server.is_none() {
            return Step::Absent;
        }
        if self.inner.contains_key(&language_config.scope) {
            self.next_id()
        } else {
            Step::Absent
        }
    }

    /// Takes in a client that was started under an identifier that `get`
    /// or `restart` handed out for it, as the client of `scope`.
    ///
    /// The result is the handle of the client that ran for the scope
    /// before, which is to be shut down. An identifier is good for one
    /// client: a client under an identifier that was not handed out, or
    /// under which a client was taken in before, is handed back.
    pub fn insert(&mut self, scope: String, id: usize, client: C) -> (r: Result<Option<C>, C>)
        requires
            old(self).wf(),
        ensures
            final(self).wf(),
            final(self).issued() == old(self).issued(),
            r is Ok <==> old(self).handed_out().contains(id),
            r matches Err(c) ==> c == client && final(self).clients() == old(self).clients()
                && final(self).handed_out() == old(self).handed_out(),
            r matches Ok(was) ==> {
                &&& final(self).clients() == old(self).clients().insert(scope@, (id, client))
                &&& final(self).handed_out() == old(self).handed_out().remove(id)
                &&& final(self).holds(scope@, id)
                &&& was is Some <==> old(self).clients().contains_key(scope@)
                &&& was matches Some(c) ==> c == old(self).clients()[scope@].1
            },
    {
        if !self.waiting.remove(&id) {
            proof {
                assert(self.waiting@ =~= old(self).waiting@);
                assert forall|x: usize| #[trigger] self.waiting@.contains(x) implies x
                    < self.counter && !self.has_id(x) by {
                    if self.has_id(x) {
                        let s = choose|s: Seq<char>| self.holds(s, x);
                        assert(old(self).holds(s, x));
                    }
                }
            }
            return Err(client);
        }
        proof {
            assert(!old(self).has_id(id));
            assert(id < self.counter);
        }
        let ghost entries = self.inner.spec_entries();
        proof {
            self.inner.lemma_view();
            lemma_entries_map_contains(entries, scope@);
        }
        let was = self.inner.insert(scope, (id, client));
        proof {
            self.inner.lemma_view();
            let out = self.inner.spec_entries();
            // every entry now is the new one or one of before
            assert forall|a: int| 0 <= a < out.len() implies (#[trigger] out[a]).1.0 < self.counter
                && (out[a].1.0 == id ==> out[a].0@ == scope@) by {
                lemma_entries_map_value(out, a);
                let s = out[a].0@;
                if s != scope@ {
                    assert(old(self).clients().contains_key(s));
                    let b = old(self).lemma_entry_of_scope(s);
                    assert(old(self).holds(s, entries[b].1.0));
                }
            }
            assert forall|a: int, b: int| 0 <= a < b < out.len() implies (#[trigger] out[a]).1.0 != (
            #[trigger] out[b]).1.0 by {
                lemma_entries_map_value(out, a);
                lemma_entries_map_value(out, b);
                let sa = out[a].0@;
                let sb = out[b].0@;
                assert(out[a].0.id() != out[b].0.id());
                if sa != scope@ && sb != scope@ {
                    let a2 = old(self).lemma_entry_of_scope(sa);
                    let b2 = old(self).lemma_entry_of_scope(sb);
                    assert(a2 != b2);
                } else if sa != scope@ {
                    assert(old(self).holds(sa, out[a].1.0));
                } else {
                    assert(old(self).holds(sb, out[b].1.0));
                }
            }
            assert forall|x: usize| #[trigger] self.waiting@.contains(x) implies x < self.counter
                && !self.has_id(x) by {
                assert(old(self).waiting@.contains(x) && x != id);
                if self.has_id(x) {
                    let s = choose|s: Seq<char>| self.holds(s, x);
                    assert(s != scope@);
                    assert(old(self).holds(s, x));
                }
            }
        }
        match was {
            Some(entry) => Ok(Some(entry.1)),
            None => Ok(None),
        }
    }

    /// Forgets the client of a language. The result is its handle, which
    /// is to be shut down.
    pub fn stop(&mut self, language_config: &LanguageConfiguration) -> (r: Option<C>)
        requires
            old(self).wf(),
        ensures
            final(self).wf(),
            final(self).issued() == old(self).issued(),
            final(self).handed_out() == old(self).handed_out(),
            final(self).clients() == old(self).clients().remove(language_config.scope@),
            r is Some <==> old(self).clients().contains_key(language_config.scope@),
            r matches Some(c) ==> c == old(self).clients()[language_config.scope@].1,
    {
        let ghost entries = self.inner.spec_entries();
        let was = self.inner.remove(&language_config.scope);
        proof {
            self.inner.lemma_view();
            let out = self.inner.spec_entries();
            assert forall|a: int| 0 <= a < out.len() implies (#[trigger] out[a]).1.0
                < self.counter by {
                lemma_entries_map_value(out, a);
                let b = old(self).lemma_entry_of_scope(out[a].0@);
            }
            assert forall|a: int, b: int| 0 <= a < b < out.len() implies (#[trigger] out[a]).1.0 != (
            #[trigger] out[b]).1.0 by {
                lemma_entries_map_value(out, a);
                lemma_entries_map_value(out, b);
                assert(out[a].0.id() != out[b].0.id());
                let a2 = old(self).lemma_entry_of_scope(out[a].0@);
                let b2 = old(self).lemma_entry_of_scope(out[b].0@);
                assert(a2 != b2);
            }
            assert forall|x: usize| #[trigger] self.waiting@.contains(x) implies x < self.counter
                && !self.has_id(x) by {
                if self.has_id(x) {
                    let s = choose|s: Seq<char>| self.holds(s, x);
                    assert(old(self).holds(s, x));
                }
            }
        }
        match was {
            Some(entry) => Some(entry.1),
            None => None,
        }
    }

    /// Every scope with a client stands once among the scopes, and no
    /// other does: there are as many as there are clients.
    pub proof fn lemma_scopes(&self)
        requires
            self.wf(),
        ensures
            self.scopes().no_duplicates(),
            self.scopes().to_set() == self.clients().dom(),
            self.scopes().len() == self.clients().dom().len(),
    {
        self.inner.lemma_view();
        let entries = self.inner.spec_entries();
        let scopes = self.scopes();
        assert forall|i: int, j: int|
            0 <= i < scopes.len() && 0 <= j < scopes.len() && i != j implies scopes[i]
            != scopes[j] by {
            if i < j {
                assert(entries[i].0.id() != entries[j].0.id());
            } else {
                assert(entries[j].0.id() != entries[i].0.id());
            }
        }
        assert forall|scope: Seq<char>|
            scopes.to_set().contains(scope) <==> self.clients().dom().contains(scope) by {
            lemma_entries_map_contains(entries, scope);
            if scopes.to_set().contains(scope) {
                let i = choose|i: int| 0 <= i < scopes.len() && scopes[i] == scope;
                assert(entries[i].0.id() == scope);
            }
            if self.clients().dom().contains(scope) {
                let i = choose|i: int| 0 <= i < entries.len() && (#[trigger] entries[i]).0.id() == scope;
                assert(scopes[i] == scope);
            }
        }
        assert(scopes.to_set() =~= self.clients().dom());
        scopes.unique_seq_to_set();
    }

    /// Notes that no client will be taken in under this identifier: the
    /// start that it was handed out for has failed. The result says
    /// whether the identifier waited for a client.
    pub fn discard(&mut self, id: usize) -> (was: bool)
        requires
            old(self).wf(),
        ensures
            final(self).wf(),
            final(self).issued() == old(self).issued(),
            final(self).clients() == old(self).clients(),
            was == old(self).handed_out().contains(id),
            final(self).handed_out() == old(self).handed_out().remove(id),
    {
        let was = self.waiting.remove(&id);
        proof {
            assert forall|x: usize| #[trigger] self.waiting@.contains(x) implies x < self.counter
                && !self.has_id(x) by {
                assert(old(self).waiting@.contains(x));
                if self.has_id(x) {
                    let s = choose|s: Seq<char>| self.holds(s, x);
                    assert(old(self).holds(s, x));
                }
            }
            assert(self.waiting@ =~= old(self).waiting@.remove(id));
        }
        was
    }

    /// The handles of all running clients, one for each scope that has a
    /// client.
    pub fn iter_clients(&self) -> (r: Vec<&C>)
        requires
            self.wf(),
        ensures
            r@.len() == self.scopes().len(),
            r@.len() == self.clients().dom().len(),
            forall|i: int|
                0 <= i < r@.len() ==> self.clients().contains_key(self.scopes()[i]) && *(
                #[trigger] r@[i]) == self.clients()[self.scopes()[i]].1,
            forall|i: int| 0 <= i < r@.len() ==> self.runs(*(#[trigger] r@[i])),
            forall|scope: Seq<char>| #[trigger]
                self.clients().contains_key(scope) ==> exists|i: int|
                    0 <= i < r@.len() && *(#[trigger] r@[i]) == self.clients()[scope].1,
    {
        let mut out: Vec<&C> = Vec::new();
        let mut i: usize = 0;
        while i < self.inner.len()
            invariant
                i <= self.inner.spec_entries().len(),
                out@.len() == i,
                forall|j: int| 0 <= j < i ==> *(#[trigger] out@[j]) == self.inner.spec_entries()[j].1.1,
            decreases self.inner.spec_entries().len() - i,
        {
            let (_, value) = self.inner.entry(i);
            out.push(&value.1);
            i += 1;
        }
        proof {
            self.lemma_scopes();
            assert forall|i: int| 0 <= i < out@.len() implies self.clients().contains_key(
                self.scopes()[i],
            ) && *(#[trigger] out@[i]) == self.clients()[self.scopes()[i]].1 by {
                self.lemma_scope_of_entry(i);
            }
            assert forall|i: int| 0 <= i < out@.len() implies self.runs(*(#[trigger] out@[i])) by {
                self.lemma_scope_of_entry(i);
                let scope = self.inner.spec_entries()[i].0@;
                assert(self.clients().contains_key(scope) && self.clients()[scope].1 == *out@[i]);
            }
            assert forall|scope: Seq<char>| #[trigger]
                self.clients().contains_key(scope) implies exists|i: int|
                0 <= i < out@.len() && *(#[trigger] out@[i]) == self.clients()[scope].1 by {
                let i = self.lemma_entry_of_scope(scope);
                assert(*out@[i] == self.clients()[scope].1);
            }
        }
        out
    }
}

} // verus!
