//! The work that servers report to be in progress.

use crate::lsp::{NumberOrText, ProgressToken};
use crate::table::{Key, Table};
use std::collections::HashMap;
use vstd::prelude::*;

verus! {

#[verifier::external_type_specification]
#[verifier::external_body]
pub struct ExWorkDoneProgress(lsp_types::WorkDoneProgress);

/// How far a piece of work has come: the server has asked for a token,
/// or it has reported on the work at least once.
#[derive(Debug)]
pub enum ProgressStatus {
    Created,
    Started(lsp_types::WorkDoneProgress),
}

impl ProgressStatus {
    /// The last report, if there was one.
    pub fn progress(&self) -> (r: Option<&lsp_types::WorkDoneProgress>)
        ensures
            match self {
                ProgressStatus::Created => r is None,
                ProgressStatus::Started(progress) => r == Some(progress),
            },
    {
        match self {
            ProgressStatus::Created => None,
            ProgressStatus::Started(progress) => Some(progress),
        }
    }
}

/// The work in progress of every server, by the identifier of the server
/// and the token of the work.
#[derive(Debug)]
pub struct LspProgressMap(HashMap<usize, Table<ProgressToken, ProgressStatus>>);

impl View for LspProgressMap {
    type V = Map<usize, Map<NumberOrText, ProgressStatus>>;

    closed spec fn view(&self) -> Self::V {
        Map::new(|id: usize| self.0@.contains_key(id), |id: usize| self.0@[id]@)
    }
}

impl Default for LspProgressMap {
    fn default() -> (m: Self)
        ensures
            m.wf(),
            m@ == Map::<usize, Map<NumberOrText, ProgressStatus>>::empty(),
    {
        LspProgressMap::new()
    }
}

impl LspProgressMap {
    /// The tables of the map are as they should be.
    pub closed spec fn wf(&self) -> bool {
        forall|id: usize| self.0@.contains_key(id) ==> (#[trigger] self.0@[id]).wf()
    }

    /// The status of a piece of work, if the map has it.
    pub open spec fn status(&self, id: usize, token: NumberOrText) -> Option<ProgressStatus> {
        if self@.contains_key(id) && self@[id].contains_key(token) {
            Some(self@[id][token])
        } else {
            None
        }
    }

    /// The map with a status for one piece of work.
    pub open spec fn with_status(&self, id: usize, token: NumberOrText, status: ProgressStatus)
        -> Map<usize, Map<NumberOrText, ProgressStatus>> {
        let tokens = if self@.contains_key(id) {
            self@[id]
        } else {
            Map::empty()
        };
        self@.insert(id, tokens.insert(token, status))
    }

    pub fn new() -> (m: LspProgressMap)
        ensures
            m.wf(),
            m@ == Map::<usize, Map<NumberOrText, ProgressStatus>>::empty(),
    {
        let m = LspProgressMap(HashMap::new());
        assert(m@ =~= Map::<usize, Map<NumberOrText, ProgressStatus>>::empty());
        m
    }

    /// All work of the server with this identifier, by its tokens.
    pub fn progress_map(&self, id: usize) -> (r: Option<&Table<ProgressToken, ProgressStatus>>)
        requires
            self.wf(),
        ensures
            r is Some <==> self@.contains_key(id),
            r matches Some(tokens) ==> tokens.wf() && tokens@ == self@[id],
    {
        self.0.get(&id)
    }

    /// Whether the server with this identifier has work in progress.
    pub fn is_progressing(&self, id: usize) -> (b: bool)
        requires
            self.wf(),
        ensures
            b == (self@.contains_key(id) && self@[id].dom() != Set::<NumberOrText>::empty()),
    {
        match self.0.get(&id) {
            Some(tokens) => !tokens.is_empty(),
            None => false,
        }
    }

    /// The status of the work that this server reports under this token.
    pub fn progress(&self, id: usize, token: &ProgressToken) -> (r: Option<&ProgressStatus>)
        requires
            self.wf(),
        ensures
            r is Some <==> self.status(id, token.id()) is Some,
            r matches Some(status) ==> Some(*status) == self.status(id, token.id()),
    {
        match self.0.get(&id) {
            Some(tokens) => tokens.get(token),
            None => None,
        }
    }

    /// Whether this server has work under this token, reported on or not.
    pub fn is_created(&self, id: usize, token: &ProgressToken) -> (b: bool)
        requires
            self.wf(),
        ensures
            b == self.status(id, token.id()) is Some,
    {
        match self.0.get(&id) {
            Some(tokens) => tokens.get(token).is_some(),
            None => false,
        }
    }

    fn set(&mut self, id: usize, token: ProgressToken, status: ProgressStatus) -> (was: Option<
        ProgressStatus,
    >)
        requires
            old(self).wf(),
        ensures
            final(self).wf(),
            final(self)@ == old(self).with_status(id, token.id(), status),
            was == old(self).status(id, token.id()),
    {
        let mut tokens = match self.0.remove(&id) {
            Some(tokens) => tokens,
            None => Table::new(),
        };
        let was = tokens.insert(token, status);
        self.0.insert(id, tokens);
        proof {
            assert(self@ =~= old(self).with_status(id, token.id(), status));
        }
        was
    }

    /// Notes that the server has asked for this token: the work under it
    /// is created, whatever was known of it.
    pub fn create(&mut self, id: usize, token: ProgressToken)
        requires
            old(self).wf(),
        ensures
            final(self).wf(),
            final(self)@ == old(self).with_status(id, token.id(), ProgressStatus::Created),
    {
        self.set(id, token, ProgressStatus::Created);
    }

    /// Ends the work under this token: the map forgets it. The result is
    /// the status that it had.
    pub fn end_progress(&mut self, id: usize, token: &ProgressToken) -> (was: Option<
        ProgressStatus,
    >)
        requires
            old(self).wf(),
        ensures
            final(self).wf(),
            was == old(self).status(id, token.id()),
            final(self)@ == (if old(self)@.contains_key(id) {
                old(self)@.insert(id, old(self)@[id].remove(token.id()))
            } else {
                old(self)@
            }),
    {
        match self.0.remove(&id) {
            Some(tokens) => {
                let mut tokens = tokens;
                let was = tokens.remove(token);
                self.0.insert(id, tokens);
                proof {
                    assert(self@ =~= old(self)@.insert(id, old(self)@[id].remove(token.id())));
                }
                was
            },
            None => {
                proof {
                    assert(self@ =~= old(self)@);
                }
                None
            },
        }
    }

    /// Notes a report of the server on the work under this token: the
    /// work is started, with this report as its last. The result is the
    /// status that it had.
    pub fn update(&mut self, id: usize, token: ProgressToken, status: lsp_types::WorkDoneProgress)
        -> (was: Option<ProgressStatus>)
        requires
            old(self).wf(),
        ensures
            final(self).wf(),
            final(self)@ == old(self).with_status(id, token.id(), ProgressStatus::Started(status)),
            was == old(self).status(id, token.id()),
    {
        self.set(id, token, ProgressStatus::Started(status))
    }
}

} // verus!
