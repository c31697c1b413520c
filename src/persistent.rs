//! What is saved per chat, and how a saved chat comes back after a restart.
//! Files and their JSON form are the application's business.
use vstd::prelude::*;
use crate::assoc::assoc_map;
use crate::strategy::Strategy;
use crate::trader::{Key, Request as TraderRequest};

verus! {

/// A chat's token and its strategies by name.
pub struct SavedState<S> {
    pub token: String,
    pub strategies: Vec<(Key, S)>,
}

impl<S: Strategy> SavedState<S> {
    pub fn new(token: String, strategies: Vec<(Key, S)>) -> (r: SavedState<S>)
        ensures
            r.token == token,
            r.strategies == strategies,
    {
        SavedState { token, strategies }
    }

    pub fn token(&self) -> (r: String)
        ensures
            r == self.token,
    {
        self.token.clone()
    }

    pub fn strategies(&self) -> (r: &Vec<(Key, S)>)
        ensures
            r == &self.strategies,
    {
        &self.strategies
    }

    /// The commands that bring a restarted trader back to the saved
    /// strategies: one `AddStrategy` per saved strategy, in order.
    pub fn replay(&self) -> (r: Vec<TraderRequest<S>>)
        ensures
            r@.len() == self.strategies@.len(),
            forall|i: int| 0 <= i < r@.len() ==> #[trigger] r@[i] == TraderRequest::AddStrategy(
                self.strategies@[i].0,
                self.strategies@[i].1,
            ),
    {
        let mut out: Vec<TraderRequest<S>> = Vec::new();
        let mut i: usize = 0;
        while i < self.strategies.len()
            invariant
                0 <= i <= self.strategies@.len(),
                out@.len() == i,
                forall|j: int| 0 <= j < i ==> #[trigger] out@[j] == TraderRequest::AddStrategy(
                    self.strategies@[j].0,
                    self.strategies@[j].1,
                ),
            decreases self.strategies@.len() - i,
        {
            out.push(TraderRequest::AddStrategy(self.strategies[i].0.clone(), self.strategies[i].1.duplicate()));
            i += 1;
        }
        out
    }
}

/// The strategies a trader holds after a run of `AddStrategy` commands,
/// each of which sets one strategy by name (see `Trader::process_request`).
pub open spec fn added<S>(m: Map<Seq<char>, S>, reqs: Seq<TraderRequest<S>>) -> Map<Seq<char>, S>
    decreases reqs.len(),
{
    if reqs.len() == 0 {
        m
    } else {
        let prev = added(m, reqs.drop_last());
        match reqs.last() {
            TraderRequest::AddStrategy(k, s) => prev.insert(k@, s),
            _ => prev,
        }
    }
}

/// After a restart, replaying a saved chat into a trader without
/// strategies gives it exactly the saved strategies.
pub proof fn lemma_restart_restores<S>(saved: Seq<(Key, S)>, reqs: Seq<TraderRequest<S>>)
    requires
        reqs.len() == saved.len(),
        forall|i: int| 0 <= i < reqs.len() ==> #[trigger] reqs[i] == TraderRequest::AddStrategy(saved[i].0, saved[i].1),
    ensures
        added(Map::empty(), reqs) == assoc_map(saved),
    decreases reqs.len(),
{
    if reqs.len() > 0 {
        let n = reqs.len() - 1;
        assert forall|i: int| 0 <= i < reqs.drop_last().len() implies #[trigger] reqs.drop_last()[i]
            == TraderRequest::AddStrategy(saved.drop_last()[i].0, saved.drop_last()[i].1) by {
            assert(reqs[i] == TraderRequest::AddStrategy(saved[i].0, saved[i].1));
        }
        lemma_restart_restores(saved.drop_last(), reqs.drop_last());
        assert(reqs[n] == TraderRequest::AddStrategy(saved[n].0, saved[n].1));
    }
}

/// Why saving or restoring failed.
pub struct SaveError {
    pub msg: String,
}

impl SaveError {
    pub fn new(msg: String) -> (r: SaveError)
        ensures
            r.msg == msg,
    {
        SaveError { msg }
    }
}

/// A request to the cache of saved chats.
pub enum Request<S> {
    Get,
    Update(i64, SavedState<S>),
}

/// The cache's answer: every saved chat by id.
pub enum Response<S> {
    Saved(Vec<(i64, SavedState<S>)>),
}

} // verus!
