//! Data carried by one agreement round.

use vstd::prelude::*;

use crate::strmap::StrMap;

verus! {

/// The phase of a round.  Running logic only ever enters `Propose`; the
/// other phases exist in the data model but no handler transitions to them.
#[derive(Debug, Clone, PartialEq, Eq, Structural)]
pub enum Step {
    /// A node proposes a new block.
    Propose,
    /// Nodes broadcast votes after receiving a proposal.
    Prevote,
    /// Nodes broadcast precommits once prevotes suffice.
    Precommit,
    /// The block is considered committed.
    Commit,
}

/// The bookkeeping of the current round: its number, phase, candidate block
/// and the votes received so far.
#[derive(Debug)]
pub struct RoundState {
    /// The round number; it never decreases over the node's lifetime.
    pub round: u64,
    /// The phase within the round.
    pub step: Step,
    /// The block currently accepted as this round's candidate.
    pub proposal: Option<String>,
    /// A lock on a block.  The field is carried but never set or read by any
    /// running logic.
    pub locked_block_hash: Option<String>,
    /// One recorded block hash per prevoting validator id, the most recent.
    pub prevotes: StrMap,
    /// One recorded block hash per precommitting validator id, the most recent.
    pub precommits: StrMap,
}

impl RoundState {
    /// Both vote books hold at most one entry per voter id.
    pub open spec fn wf(&self) -> bool {
        self.prevotes.wf() && self.precommits.wf()
    }

    /// Builds the state of round zero: phase `Propose`, no proposal, no lock
    /// and empty vote books.
    pub fn new() -> (r: Self)
        ensures
            r.round == 0,
            r.step == Step::Propose,
            r.proposal is None,
            r.locked_block_hash is None,
            r.prevotes@ == Map::<Seq<char>, Seq<char>>::empty(),
            r.precommits@ == Map::<Seq<char>, Seq<char>>::empty(),
            r.wf(),
    {
        Self {
            round: 0,
            step: Step::Propose,
            proposal: None,
            locked_block_hash: None,
            prevotes: StrMap::new(),
            precommits: StrMap::new(),
        }
    }
}

impl Default for RoundState {
    /// Same as [`RoundState::new`].
    fn default() -> (r: Self)
        ensures
            r.round == 0,
            r.step == Step::Propose,
            r.proposal is None,
            r.locked_block_hash is None,
            r.prevotes@ == Map::<Seq<char>, Seq<char>>::empty(),
            r.precommits@ == Map::<Seq<char>, Seq<char>>::empty(),
            r.wf(),
    {
        Self::new()
    }
}

/// Configuration of the agreement rules.  The threshold is a fraction in
/// (0, 1], stored as a ratio of two integers; no handler consults it.
#[derive(Debug)]
pub struct ConsensusParams {
    /// Numerator of the quorum fraction.
    pub quorum_threshold_num: u64,
    /// Denominator of the quorum fraction.
    pub quorum_threshold_den: u64,
}

impl ConsensusParams {
    /// The stored ratio is a fraction in (0, 1].
    pub open spec fn wf(&self) -> bool {
        1 <= self.quorum_threshold_num <= self.quorum_threshold_den
    }
}

impl Default for ConsensusParams {
    /// A quorum threshold of 67/100.
    fn default() -> (r: Self)
        ensures
            r.quorum_threshold_num == 67,
            r.quorum_threshold_den == 100,
            r.wf(),
    {
        Self { quorum_threshold_num: 67, quorum_threshold_den: 100 }
    }
}

} // verus!
