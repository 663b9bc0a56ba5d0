//! The round state machine: the low-level logic of each agreement round.

use vstd::prelude::*;

use crate::types::{ConsensusParams, RoundState, Step};
use crate::validator::ValidatorSet;

verus! {

/// The reserved failure path of a handler.  No handler of the current logic
/// ever produces it, and every handler contract says so.
#[derive(Debug)]
pub enum HandlerError {
    /// An unspecified handler failure.
    Failed,
}

/// The node's agreement data: its identity, the validator set, the current
/// round state and the configuration.
#[derive(Debug)]
pub struct ConsensusCore {
    /// The id of the local node.
    pub node_id: String,
    /// The address on which this node listens for inbound connections.
    pub listen_addr: String,
    /// The set of validators participating in agreement.
    pub validators: ValidatorSet,
    /// The current round state.
    pub round_state: RoundState,
    /// Configuration parameters; inert in the current logic.
    pub params: ConsensusParams,
}

/// Everything except the round state is the same in `pre` and `post`.
pub open spec fn same_but_round_state(pre: ConsensusCore, post: ConsensusCore) -> bool {
    &&& post.node_id == pre.node_id
    &&& post.listen_addr == pre.listen_addr
    &&& post.validators == pre.validators
    &&& post.params == pre.params
}

/// The effect of starting a new round on `block`: the round number grows by
/// one and every per-round field is reset, whatever it held before.
pub open spec fn new_round_started(pre: ConsensusCore, post: ConsensusCore, block: Seq<char>) -> bool {
    &&& same_but_round_state(pre, post)
    &&& post.round_state.round == pre.round_state.round + 1
    &&& post.round_state.step == Step::Propose
    &&& post.round_state.proposal matches Some(b) && b@ == block
    &&& post.round_state.locked_block_hash is None
    &&& post.round_state.prevotes@ == Map::<Seq<char>, Seq<char>>::empty()
    &&& post.round_state.precommits@ == Map::<Seq<char>, Seq<char>>::empty()
}

/// The effect of a proposal for `round` carrying `block`: it is ignored when
/// it is stale (`round` below the current round) or when the node is not in
/// the `Propose` step; otherwise it replaces the stored proposal and nothing
/// else.
pub open spec fn proposal_applied(
    pre: ConsensusCore,
    post: ConsensusCore,
    round: u64,
    block: Seq<char>,
) -> bool {
    if round < pre.round_state.round || pre.round_state.step != Step::Propose {
        post == pre
    } else {
        &&& same_but_round_state(pre, post)
        &&& post.round_state.round == pre.round_state.round
        &&& post.round_state.step == pre.round_state.step
        &&& post.round_state.proposal matches Some(b) && b@ == block
        &&& post.round_state.locked_block_hash == pre.round_state.locked_block_hash
        &&& post.round_state.prevotes == pre.round_state.prevotes
        &&& post.round_state.precommits == pre.round_state.precommits
    }
}

/// The effect of a prevote: the voter's entry is overwritten with the new
/// block hash, whatever round the vote names, and nothing else changes.
pub open spec fn prevote_applied(
    pre: ConsensusCore,
    post: ConsensusCore,
    voter: Seq<char>,
    block_hash: Seq<char>,
) -> bool {
    &&& same_but_round_state(pre, post)
    &&& post.round_state.round == pre.round_state.round
    &&& post.round_state.step == pre.round_state.step
    &&& post.round_state.proposal == pre.round_state.proposal
    &&& post.round_state.locked_block_hash == pre.round_state.locked_block_hash
    &&& post.round_state.prevotes@ == pre.round_state.prevotes@.insert(voter, block_hash)
    &&& post.round_state.precommits == pre.round_state.precommits
}

/// The effect of a precommit: as for a prevote, into the precommit book.
pub open spec fn precommit_applied(
    pre: ConsensusCore,
    post: ConsensusCore,
    voter: Seq<char>,
    block_hash: Seq<char>,
) -> bool {
    &&& same_but_round_state(pre, post)
    &&& post.round_state.round == pre.round_state.round
    &&& post.round_state.step == pre.round_state.step
    &&& post.round_state.proposal == pre.round_state.proposal
    &&& post.round_state.locked_block_hash == pre.round_state.locked_block_hash
    &&& post.round_state.prevotes == pre.round_state.prevotes
    &&& post.round_state.precommits@ == pre.round_state.precommits@.insert(voter, block_hash)
}

/// Law: under any sequence of round starts, the round number grows by
/// exactly one per start and the step reads `Propose` immediately after
/// each, whatever block was proposed and whatever stood in the state
/// before.  Stated here for two consecutive starts; each single start is
/// pinned by [`new_round_started`].
pub proof fn lemma_round_progression(
    s0: ConsensusCore,
    s1: ConsensusCore,
    s2: ConsensusCore,
    b1: Seq<char>,
    b2: Seq<char>,
)
    requires
        new_round_started(s0, s1, b1),
        new_round_started(s1, s2, b2),
    ensures
        s1.round_state.round == s0.round_state.round + 1,
        s2.round_state.round == s0.round_state.round + 2,
        s1.round_state.step == Step::Propose,
        s2.round_state.step == Step::Propose,
        s2.round_state.proposal matches Some(b) && b@ == b2,
        s2.round_state.prevotes@ == Map::<Seq<char>, Seq<char>>::empty(),
        s2.round_state.precommits@ == Map::<Seq<char>, Seq<char>>::empty(),
{
}

/// Law: repeated votes from one voter overwrite rather than accumulate.
/// Recording `h1` and then `h2` for the same voter leaves the book exactly
/// as recording `h2` alone would: one entry for that voter, the most
/// recent, and no growth from the repetition.
pub proof fn lemma_repeated_vote_overwrites(
    book: Map<Seq<char>, Seq<char>>,
    voter: Seq<char>,
    h1: Seq<char>,
    h2: Seq<char>,
)
    ensures
        book.insert(voter, h1).insert(voter, h2) == book.insert(voter, h2),
        book.insert(voter, h1).insert(voter, h2)[voter] == h2,
{
    assert(book.insert(voter, h1).insert(voter, h2) =~= book.insert(voter, h2));
}

impl ConsensusCore {
    /// Both vote books of the round state are well formed.
    pub open spec fn wf(&self) -> bool {
        self.round_state.wf()
    }

    /// Builds the node's agreement data: a validator set holding just the
    /// local node, the state of round zero, and default parameters.
    pub fn new(node_id: String, listen_addr: String) -> (r: Self)
        ensures
            r.node_id@ == node_id@,
            r.listen_addr@ == listen_addr@,
            r.validators.validators@.len() == 1,
            r.validators.validators@[0]@ == node_id@,
            r.round_state.round == 0,
            r.round_state.step == Step::Propose,
            r.round_state.proposal is None,
            r.round_state.locked_block_hash is None,
            r.round_state.prevotes@ == Map::<Seq<char>, Seq<char>>::empty(),
            r.round_state.precommits@ == Map::<Seq<char>, Seq<char>>::empty(),
            r.params.quorum_threshold_num == 67,
            r.params.quorum_threshold_den == 100,
            r.wf(),
    {
        let mut ids: Vec<String> = Vec::new();
        ids.push(node_id.clone());
        let validators = ValidatorSet::new_simple(ids);
        let round_state = RoundState::default();
        let params = ConsensusParams::default();
        Self { node_id, listen_addr, validators, round_state, params }
    }

    /// Starts a new round with `block` as its proposal.  This is
    /// unconditional: it overwrites any round in progress regardless of its
    /// step, resets the step to `Propose` and clears the lock and both vote
    /// books.  The round counter must still have room to grow: that is the
    /// one machine limit on an otherwise unbounded sequence of rounds.
    pub fn start_new_round(&mut self, block: String)
        requires
            old(self).wf(),
            old(self).round_state.round < u64::MAX,
        ensures
            new_round_started(*old(self), *final(self), block@),
            final(self).wf(),
    {
        let new_round = self.round_state.round + 1;
        self.round_state.round = new_round;
        self.round_state.step = Step::Propose;
        self.round_state.proposal = Some(block);
        self.round_state.locked_block_hash = None;
        self.round_state.prevotes.clear();
        self.round_state.precommits.clear();
    }

    /// Handles a proposal received for `round` carrying `block`.  A stale
    /// proposal, or one arriving outside the `Propose` step, leaves the state
    /// unchanged; otherwise the stored proposal is replaced.  The proposer's
    /// identity is not verified.
    pub fn on_proposal(&mut self, proposer_id: String, round: u64, block: String) -> (r: Result<
        (),
        HandlerError,
    >)
        requires
            old(self).wf(),
        ensures
            r is Ok,
            proposal_applied(*old(self), *final(self), round, block@),
            final(self).wf(),
    {
        if round < self.round_state.round {
            return Ok(());
        }
        if !matches!(self.round_state.step, Step::Propose) {
            return Ok(());
        }
        self.round_state.proposal = Some(block);
        Ok(())
    }

    /// Records a prevote: the voter's entry is overwritten with `block_hash`.
    /// The `round` argument is accepted without being checked against the
    /// current round, so votes from any round land in the current book.
    pub fn on_prevote(&mut self, voter_id: String, round: u64, block_hash: String) -> (r: Result<
        (),
        HandlerError,
    >)
        requires
            old(self).wf(),
        ensures
            r is Ok,
            prevote_applied(*old(self), *final(self), voter_id@, block_hash@),
            final(self).wf(),
    {
        let _ = round;
        self.round_state.prevotes.insert(voter_id, block_hash);
        Ok(())
    }

    /// Records a precommit, exactly as [`Self::on_prevote`] records a
    /// prevote.
    pub fn on_precommit(&mut self, voter_id: String, round: u64, block_hash: String) -> (r: Result<
        (),
        HandlerError,
    >)
        requires
            old(self).wf(),
        ensures
            r is Ok,
            precommit_applied(*old(self), *final(self), voter_id@, block_hash@),
            final(self).wf(),
    {
        let _ = round;
        self.round_state.precommits.insert(voter_id, block_hash);
        Ok(())
    }

    /// Observes a commit announcement.  The event mutates nothing: no
    /// finalization is performed by the current logic.
    pub fn on_commit(&mut self, block_hash: String, round: u64) -> (r: Result<(), HandlerError>)
        requires
            old(self).wf(),
        ensures
            r is Ok,
            *final(self) == *old(self),
            final(self).wf(),
    {
        let _ = block_hash;
        let _ = round;
        Ok(())
    }
}

} // verus!
