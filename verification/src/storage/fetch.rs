//! Fetching a chunk: its owners are asked one after the other, until one of them sends it.

use vstd::prelude::*;

use crate::node::addr::SocketAddr;
use crate::node::identity::NodeId;
use crate::node::peer::PeerInfo;
use crate::storage::chunk_store::{has_prefix_text, ChunkStore};
use crate::storage::error::StorageError;
use crate::storage::events::ChunkEvent;
use crate::storage::manager::{
    judge_fetch, judged, law_only_absent_owners_are_passed_over, next_owner, no_owner_left,
    peer_of, FetchVerdict,
};

verus! {

/// What an owner who is asked for a chunk answers.
pub enum Answer {
    /// The chunk.
    Good(Seq<u8>),
    /// Something that is not what the hash says.
    Bad,
    /// Nothing that can be used.
    Lost,
}

/// The answer that an attempt to fetch a chunk has got.
pub open spec fn answer_of(got: Result<Vec<u8>, StorageError>) -> Answer {
    match got {
        Ok(d) => Answer::Good(d@),
        Err(StorageError::IntegrityFailure { .. }) => Answer::Bad,
        Err(_) => Answer::Lost,
    }
}

/// What comes of asking owners one after the other.
#[verifier::ext_equal]
pub struct FetchRun {
    /// What is told about them.
    pub events: Seq<ChunkEvent>,
    /// Who has sent the chunk, and the chunk.
    pub served: Option<(int, Seq<u8>)>,
}

/// Whether an owner is among the active peers.
pub open spec fn reachable(owners: Seq<NodeId>, peers: Seq<PeerInfo>, i: int) -> bool {
    peer_of(peers, owners[i]@) is Some
}

/// What comes of asking the owners from the one numbered `from` on, if each would give the
/// answer with its number. One that is not reachable is passed over; one that sends
/// something else is told on; the first that sends the chunk ends the run.
pub open spec fn fetch_run(
    owners: Seq<NodeId>,
    peers: Seq<PeerInfo>,
    answers: Seq<Answer>,
    from: int,
) -> FetchRun
    decreases owners.len() - from,
{
    if from >= owners.len() {
        FetchRun { events: seq![], served: None }
    } else {
        let rest = fetch_run(owners, peers, answers, from + 1);
        if !reachable(owners, peers, from) {
            rest
        } else {
            match answers[from] {
                Answer::Good(d) => FetchRun {
                    events: seq![
                        ChunkEvent::Valid { peer: owners[from], size_bytes: d.len() as i64 },
                    ],
                    served: Some((from, d)),
                },
                Answer::Bad => FetchRun {
                    events: seq![ChunkEvent::Bad { peer: owners[from] }] + rest.events,
                    ..rest
                },
                Answer::Lost => rest,
            }
        }
    }
}

/// One complaint about each owner, of those from one number up to another, who is
/// reachable and sends something else.
pub open spec fn complaints(
    owners: Seq<NodeId>,
    peers: Seq<PeerInfo>,
    answers: Seq<Answer>,
    from: int,
    to: int,
) -> Seq<ChunkEvent>
    decreases to - from,
{
    if from >= to {
        seq![]
    } else {
        let rest = complaints(owners, peers, answers, from + 1, to);
        if reachable(owners, peers, from) && answers[from] is Bad {
            seq![ChunkEvent::Bad { peer: owners[from] }] + rest
        } else {
            rest
        }
    }
}

/// A chunk that is being fetched.
pub struct ChunkFetch {
    hash: String,
    chunk_index: i64,
    owners: Vec<NodeId>,
    peers: Vec<PeerInfo>,
    position: usize,
}

/// The state of a fetch.
#[verifier::ext_equal]
pub struct FetchView {
    pub hash: Seq<char>,
    pub chunk_index: i64,
    pub owners: Seq<NodeId>,
    pub peers: Seq<PeerInfo>,
    /// The owner who is asked next.
    pub position: int,
}

impl View for ChunkFetch {
    type V = FetchView;

    closed spec fn view(&self) -> FetchView {
        FetchView {
            hash: self.hash@,
            chunk_index: self.chunk_index,
            owners: self.owners@,
            peers: self.peers@,
            position: self.position as int,
        }
    }
}

impl FetchView {
    /// What will come of the fetch, if each owner would give the answer with its number.
    pub open spec fn run(self, answers: Seq<Answer>) -> FetchRun {
        fetch_run(self.owners, self.peers, answers, self.position)
    }

    /// Whether there is an owner to ask who is reachable.
    pub open spec fn asking(self) -> bool {
        0 <= self.position < self.owners.len() && reachable(self.owners, self.peers, self.position)
    }
}

/// The next thing to do to fetch a chunk.
#[derive(Debug, PartialEq, Eq)]
pub enum FetchStep {
    /// Ask the owner, who listens at the address.
    Ask { owner: NodeId, addr: SocketAddr },
    /// No owner is left to ask.
    GiveUp(StorageError),
}

/// Owners who are not reachable do not matter.
proof fn lemma_passed_over(
    owners: Seq<NodeId>,
    peers: Seq<PeerInfo>,
    answers: Seq<Answer>,
    from: int,
    to: int,
)
    requires
        from <= to <= owners.len(),
        forall|j: int| from <= j < to ==> !(#[trigger] reachable(owners, peers, j)),
    ensures
        fetch_run(owners, peers, answers, from) == fetch_run(owners, peers, answers, to),
    decreases to - from,
{
    if from < to {
        assert(!reachable(owners, peers, from));
        lemma_passed_over(owners, peers, answers, from + 1, to);
    }
}

impl ChunkFetch {
    /// The fetch of a chunk from its owners, of whom the active peers can be reached.
    pub fn new(hash: String, chunk_index: i64, owners: Vec<NodeId>, peers: Vec<PeerInfo>) -> (r:
        ChunkFetch)
        ensures
            r@ == (FetchView {
                hash: hash@,
                chunk_index,
                owners: owners@,
                peers: peers@,
                position: 0,
            }),
    {
        ChunkFetch { hash, chunk_index, owners, peers, position: 0 }
    }

    /// The next thing to do: the first owner who is left and reachable is asked.
    pub fn next(&mut self) -> (r: FetchStep)
        ensures
            final(self)@ == (FetchView { position: final(self)@.position, ..old(self)@ }),
            forall|answers: Seq<Answer>| #[trigger]
                final(self)@.run(answers) == old(self)@.run(answers),
            match r {
                FetchStep::Ask { owner, addr } => {
                    &&& final(self)@.asking()
                    &&& old(self)@.position <= final(self)@.position
                    &&& owner == old(self)@.owners[final(self)@.position]
                    &&& peer_of(old(self)@.peers, owner@) == Some(addr)
                    &&& forall|j: int|
                        old(self)@.position <= j < final(self)@.position ==> !(
                        #[trigger] reachable(old(self)@.owners, old(self)@.peers, j))
                },
                FetchStep::GiveUp(e) => {
                    &&& e matches StorageError::NoPeersForChunk(h) && h@ == old(self)@.hash
                    &&& forall|j: int|
                        old(self)@.position <= j < old(self)@.owners.len() ==> !(
                        #[trigger] reachable(old(self)@.owners, old(self)@.peers, j))
                    &&& forall|answers: Seq<Answer>|
                        (#[trigger] final(self)@.run(answers)).served is None
                },
            },
    {
        let ghost v = self@;
        match next_owner(&self.owners, &self.peers, self.position) {
            Some((i, addr)) => {
                let owner: NodeId = self.owners[i].clone();
                self.position = i;
                proof {
                    assert forall|j: int| v.position <= j < i implies !(#[trigger] reachable(
                        v.owners,
                        v.peers,
                        j,
                    )) by {
                        assert(peer_of(v.peers, v.owners[j]@) is None);
                    }
                    assert forall|answers: Seq<Answer>| #[trigger]
                        self@.run(answers) == v.run(answers) by {
                        lemma_passed_over(v.owners, v.peers, answers, v.position, i as int);
                    }
                }
                FetchStep::Ask { owner, addr }
            },
            None => {
                proof {
                    assert forall|j: int| v.position <= j < v.owners.len() implies !(
                    #[trigger] reachable(v.owners, v.peers, j)) by {
                        assert(peer_of(v.peers, v.owners[j]@) is None);
                    }
                    assert forall|answers: Seq<Answer>|
                        (#[trigger] self@.run(answers)).served is None by {
                        if v.position < v.owners.len() {
                            lemma_passed_over(
                                v.owners,
                                v.peers,
                                answers,
                                v.position,
                                v.owners.len() as int,
                            );
                        }
                    }
                }
                FetchStep::GiveUp(no_owner_left(self.hash.as_str()))
            },
        }
    }

    /// Takes the answer of the owner who was asked. What follows from it is the next part
    /// of the run.
    pub fn take(&mut self, store: &ChunkStore, got: &Result<Vec<u8>, StorageError>) -> (r:
        FetchVerdict)
        requires
            old(self)@.asking(),
            has_prefix_text(old(self)@.hash),
            *got matches Ok(d) ==> d@.len() <= i64::MAX,
        ensures
            judged(
                r,
                old(self)@.hash,
                old(self)@.chunk_index,
                old(self)@.owners[old(self)@.position],
                *store,
                *got,
            ),
            final(self)@ == (FetchView { position: old(self)@.position + 1, ..old(self)@ }),
            forall|answers: Seq<Answer>|
                answers[old(self)@.position] == answer_of(*got) ==> (#[trigger] old(self)@.run(
                    answers,
                )) == (match r {
                    FetchVerdict::Keep { record: _, event } => FetchRun {
                        events: seq![event],
                        served: Some((old(self)@.position, answer_of(*got)->Good_0)),
                    },
                    FetchVerdict::AskNext { event: Some(e) } => FetchRun {
                        events: seq![e] + final(self)@.run(answers).events,
                        served: final(self)@.run(answers).served,
                    },
                    FetchVerdict::AskNext { event: None } => final(self)@.run(answers),
                }),
    {
        let r: FetchVerdict = judge_fetch(
            self.hash.as_str(),
            self.chunk_index,
            &self.owners[self.position],
            store,
            got,
        );
        assert(self.position < self.owners.len());
        self.position = self.position + 1;
        r
    }
}

/// The whole run: the first owner who is reachable and sends the chunk serves it, and gets
/// credit for it; each one before who is reachable and sends something else is told on
/// once; nobody serves it just where none of them sends it.
pub proof fn law_first_good_owner_serves(
    owners: Seq<NodeId>,
    peers: Seq<PeerInfo>,
    answers: Seq<Answer>,
    from: int,
)
    requires
        0 <= from <= owners.len(),
    ensures
        ({
            let run = fetch_run(owners, peers, answers, from);
            match run.served {
                Some((i, d)) => {
                    &&& from <= i < owners.len()
                    &&& reachable(owners, peers, i)
                    &&& answers[i] == Answer::Good(d)
                    &&& forall|j: int|
                        from <= j < i && #[trigger] reachable(owners, peers, j)
                            ==> !(answers[j] is Good)
                    &&& run.events == complaints(owners, peers, answers, from, i).push(
                        ChunkEvent::Valid { peer: owners[i], size_bytes: d.len() as i64 },
                    )
                },
                None => {
                    &&& forall|j: int|
                        from <= j < owners.len() && #[trigger] reachable(owners, peers, j)
                            ==> !(answers[j] is Good)
                    &&& run.events == complaints(
                        owners,
                        peers,
                        answers,
                        from,
                        owners.len() as int,
                    )
                },
            }
        }),
    decreases owners.len() - from,
{
    if from < owners.len() {
        law_first_good_owner_serves(owners, peers, answers, from + 1);
        let run = fetch_run(owners, peers, answers, from);
        let to: int = match run.served {
            Some((i, _)) => i,
            None => owners.len() as int,
        };
        if reachable(owners, peers, from) && answers[from] is Bad {
            let bad = ChunkEvent::Bad { peer: owners[from] };
            let told = complaints(owners, peers, answers, from + 1, to);
            assert(complaints(owners, peers, answers, from, to) =~= seq![bad] + told);
            if let Some((i, d)) = run.served {
                let good = ChunkEvent::Valid { peer: owners[i], size_bytes: d.len() as i64 };
                assert(seq![bad] + told.push(good) =~= (seq![bad] + told).push(good));
            }
        } else if reachable(owners, peers, from) && answers[from] is Good {
            assert(complaints(owners, peers, answers, from, from) =~= seq![]);
        }
    }
}

/// An owner can be asked just where it has the name of one of the active peers.
pub proof fn law_active_owners_are_reachable(owners: Seq<NodeId>, peers: Seq<PeerInfo>, i: int)
    requires
        0 <= i < owners.len(),
    ensures
        reachable(owners, peers, i) <==> exists|p: int|
            0 <= p < peers.len() && (#[trigger] peers[p]).id@ == owners[i]@,
{
    law_only_absent_owners_are_passed_over(peers, owners[i]@);
}

/// Every owner who is active and sends something else is told on once, in order, and
/// nobody else is.
pub proof fn law_each_bad_owner_is_told_on_once(
    owners: Seq<NodeId>,
    peers: Seq<PeerInfo>,
    answers: Seq<Answer>,
    from: int,
    i: int,
    to: int,
)
    requires
        0 <= from <= i < to <= owners.len(),
    ensures
        complaints(owners, peers, answers, from, from) == Seq::<ChunkEvent>::empty(),
        complaints(owners, peers, answers, from, to) == complaints(
            owners,
            peers,
            answers,
            from,
            i,
        ) + (if answers[i] is Bad && exists|p: int|
            0 <= p < peers.len() && (#[trigger] peers[p]).id@ == owners[i]@ {
            seq![ChunkEvent::Bad { peer: owners[i] }]
        } else {
            seq![]
        }) + complaints(owners, peers, answers, i + 1, to),
    decreases i - from,
{
    if from == i {
        law_active_owners_are_reachable(owners, peers, i);
        assert(complaints(owners, peers, answers, from, from) =~= seq![]);
    } else {
        law_each_bad_owner_is_told_on_once(owners, peers, answers, from + 1, i, to);
        assert(complaints(owners, peers, answers, from, from) =~= seq![]);
    }
}

/// What an owner has sent counts as the chunk where it is there, as something else where
/// it is not what the hash says, and as nothing for any other failure.
pub proof fn law_answers_are_told_apart(got: Result<Vec<u8>, StorageError>)
    ensures
        got matches Ok(d) ==> answer_of(got) == Answer::Good(d@),
        answer_of(got) is Bad <==> got matches Err(StorageError::IntegrityFailure { .. }),
        answer_of(got) is Lost <==> (got matches Err(e) && !(e is IntegrityFailure)),
{
}

/// A fetch goes on with the owner at its position: that one is asked where it has the name of
/// an active peer.
pub proof fn law_fetch_goes_on_at_its_position(f: FetchView, answers: Seq<Answer>)
    ensures
        f.run(answers) == fetch_run(f.owners, f.peers, answers, f.position),
        f.asking() <==> 0 <= f.position < f.owners.len() && exists|p: int|
            0 <= p < f.peers.len() && (#[trigger] f.peers[p]).id@ == f.owners[f.position]@,
{
    if 0 <= f.position < f.owners.len() {
        law_active_owners_are_reachable(f.owners, f.peers, f.position);
    }
}

} // verus!
