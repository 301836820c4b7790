//! Reputations that nodes tell each other, signed by who tells them.

use vstd::prelude::*;

use crate::crypto::sign::SignedMessage;
use crate::db::chunks::string_texts;
use crate::node::identity::NodeId;
use crate::reputation::error::ReputationError;
use crate::util::text::same_text;

verus! {

/// How many entries count.
pub const MAX_SYNC_ENTRIES: usize = 200;

/// Whether an entry counts: nobody tells us about ourselves or about itself.
pub open spec fn counts(target: Seq<char>, me: Seq<char>, from: Seq<char>) -> bool {
    target != me && target != from
}

/// The places of the entries that count, among the first ones.
pub open spec fn counting(targets: Seq<Seq<char>>, me: Seq<char>, from: Seq<char>) -> Seq<int>
    decreases targets.len(),
{
    if targets.len() == 0 {
        seq![]
    } else {
        let before = counting(targets.drop_last(), me, from);
        if targets.len() <= MAX_SYNC_ENTRIES && counts(targets.last(), me, from) {
            before.push(targets.len() - 1)
        } else {
            before
        }
    }
}

/// Places as contracts speak of them.
pub open spec fn places(s: Seq<usize>) -> Seq<int> {
    s.map_values(|i: usize| i as int)
}

/// The places of the entries that count.
pub fn counting_entries(targets: &Vec<String>, my_id: &NodeId, from: &NodeId) -> (r: Vec<usize>)
    ensures
        places(r@) == counting(string_texts(targets@), my_id@, from@),
{
    let ghost all = string_texts(targets@);
    let mut out: Vec<usize> = Vec::new();
    let mut i: usize = 0;
    assert(all.take(0).len() == 0);
    assert(places(out@) =~= seq![]);
    while i < targets.len()
        invariant
            i <= targets@.len(),
            all == string_texts(targets@),
            places(out@) == counting(all.take(i as int), my_id@, from@),
        decreases targets@.len() - i,
    {
        let ghost before = places(out@);
        assert(all.take(i + 1).drop_last() =~= all.take(i as int));
        assert(all.take(i + 1).last() == targets@[i as int]@);
        if i < MAX_SYNC_ENTRIES && !same_text(targets[i].as_str(), my_id.as_str()) && !same_text(
            targets[i].as_str(),
            from.as_str(),
        ) {
            out.push(i);
            assert(places(out@) =~= before.push(i as int));
        }
        i = i + 1;
    }
    assert(all.take(i as int) =~= all);
    out
}

/// Whether entries that have come are taken, and which of them: they have to come from
/// their signer, the signature has to hold, and they have to be readable. The first of
/// these that fails is the error.
pub fn accept_sync(
    from: &NodeId,
    signed: &SignedMessage,
    parsed: Result<Vec<String>, String>,
    my_id: &NodeId,
) -> (r: Result<Vec<usize>, ReputationError>)
    ensures
        if signed.signer@ != from@ {
            r matches Err(ReputationError::SignerMismatch)
        } else {
            match (signed.verdict(), parsed) {
                (Err(f), _) => r matches Err(ReputationError::Crypto(e)) && e@ == f,
                (Ok(()), Err(m)) => r == Err::<Vec<usize>, ReputationError>(
                    ReputationError::Deserialize(m),
                ),
                (Ok(()), Ok(targets)) => r matches Ok(v) && places(v@) == counting(
                    string_texts(targets@),
                    my_id@,
                    from@,
                ),
            }
        },
{
    if !same_text(signed.signer.as_str(), from.as_str()) {
        return Err(ReputationError::SignerMismatch);
    }
    match signed.verify() {
        Err(e) => {
            return Err(ReputationError::Crypto(e));
        },
        Ok(()) => {},
    }
    match parsed {
        Err(m) => Err(ReputationError::Deserialize(m)),
        Ok(targets) => Ok(counting_entries(&targets, my_id, from)),
    }
}

/// How many of our own entries are sent: the first ones.
pub fn entries_to_send(known: usize) -> (r: usize)
    ensures
        r == (if known < MAX_SYNC_ENTRIES {
            known
        } else {
            MAX_SYNC_ENTRIES
        }),
{
    if known < MAX_SYNC_ENTRIES {
        known
    } else {
        MAX_SYNC_ENTRIES
    }
}

/// No entry that counts is about us or about its sender, none is beyond the first ones,
/// and every other one counts.
pub proof fn law_counting_entries(
    targets: Seq<Seq<char>>,
    me: Seq<char>,
    from: Seq<char>,
    i: int,
)
    requires
        0 <= i < targets.len(),
    ensures
        counting(targets, me, from).contains(i) <==> i < MAX_SYNC_ENTRIES && targets[i] != me
            && targets[i] != from,
    decreases targets.len(),
{
    let head = targets.drop_last();
    let before = counting(head, me, from);
    let all = counting(targets, me, from);
    lemma_places_in_range(head, me, from);
    if all.len() > before.len() {
        assert(all =~= before.push(targets.len() - 1));
        assert(all[before.len() as int] == targets.len() - 1);
    }
    if i < targets.len() - 1 {
        law_counting_entries(head, me, from, i);
        assert(head[i] == targets[i]);
        if before.contains(i) {
            let j: int = choose|j: int| 0 <= j < before.len() && before[j] == i;
            assert(all[j] == i);
        }
        if all.contains(i) {
            let j: int = choose|j: int| 0 <= j < all.len() && all[j] == i;
            if j < before.len() {
                assert(before[j] == i);
            }
        }
    } else {
        if all.contains(i) && all.len() == before.len() {
            let j: int = choose|j: int| 0 <= j < all.len() && all[j] == i;
            assert(before[j] == i);
        }
    }
}

/// The places are places of the list.
proof fn lemma_places_in_range(targets: Seq<Seq<char>>, me: Seq<char>, from: Seq<char>)
    ensures
        forall|j: int|
            0 <= j < counting(targets, me, from).len() ==> 0 <= #[trigger] counting(
                targets,
                me,
                from,
            )[j] < targets.len(),
    decreases targets.len(),
{
    if targets.len() > 0 {
        let before = counting(targets.drop_last(), me, from);
        lemma_places_in_range(targets.drop_last(), me, from);
        assert forall|j: int| 0 <= j < counting(targets, me, from).len() implies 0
            <= #[trigger] counting(targets, me, from)[j] < targets.len() by {
            if j < before.len() {
                assert(counting(targets, me, from)[j] == before[j]);
            }
        }
    }
}

/// The entries that count are those among the first two hundred that are neither about us nor
/// about their sender. Each counts once, in the order in which they came.
pub proof fn law_entries_that_count(
    targets: Seq<Seq<char>>,
    target: Seq<char>,
    me: Seq<char>,
    from: Seq<char>,
)
    ensures
        counting(seq![], me, from) == Seq::<int>::empty(),
        targets.len() < 200 && target != me && target != from ==> counting(
            targets.push(target),
            me,
            from,
        ) == counting(targets, me, from).push(targets.len() as int),
        targets.len() >= 200 || target == me || target == from ==> counting(
            targets.push(target),
            me,
            from,
        ) == counting(targets, me, from),
{
    assert(targets.push(target).drop_last() =~= targets);
}

/// Places are compared as numbers, in their order.
pub proof fn law_places_are_compared_whole(s: Seq<usize>, i: int)
    requires
        0 <= i < s.len(),
    ensures
        places(s).len() == s.len(),
        places(s)[i] == s[i],
{
}

} // verus!
