//! The showdown: who leads a round, given the rank of every hand.

use crate::deck::Hand;
use crate::player::Player;
use vstd::prelude::*;

verus! {

/// The strength of a hand: the greater number is the better hand, and equal
/// numbers tie.
#[derive(Clone, Copy, Debug, PartialEq, Eq, PartialOrd, Ord, Hash, Structural)]
pub struct HandRank(pub u32);

/// A player at the showdown, with the hand they hold and its rank.
#[derive(Debug)]
pub struct Contender {
    pub player: Player,
    pub hand: Hand,
    pub rank: HandRank,
}

impl Clone for Contender {
    fn clone(&self) -> (copy: Contender)
        ensures
            copy == *self,
    {
        Contender { player: self.player.clone(), hand: self.hand, rank: self.rank }
    }
}

/// How a round ended.
#[derive(Debug)]
pub enum Outcome {
    /// Nobody was dealt in.
    NoContest,
    /// One player holds the best hand alone.
    Win(Contender),
    /// Two or more players hold the best hand together, in the order of
    /// their seats.
    Push(Vec<Contender>),
}

/// Whether no contender holds a hand better than `rank`.
pub open spec fn unbeaten(contenders: Seq<Contender>, rank: HandRank) -> bool {
    forall|i: int| 0 <= i < contenders.len() ==> contenders[i].rank.0 <= rank.0
}

/// The contenders that no other contender beats, in the order of their
/// seats.
pub open spec fn leaders_of(contenders: Seq<Contender>) -> Seq<Contender> {
    contenders.filter(|c: Contender| unbeaten(contenders, c.rank))
}

/// The contenders that hold exactly `rank`, in the order of their seats.
pub open spec fn holders_of(contenders: Seq<Contender>, rank: HandRank) -> Seq<Contender> {
    contenders.filter(|c: Contender| c.rank == rank)
}

/// Two tests that agree on every entry of a sequence filter it alike.
proof fn lemma_filters_agree(
    contenders: Seq<Contender>,
    keep: spec_fn(Contender) -> bool,
    also: spec_fn(Contender) -> bool,
)
    requires
        forall|i: int| 0 <= i < contenders.len() ==> keep(contenders[i]) == also(contenders[i]),
    ensures
        contenders.filter(keep) == contenders.filter(also),
    decreases contenders.len(),
{
    reveal(Seq::filter);
    if contenders.len() > 0 {
        lemma_filters_agree(contenders.drop_last(), keep, also);
    }
}

/// Where one contender holds the best rank, the leaders are the holders of
/// that rank.
proof fn lemma_leaders_hold_best(contenders: Seq<Contender>, best: HandRank)
    requires
        unbeaten(contenders, best),
        exists|i: int| 0 <= i < contenders.len() && contenders[i].rank == best,
    ensures
        leaders_of(contenders) == holders_of(contenders, best),
{
    let witness = choose|i: int| 0 <= i < contenders.len() && contenders[i].rank == best;
    assert forall|i: int| 0 <= i < contenders.len() implies unbeaten(
        contenders,
        contenders[i].rank,
    ) == (contenders[i].rank == best) by {
        if unbeaten(contenders, contenders[i].rank) {
            assert(contenders[witness].rank.0 <= contenders[i].rank.0);
        }
    }
    lemma_filters_agree(
        contenders,
        |c: Contender| unbeaten(contenders, c.rank),
        |c: Contender| c.rank == best,
    );
}

/// Nobody holds a rank that beats every hand seen so far.
proof fn lemma_no_holder_above(contenders: Seq<Contender>, rank: HandRank)
    requires
        forall|i: int| 0 <= i < contenders.len() ==> contenders[i].rank.0 < rank.0,
    ensures
        holders_of(contenders, rank) == Seq::<Contender>::empty(),
    decreases contenders.len(),
{
    reveal(Seq::filter);
    if contenders.len() > 0 {
        lemma_no_holder_above(contenders.drop_last(), rank);
    }
}

/// A rank that nobody has beaten stays unbeaten when a contender comes who
/// does not beat it.
proof fn lemma_still_unbeaten(seen: Seq<Contender>, comer: Contender, rank: HandRank)
    requires
        unbeaten(seen, rank),
        comer.rank.0 <= rank.0,
    ensures
        unbeaten(seen.push(comer), rank),
{
    let next = seen.push(comer);
    assert forall|i: int| 0 <= i < next.len() implies next[i].rank.0 <= rank.0 by {
        if i < seen.len() {
            assert(next[i] == seen[i]);
        }
    }
}

/// The players that lead the round: one pass over the contenders that keeps
/// the best rank seen so far and those who hold it. The first contender
/// leads; a better hand takes the lead alone; an equal hand shares it; a
/// worse hand changes nothing.
pub fn leading_players(contenders: &Vec<Contender>) -> (leaders: Vec<Contender>)
    ensures
        leaders@ == leaders_of(contenders@),
{
    let mut best: Option<HandRank> = None;
    let mut leaders: Vec<Contender> = Vec::new();
    let mut seat: usize = 0;
    while seat < contenders.len()
        invariant
            seat <= contenders.len(),
            best is None <==> seat == 0,
            best is None ==> leaders@ == Seq::<Contender>::empty(),
            best matches Some(rank) ==> {
                &&& unbeaten(contenders@.take(seat as int), rank)
                &&& exists|i: int| 0 <= i < seat && contenders@[i].rank == rank
                &&& leaders@ == holders_of(contenders@.take(seat as int), rank)
            },
        decreases contenders.len() - seat,
    {
        let contender = &contenders[seat];
        let ghost seen = contenders@.take(seat as int);
        proof {
            reveal(Seq::filter);
            assert(contenders@.take(seat + 1) == seen.push(*contender));
            assert(seen.push(*contender).drop_last() == seen);
        }
        match best {
            None => {
                best = Some(contender.rank);
                leaders.push(contender.clone());
                proof {
                    lemma_no_holder_above(seen, contender.rank);
                    lemma_still_unbeaten(seen, *contender, contender.rank);
                }
            },
            Some(rank) => {
                if contender.rank.0 > rank.0 {
                    best = Some(contender.rank);
                    leaders.clear();
                    leaders.push(contender.clone());
                    proof {
                        lemma_no_holder_above(seen, contender.rank);
                        lemma_still_unbeaten(seen, *contender, contender.rank);
                    }
                } else if contender.rank.0 == rank.0 {
                    leaders.push(contender.clone());
                    proof {
                        lemma_still_unbeaten(seen, *contender, rank);
                    }
                } else {
                    proof {
                        lemma_still_unbeaten(seen, *contender, rank);
                    }
                }
            },
        }
        seat += 1;
    }
    proof {
        assert(contenders@.take(seat as int) == contenders@);
        match best {
            None => {
                reveal(Seq::filter);
            },
            Some(rank) => {
                lemma_leaders_hold_best(contenders@, rank);
            },
        }
    }
    leaders
}

/// In a round with at least one contender somebody holds a hand that
/// nobody beats.
pub proof fn lemma_someone_is_unbeaten(contenders: Seq<Contender>) -> (seat: int)
    requires
        contenders.len() > 0,
    ensures
        0 <= seat < contenders.len(),
        unbeaten(contenders, contenders[seat].rank),
    decreases contenders.len(),
{
    let last = contenders.len() - 1;
    if contenders.len() == 1 {
        last
    } else {
        let earlier = lemma_someone_is_unbeaten(contenders.drop_last());
        if contenders[earlier].rank.0 >= contenders[last].rank.0 {
            assert forall|i: int| 0 <= i < contenders.len() implies contenders[i].rank.0
                <= contenders[earlier].rank.0 by {
                if i < last {
                    assert(contenders.drop_last()[i] == contenders[i]);
                }
            }
            earlier
        } else {
            assert forall|i: int| 0 <= i < contenders.len() implies contenders[i].rank.0
                <= contenders[last].rank.0 by {
                if i < last {
                    assert(contenders.drop_last()[i] == contenders[i]);
                }
            }
            last
        }
    }
}

/// A contender leads exactly when they are in the round and nobody beats
/// their hand; so a round with a contender has a leader.
pub proof fn lemma_who_leads(contenders: Seq<Contender>)
    ensures
        forall|c: Contender| #[trigger]
            leaders_of(contenders).contains(c) <==> contenders.contains(c) && unbeaten(
                contenders,
                c.rank,
            ),
        leaders_of(contenders).len() <= contenders.len(),
        contenders.len() > 0 ==> leaders_of(contenders).len() > 0,
{
    broadcast use vstd::seq_lib::group_filter_ensures;

    let is_leader = |c: Contender| unbeaten(contenders, c.rank);
    let leaders = leaders_of(contenders);
    assert forall|c: Contender| #[trigger]
        leaders.contains(c) <==> contenders.contains(c) && unbeaten(contenders, c.rank) by {
        if leaders.contains(c) {
            let at = choose|i: int| 0 <= i < leaders.len() && leaders[i] == c;
            assert(is_leader(leaders[at]));
            lemma_filter_keeps_members(contenders, is_leader, at);
        }
        if contenders.contains(c) && unbeaten(contenders, c.rank) {
            let at = choose|i: int| 0 <= i < contenders.len() && contenders[i] == c;
            assert(is_leader(contenders[at]));
        }
    }
    if contenders.len() > 0 {
        let seat = lemma_someone_is_unbeaten(contenders);
        assert(contenders.contains(contenders[seat]));
        assert(leaders.contains(contenders[seat]));
    }
}

/// Who leads does not depend on the order in which the contenders are
/// taken: two rounds with the same contenders have the same leaders.
pub proof fn lemma_leaders_whatever_the_order(one: Seq<Contender>, other: Seq<Contender>)
    requires
        forall|c: Contender| one.contains(c) <==> other.contains(c),
    ensures
        forall|c: Contender| leaders_of(one).contains(c) <==> leaders_of(other).contains(c),
{
    lemma_who_leads(one);
    lemma_who_leads(other);
    assert forall|c: Contender| leaders_of(one).contains(c) <==> leaders_of(other).contains(
        c,
    ) by {
        if unbeaten(one, c.rank) {
            lemma_unbeaten_whatever_the_order(one, other, c.rank);
        }
        if unbeaten(other, c.rank) {
            lemma_unbeaten_whatever_the_order(other, one, c.rank);
        }
    }
}

/// A rank that nobody beats in one round is beaten by nobody in a round
/// with the same contenders.
proof fn lemma_unbeaten_whatever_the_order(
    one: Seq<Contender>,
    other: Seq<Contender>,
    rank: HandRank,
)
    requires
        forall|c: Contender| one.contains(c) <==> other.contains(c),
        unbeaten(one, rank),
    ensures
        unbeaten(other, rank),
{
    assert forall|i: int| 0 <= i < other.len() implies other[i].rank.0 <= rank.0 by {
        assert(other.contains(other[i]));
        let at = choose|j: int| 0 <= j < one.len() && one[j] == other[i];
        assert(one[at].rank.0 <= rank.0);
    }
}

/// What a filter keeps was in the sequence.
proof fn lemma_filter_keeps_members(
    contenders: Seq<Contender>,
    keep: spec_fn(Contender) -> bool,
    at: int,
)
    requires
        0 <= at < contenders.filter(keep).len(),
    ensures
        contenders.contains(contenders.filter(keep)[at]),
    decreases contenders.len(),
{
    reveal(Seq::filter);
    if contenders.len() > 0 {
        let earlier = contenders.drop_last().filter(keep);
        if at < earlier.len() {
            lemma_filter_keeps_members(contenders.drop_last(), keep, at);
            let found = choose|i: int|
                0 <= i < contenders.drop_last().len() && contenders.drop_last()[i] == earlier[at];
            assert(contenders[found] == earlier[at]);
        } else {
            assert(contenders[contenders.len() - 1] == contenders.filter(keep)[at]);
        }
    }
}

/// Whether `outcome` is how a round among `contenders` ends: nobody to
/// play, one leader who wins, or several leaders who push.
pub open spec fn settles(outcome: Outcome, contenders: Seq<Contender>) -> bool {
    match outcome {
        Outcome::NoContest => contenders.len() == 0,
        Outcome::Win(winner) => leaders_of(contenders) == seq![winner],
        Outcome::Push(tied) => tied@.len() >= 2 && tied@ == leaders_of(contenders),
    }
}

/// Ends the round: the one leader wins it, several leaders push.
pub fn resolve(contenders: &Vec<Contender>) -> (outcome: Outcome)
    ensures
        settles(outcome, contenders@),
{
    let mut leaders = leading_players(contenders);
    proof {
        lemma_who_leads(contenders@);
    }
    if leaders.len() == 1 {
        let winner = leaders.remove(0);
        assert(leaders_of(contenders@) == seq![winner]);
        Outcome::Win(winner)
    } else if leaders.len() > 1 {
        Outcome::Push(leaders)
    } else {
        Outcome::NoContest
    }
}

} // verus!
