//! Drawing the trump, dealing the hands and laying them out.

use std::string::String;
use vstd::multiset::Multiset;
use vstd::prelude::*;
use crate::card::{decode, lemma_decode_is_code, Card, Suit};
use crate::components::GameInfo;
use crate::table::{Seat, Table, SEATS};

verus! {

/// Where a card stands when a hand is laid out: by suit first, and within a
/// suit the stronger card first. The smaller key comes first.
pub open spec fn display_key(card: Card, trump: Option<Suit>) -> int {
    card.suit.order() * 256 + (255 - card.strength(trump))
}

/// The hand is laid out: suits together in their order, each suit from its
/// strongest card down.
pub open spec fn display_sorted(hand: Seq<Card>, trump: Option<Suit>) -> bool {
    forall|i: int, j: int|
        0 <= i < j < hand.len() ==> display_key(#[trigger] hand[i], trump) <= display_key(
            #[trigger] hand[j],
            trump,
        )
}

/// Each pick names a card of the pool as it is when the pick is made: the
/// pool loses one card with every pick before it.
pub open spec fn valid_picks(picks: Seq<usize>, pool_len: nat) -> bool {
    forall|j: int| 0 <= j < picks.len() ==> (#[trigger] picks[j]) + j < pool_len
}

/// The pool once the picks have been drawn from it, one after the other.
pub open spec fn pool_after(pool: Seq<Card>, picks: Seq<usize>) -> Seq<Card>
    decreases picks.len(),
{
    if picks.len() == 0 {
        pool
    } else {
        pool_after(pool, picks.drop_last()).remove(picks.last() as int)
    }
}

/// The card that the pick with index `j` draws.
pub open spec fn drawn(pool: Seq<Card>, picks: Seq<usize>, j: int) -> Card {
    pool_after(pool, picks.take(j))[picks[j] as int]
}

/// The cards dealt to a seat, in the order drawn: the seats are served one
/// after the other, `per_seat` picks each, and a card dealt belongs to its
/// seat.
pub open spec fn dealt_hand(pool: Seq<Card>, picks: Seq<usize>, per_seat: nat, seat: int) -> Seq<
    Card,
> {
    Seq::new(
        per_seat,
        |k: int| Card { player: seat as usize, ..drawn(pool, picks, seat * per_seat + k) },
    )
}

/// The pool that the hands are dealt from: the deck, with or without the
/// card that was turned up for trump.
pub open spec fn dealing_pool(deck: Seq<Card>, trump_stays: bool, trump_pick: int) -> Seq<Card> {
    if trump_stays {
        deck
    } else {
        deck.remove(trump_pick)
    }
}

/// The picks fit the deal: one names the trump card in the deck, and the
/// others, as many as the four seats are owed in this round, each name a
/// card of the pool as it is when they are made.
pub open spec fn picks_fit(
    before: Table,
    deck: Seq<Card>,
    trump_stays: bool,
    trump_pick: int,
    picks: Seq<usize>,
) -> bool {
    &&& 0 <= trump_pick < deck.len()
    &&& picks.len() == SEATS * before.game_type.cards_per_seat(before.round)
    &&& valid_picks(picks, dealing_pool(deck, trump_stays, trump_pick).len())
}

/// `after` is `before` with the round dealt by these picks: the trump is the
/// suit of the card turned up, every seat holds the cards drawn for it, laid
/// out for display, and nothing else has changed.
pub open spec fn is_deal(
    before: Table,
    deck: Seq<Card>,
    trump_stays: bool,
    trump_pick: int,
    picks: Seq<usize>,
    after: Table,
) -> bool {
    let per_seat = before.game_type.cards_per_seat(before.round);
    let pool = dealing_pool(deck, trump_stays, trump_pick);
    let trump = Some(deck[trump_pick].suit);
    &&& after.players.len() == SEATS
    &&& forall|seat: int|
        0 <= seat < SEATS ==> {
            &&& (#[trigger] after.players[seat]).cards.to_multiset() == dealt_hand(
                pool,
                picks,
                per_seat,
                seat,
            ).to_multiset()
            &&& display_sorted(after.players[seat].cards, trump)
            &&& after.players[seat] == (Seat {
                cards: after.players[seat].cards,
                ..before.players[seat]
            })
        }
    &&& after == (Table { players: after.players, trump, ..before })
}

/// Every pick shortens the pool by one card.
pub proof fn lemma_pool_after_len(pool: Seq<Card>, picks: Seq<usize>)
    requires
        valid_picks(picks, pool.len()),
    ensures
        pool_after(pool, picks).len() == pool.len() - picks.len(),
    decreases picks.len(),
{
    if picks.len() > 0 {
        let before = picks.drop_last();
        assert forall|j: int| 0 <= j < before.len() implies (#[trigger] before[j]) + j
            < pool.len() by {
            assert(before[j] == picks[j]);
        }
        lemma_pool_after_len(pool, before);
        assert(picks.last() == picks[picks.len() - 1]);
    }
}

/// One more pick removes the card it names from what the picks before left.
pub proof fn lemma_pool_after_step(pool: Seq<Card>, picks: Seq<usize>, j: int)
    requires
        0 <= j < picks.len(),
    ensures
        pool_after(pool, picks.take(j + 1)) == pool_after(pool, picks.take(j)).remove(
            picks[j] as int,
        ),
{
    assert(picks.take(j + 1).drop_last() =~= picks.take(j));
    assert(picks.take(j + 1).last() == picks[j]);
}

/// What the picks leave in the pool was in the pool.
pub proof fn lemma_pool_after_within(pool: Seq<Card>, picks: Seq<usize>)
    requires
        valid_picks(picks, pool.len()),
    ensures
        forall|i: int|
            0 <= i < pool_after(pool, picks).len() ==> pool.contains(
                #[trigger] pool_after(pool, picks)[i],
            ),
    decreases picks.len(),
{
    if picks.len() > 0 {
        let before = picks.drop_last();
        assert forall|j: int| 0 <= j < before.len() implies (#[trigger] before[j]) + j
            < pool.len() by {
            assert(before[j] == picks[j]);
        }
        lemma_pool_after_within(pool, before);
        lemma_pool_after_len(pool, before);
        let left = pool_after(pool, before);
        let at = picks.last() as int;
        assert forall|i: int| 0 <= i < left.remove(at).len() implies pool.contains(
            #[trigger] left.remove(at)[i],
        ) by {
            if i < at {
                assert(left.remove(at)[i] == left[i]);
            } else {
                assert(left.remove(at)[i] == left[i + 1]);
            }
        }
    }
}

/// Every card drawn is a card of the pool.
pub proof fn lemma_drawn_within(pool: Seq<Card>, picks: Seq<usize>, j: int)
    requires
        valid_picks(picks, pool.len()),
        0 <= j < picks.len(),
    ensures
        picks[j] < pool_after(pool, picks.take(j)).len(),
        pool.contains(drawn(pool, picks, j)),
{
    let before = picks.take(j);
    assert forall|i: int| 0 <= i < before.len() implies (#[trigger] before[i]) + i
        < pool.len() by {
        assert(before[i] == picks[i]);
    }
    lemma_pool_after_len(pool, before);
    lemma_pool_after_within(pool, before);
}

/// A card dealt to a seat belongs to the seat and is, but for that, a card
/// of the pool.
pub proof fn lemma_dealt_card(
    pool: Seq<Card>,
    picks: Seq<usize>,
    per_seat: nat,
    seat: int,
    card: Card,
)
    requires
        0 <= seat < SEATS,
        picks.len() == SEATS * per_seat,
        valid_picks(picks, pool.len()),
        dealt_hand(pool, picks, per_seat, seat).to_multiset().count(card) > 0,
    ensures
        card.player == seat,
        exists|i: int|
            0 <= i < pool.len() && (#[trigger] pool[i]).suit == card.suit && pool[i].rank
                == card.rank,
{
    broadcast use vstd::seq_lib::group_to_multiset_ensures;

    let hand = dealt_hand(pool, picks, per_seat, seat);
    assert(hand.contains(card));
    let k = choose|k: int| 0 <= k < hand.len() && hand[k] == card;
    let j = seat * per_seat + k;
    assert(0 <= j < picks.len()) by (nonlinear_arith)
        requires
            0 <= seat < 4,
            0 <= k < per_seat,
            j == seat * per_seat + k,
            picks.len() == 4 * per_seat,
    ;
    lemma_drawn_within(pool, picks, j);
    let from = drawn(pool, picks, j);
    let i = choose|i: int| 0 <= i < pool.len() && pool[i] == from;
    assert(pool[i].suit == card.suit);
}

/// Dealing starts the round: the table is well formed, every seat holds as
/// many cards as the round gives it, and the cards at the table are the
/// cards that were dealt, four times the hand.
pub proof fn lemma_deal_starts_round(
    before: Table,
    deck: Seq<Card>,
    trump_stays: bool,
    trump_pick: int,
    picks: Seq<usize>,
    after: Table,
)
    requires
        before.between_rounds(),
        forall|i: int| 0 <= i < deck.len() ==> (#[trigger] deck[i]).wf(),
        picks_fit(before, deck, trump_stays, trump_pick, picks),
        is_deal(before, deck, trump_stays, trump_pick, picks, after),
    ensures
        after.in_round(),
        forall|seat: int|
            0 <= seat < SEATS ==> (#[trigger] after.players[seat]).cards.len()
                == before.game_type.cards_per_seat(before.round),
        after.card_count() == SEATS * before.game_type.cards_per_seat(before.round),
{
    broadcast use vstd::seq_lib::group_to_multiset_ensures;

    let per_seat = before.game_type.cards_per_seat(before.round);
    let pool = dealing_pool(deck, trump_stays, trump_pick);
    assert forall|i: int| 0 <= i < pool.len() implies (#[trigger] pool[i]).wf() by {
        if !trump_stays && i >= trump_pick {
            assert(pool[i] == deck[i + 1]);
        } else {
            assert(pool[i] == deck[i]);
        }
    }
    assert forall|seat: int| 0 <= seat < SEATS implies (#[trigger] after.players[seat]).cards.len()
        == per_seat && after.seat_wf(seat) by {
        let hand = after.players[seat].cards;
        let dealt = dealt_hand(pool, picks, per_seat, seat);
        assert(hand.to_multiset().len() == dealt.to_multiset().len());
        assert(before.seat_wf(seat));
        assert forall|i: int| 0 <= i < hand.len() implies (#[trigger] hand[i]).wf()
            && hand[i].player == seat by {
            assert(hand.contains(hand[i]));
            lemma_dealt_card(pool, picks, per_seat, seat, hand[i]);
            let p = choose|p: int|
                0 <= p < pool.len() && (#[trigger] pool[p]).suit == hand[i].suit && pool[p].rank
                    == hand[i].rank;
            assert(pool[p].wf());
        }
    }
    assert(after.players[0].cards.len() == per_seat);
    assert(after.players[1].cards.len() == per_seat);
    assert(after.players[2].cards.len() == per_seat);
    assert(after.players[3].cards.len() == per_seat);
    assert(after.players[0].taken == before.players[0].taken);
    assert(after.players[1].taken == before.players[1].taken);
    assert(after.players[2].taken == before.players[2].taken);
    assert(after.players[3].taken == before.players[3].taken);
    assert(after.leader() == before.leader());
}

/// No two cards of the deck have the same suit and rank.
pub open spec fn distinct_faces(deck: Seq<Card>) -> bool {
    forall|i: int, j: int|
        0 <= i < j < deck.len() ==> (#[trigger] deck[i]).suit != (#[trigger] deck[j]).suit
            || deck[i].rank != deck[j].rank
}

/// The card with its owner forgotten.
spec fn unowned(card: Card) -> Card {
    Card { player: 0, ..card }
}

/// The cards drawn by the picks, in the order drawn.
spec fn drawn_cards(pool: Seq<Card>, picks: Seq<usize>) -> Seq<Card> {
    Seq::new(picks.len(), |j: int| drawn(pool, picks, j))
}

proof fn lemma_valid_picks_prefix(picks: Seq<usize>, pool_len: nat, n: int)
    requires
        valid_picks(picks, pool_len),
        0 <= n <= picks.len(),
    ensures
        valid_picks(picks.take(n), pool_len),
{
    assert forall|j: int| 0 <= j < picks.take(n).len() implies (#[trigger] picks.take(n)[j]) + j
        < pool_len by {
        assert(picks.take(n)[j] == picks[j]);
    }
}

/// Forgetting the owners before the draw or after it comes to the same.
proof fn lemma_pool_after_unowned(pool: Seq<Card>, picks: Seq<usize>)
    requires
        valid_picks(picks, pool.len()),
    ensures
        pool_after(pool.map_values(|c: Card| unowned(c)), picks) == pool_after(
            pool,
            picks,
        ).map_values(|c: Card| unowned(c)),
    decreases picks.len(),
{
    let f = |c: Card| unowned(c);
    if picks.len() > 0 {
        let before = picks.drop_last();
        lemma_valid_picks_prefix(picks, pool.len(), picks.len() - 1);
        assert(picks.take(picks.len() - 1) =~= before);
        lemma_pool_after_unowned(pool, before);
        lemma_pool_after_len(pool, before);
        let left = pool_after(pool, before);
        let at = picks.last() as int;
        assert(left.map_values(f).remove(at) =~= left.remove(at).map_values(f));
    } else {
        assert(pool_after(pool, picks).map_values(f) =~= pool.map_values(f));
    }
}

/// The cards drawn and the cards left are together the cards of the pool.
proof fn lemma_draw_partitions(pool: Seq<Card>, picks: Seq<usize>)
    requires
        valid_picks(picks, pool.len()),
    ensures
        drawn_cards(pool, picks).to_multiset().add(pool_after(pool, picks).to_multiset())
            == pool.to_multiset(),
    decreases picks.len(),
{
    broadcast use vstd::seq_lib::group_to_multiset_ensures;

    if picks.len() == 0 {
        assert(drawn_cards(pool, picks) =~= Seq::<Card>::empty());
        assert(drawn_cards(pool, picks).to_multiset().add(pool_after(pool, picks).to_multiset())
            =~= pool.to_multiset());
    } else {
        let n = picks.len() - 1;
        let before = picks.drop_last();
        lemma_valid_picks_prefix(picks, pool.len(), n);
        assert(picks.take(n) =~= before);
        lemma_draw_partitions(pool, before);
        lemma_pool_after_len(pool, before);
        let left = pool_after(pool, before);
        let at = picks.last() as int;
        let card = drawn(pool, picks, n);
        assert(card == left[at]);
        assert forall|j: int| 0 <= j < n implies drawn(pool, picks, j) == drawn(
            pool,
            before,
            j,
        ) by {
            assert(picks.take(j) =~= before.take(j));
        }
        assert(drawn_cards(pool, picks) =~= drawn_cards(pool, before).push(card));
        vstd::seq_lib::to_multiset_build(drawn_cards(pool, before), card);
        vstd::seq_lib::to_multiset_remove(left, at);
        assert(left.to_multiset().count(card) > 0);
        assert(drawn_cards(pool, picks).to_multiset().add(pool_after(pool, picks).to_multiset())
            =~= pool.to_multiset());
    }
}

/// From a pool of distinct faces no face is drawn twice.
proof fn lemma_drawn_faces_differ(pool: Seq<Card>, picks: Seq<usize>, i: int, j: int)
    requires
        valid_picks(picks, pool.len()),
        distinct_faces(pool),
        0 <= i < j < picks.len(),
    ensures
        unowned(drawn(pool, picks, i)) != unowned(drawn(pool, picks, j)),
{
    broadcast use vstd::seq_lib::group_to_multiset_ensures;

    let f = |c: Card| unowned(c);
    let bare = pool.map_values(f);
    assert(bare.no_duplicates()) by {
        assert forall|a: int, b: int| 0 <= a < bare.len() && 0 <= b < bare.len() && a
            != b implies bare[a] != bare[b] by {
            if a < b {
                assert(pool[a].suit != pool[b].suit || pool[a].rank != pool[b].rank);
            } else {
                assert(pool[b].suit != pool[a].suit || pool[b].rank != pool[a].rank);
            }
        }
    }
    bare.lemma_multiset_has_no_duplicates();
    lemma_draw_partitions(bare, picks);
    let cards = drawn_cards(bare, picks);
    assert forall|x: Card| cards.to_multiset().contains(x) implies cards.to_multiset().count(x)
        == 1 by {
        assert(bare.to_multiset().count(x) >= cards.to_multiset().count(x));
        assert(bare.to_multiset().contains(x));
    }
    cards.lemma_multiset_has_no_duplicates_conv();
    assert(cards[i] != cards[j]);
    lemma_valid_picks_prefix(picks, pool.len(), i);
    lemma_valid_picks_prefix(picks, pool.len(), j);
    lemma_pool_after_unowned(pool, picks.take(i));
    lemma_pool_after_unowned(pool, picks.take(j));
    lemma_drawn_within(pool, picks, i);
    lemma_drawn_within(pool, picks, j);
}

/// Taking the trump card out of a deck of distinct faces leaves one.
proof fn lemma_pool_faces_differ(deck: Seq<Card>, trump_stays: bool, trump_pick: int)
    requires
        0 <= trump_pick < deck.len(),
        distinct_faces(deck),
    ensures
        distinct_faces(dealing_pool(deck, trump_stays, trump_pick)),
{
    let pool = dealing_pool(deck, trump_stays, trump_pick);
    assert forall|i: int, j: int| 0 <= i < j < pool.len() implies (#[trigger] pool[i]).suit != (
    #[trigger] pool[j]).suit || pool[i].rank != pool[j].rank by {
        if !trump_stays {
            let a = if i < trump_pick {
                i
            } else {
                i + 1
            };
            let b = if j < trump_pick {
                j
            } else {
                j + 1
            };
            assert(pool[i] == deck[a] && pool[j] == deck[b]);
        }
    }
}

/// The four hands as dealt, one after the other.
spec fn dealt_all(pool: Seq<Card>, picks: Seq<usize>, per_seat: nat) -> Seq<Card> {
    dealt_hand(pool, picks, per_seat, 0) + dealt_hand(pool, picks, per_seat, 1) + dealt_hand(
        pool,
        picks,
        per_seat,
        2,
    ) + dealt_hand(pool, picks, per_seat, 3)
}

/// A card dealt is, but for its owner, the card that its pick drew.
proof fn lemma_dealt_all_index(pool: Seq<Card>, picks: Seq<usize>, per_seat: nat, a: int)
    requires
        0 <= a < 4 * per_seat,
    ensures
        dealt_all(pool, picks, per_seat).len() == 4 * per_seat,
        unowned(dealt_all(pool, picks, per_seat)[a]) == unowned(drawn(pool, picks, a)),
{
    let d0 = dealt_hand(pool, picks, per_seat, 0);
    let d1 = dealt_hand(pool, picks, per_seat, 1);
    let d2 = dealt_hand(pool, picks, per_seat, 2);
    let d3 = dealt_hand(pool, picks, per_seat, 3);
    let all = dealt_all(pool, picks, per_seat);
    if a < per_seat {
        assert(all[a] == d0[a]);
    } else if a < 2 * per_seat {
        assert(all[a] == d1[a - per_seat]);
    } else if a < 3 * per_seat {
        assert(all[a] == d2[a - 2 * per_seat]);
    } else {
        assert(all[a] == d3[a - 3 * per_seat]);
    }
}

/// From a pool of distinct faces no card is dealt twice.
proof fn lemma_dealt_all_differ(pool: Seq<Card>, picks: Seq<usize>, per_seat: nat)
    requires
        picks.len() == 4 * per_seat,
        valid_picks(picks, pool.len()),
        distinct_faces(pool),
    ensures
        forall|card: Card| dealt_all(pool, picks, per_seat).to_multiset().count(card) <= 1,
{
    let all = dealt_all(pool, picks, per_seat);
    assert forall|a: int, b: int| 0 <= a < all.len() && 0 <= b < all.len() && a != b implies all[a]
        != all[b] by {
        lemma_dealt_all_index(pool, picks, per_seat, a);
        lemma_dealt_all_index(pool, picks, per_seat, b);
        if a < b {
            lemma_drawn_faces_differ(pool, picks, a, b);
        } else {
            lemma_drawn_faces_differ(pool, picks, b, a);
        }
    }
    all.lemma_multiset_has_no_duplicates();
    assert forall|card: Card| all.to_multiset().count(card) <= 1 by {
        if all.to_multiset().contains(card) {
        }
    }
}

/// Dealing from a deck of distinct faces puts no card on the table twice.
pub proof fn lemma_deal_keeps_cards_apart(
    before: Table,
    deck: Seq<Card>,
    trump_stays: bool,
    trump_pick: int,
    picks: Seq<usize>,
    after: Table,
)
    requires
        before.between_rounds(),
        picks_fit(before, deck, trump_stays, trump_pick, picks),
        is_deal(before, deck, trump_stays, trump_pick, picks, after),
        distinct_faces(deck),
    ensures
        after.no_duplicates(),
{
    let per_seat = before.game_type.cards_per_seat(before.round);
    let pool = dealing_pool(deck, trump_stays, trump_pick);
    lemma_pool_faces_differ(deck, trump_stays, trump_pick);
    lemma_dealt_all_differ(pool, picks, per_seat);
    let d0 = dealt_hand(pool, picks, per_seat, 0);
    let d1 = dealt_hand(pool, picks, per_seat, 1);
    let d2 = dealt_hand(pool, picks, per_seat, 2);
    let d3 = dealt_hand(pool, picks, per_seat, 3);
    vstd::seq_lib::lemma_multiset_commutative(d0, d1);
    vstd::seq_lib::lemma_multiset_commutative(d0 + d1, d2);
    vstd::seq_lib::lemma_multiset_commutative(d0 + d1 + d2, d3);
    assert(after.players[0].cards.to_multiset() == d0.to_multiset());
    assert(after.players[1].cards.to_multiset() == d1.to_multiset());
    assert(after.players[2].cards.to_multiset() == d2.to_multiset());
    assert(after.players[3].cards.to_multiset() == d3.to_multiset());
    assert(after.held() == dealt_all(pool, picks, per_seat).to_multiset());
    assert(after.cards_placed.to_multiset() =~= Multiset::<Card>::empty()) by {
        broadcast use vstd::seq_lib::group_to_multiset_ensures;

        assert(after.cards_placed =~= Seq::<Card>::empty());
    }
    assert(after.last_cards_placed.to_multiset() =~= Multiset::<Card>::empty()) by {
        broadcast use vstd::seq_lib::group_to_multiset_ensures;

        assert(after.last_cards_placed =~= Seq::<Card>::empty());
    }
    assert(after.all_cards() =~= after.held());
}

/// Takes the card at `pick` out of the pool and hands it to `seat`.
pub fn draw(pool: &mut Vec<Card>, pick: usize, seat: usize) -> (card: Card)
    requires
        pick < old(pool)@.len(),
    ensures
        final(pool)@ == old(pool)@.remove(pick as int),
        card == (Card { player: seat, ..old(pool)@[pick as int] }),
{
    let card = pool.remove(pick);
    Card { rank: card.rank, suit: card.suit, player: seat }
}

fn key_of(card: &Card, trump: Option<Suit>) -> (key: u32)
    ensures
        key == display_key(*card, trump),
{
    let suit: u32 = card.suit.position() as u32;
    let value: u32 = card.value(trump) as u32;
    suit * 256 + (255 - value)
}

/// Lays a hand out for display: by suit, and within a suit from the
/// strongest card down. The hand holds the same cards after as before.
pub fn sort_hand(cards: &mut Vec<Card>, trump: Option<Suit>)
    ensures
        final(cards)@.to_multiset() == old(cards)@.to_multiset(),
        final(cards)@.len() == old(cards)@.len(),
        display_sorted(final(cards)@, trump),
{
    broadcast use vstd::seq_lib::group_to_multiset_ensures;

    let n = cards.len();
    let mut sorted: Vec<Card> = Vec::new();
    let mut i: usize = 0;
    assert(cards@.take(0) =~= Seq::<Card>::empty());
    while i < n
        invariant
            n == cards@.len(),
            0 <= i <= n,
            sorted@.len() == i,
            sorted@.to_multiset() == cards@.take(i as int).to_multiset(),
            display_sorted(sorted@, trump),
        decreases n - i,
    {
        let card = cards[i];
        let key = key_of(&card, trump);
        let mut at: usize = 0;
        while at < sorted.len() && key_of(&sorted[at], trump) <= key
            invariant
                0 <= at <= sorted@.len(),
                key == display_key(card, trump),
                forall|q: int| 0 <= q < at ==> display_key(#[trigger] sorted@[q], trump) <= key,
            decreases sorted@.len() - at,
        {
            at = at + 1;
        }
        let ghost before = sorted@;
        sorted.insert(at, card);
        proof {
            assert(cards@.take(i + 1) =~= cards@.take(i as int).push(card));
            vstd::seq_lib::to_multiset_build(cards@.take(i as int), card);
            vstd::seq_lib::to_multiset_insert(before, at as int, card);
            assert(sorted@ == before.insert(at as int, card));
            assert forall|a: int, b: int| 0 <= a < b < sorted@.len() implies display_key(
                #[trigger] sorted@[a],
                trump,
            ) <= display_key(#[trigger] sorted@[b], trump) by {
                if a < at && b > at {
                    assert(sorted@[a] == before[a]);
                    assert(sorted@[b] == before[b - 1]);
                } else if a < at && b == at {
                    assert(sorted@[a] == before[a]);
                } else if a < at && b < at {
                    assert(sorted@[a] == before[a]);
                    assert(sorted@[b] == before[b]);
                } else if a == at {
                    assert(sorted@[b] == before[b - 1]);
                    assert(display_key(before[at as int], trump) > key);
                    if b - 1 > at {
                        assert(display_key(before[at as int], trump) <= display_key(
                            before[b - 1],
                            trump,
                        ));
                    }
                } else {
                    assert(sorted@[a] == before[a - 1]);
                    assert(sorted@[b] == before[b - 1]);
                }
            }
        }
        i = i + 1;
    }
    assert(cards@.take(n as int) =~= cards@);
    *cards = sorted;
}


impl GameInfo {
    /// Deals the round with picks that are given: turns up the deck's card
    /// at `trump_pick` for trump, leaves it in the pool or takes it out, and
    /// serves the seats one after the other, each pick drawing the card at
    /// that place of what is left of the pool. Every hand is then laid out
    /// for display.
    pub fn start_round_with(
        &mut self,
        deck: Vec<Card>,
        trump_stays: bool,
        trump_pick: usize,
        picks: &Vec<usize>,
    )
        requires
            old(self)@.between_rounds(),
            forall|i: int| 0 <= i < deck@.len() ==> (#[trigger] deck@[i]).wf(),
            picks_fit(old(self)@, deck@, trump_stays, trump_pick as int, picks@),
        ensures
            is_deal(old(self)@, deck@, trump_stays, trump_pick as int, picks@, final(self)@),
            final(self)@.in_round(),
            final(self)@.card_count() == SEATS * old(self)@.game_type.cards_per_seat(
                old(self)@.round,
            ),
            distinct_faces(deck@) ==> final(self)@.no_duplicates(),
    {
        let per_seat = self._type.hand_size(self.round);
        let trump = Some(deck[trump_pick].suit);
        self.trump = trump;
        let mut pool = deck;
        if !trump_stays {
            pool.remove(trump_pick);
        }
        let ghost pool0 = pool@;
        assert(pool0 == dealing_pool(deck@, trump_stays, trump_pick as int));
        assert(picks@.take(0) =~= Seq::<usize>::empty());
        let mut seat: usize = 0;
        let mut next: usize = 0;
        while seat < SEATS
            invariant
                0 <= seat <= SEATS,
                per_seat == old(self)@.game_type.cards_per_seat(old(self)@.round),
                1 <= per_seat <= 9,
                next == seat * per_seat,
                picks@.len() == SEATS * per_seat,
                valid_picks(picks@, pool0.len()),
                pool@ == pool_after(pool0, picks@.take(next as int)),
                self.players@.len() == SEATS,
                old(self).players@.len() == SEATS,
                forall|s: int|
                    0 <= s < seat ==> {
                        &&& (#[trigger] self.players@[s])@.cards.to_multiset() == dealt_hand(
                            pool0,
                            picks@,
                            per_seat as nat,
                            s,
                        ).to_multiset()
                        &&& display_sorted(self.players@[s]@.cards, trump)
                        &&& self.players@[s]@ == (Seat {
                            cards: self.players@[s]@.cards,
                            ..old(self).players@[s]@
                        })
                    },
                forall|s: int|
                    seat <= s < SEATS ==> (#[trigger] self.players@[s])@ == old(self).players@[s]@,
                self._type == old(self)._type,
                self.cards_placed == old(self).cards_placed,
                self.last_cards_placed == old(self).last_cards_placed,
                self.last_took == old(self).last_took,
                self.trump == trump,
                self.dealer == old(self).dealer,
                self.round == old(self).round,
                self.h_penalty == old(self).h_penalty,
            decreases SEATS - seat,
        {
            let mut hand: Vec<Card> = Vec::new();
            let mut k: usize = 0;
            let ghost dealt = dealt_hand(pool0, picks@, per_seat as nat, seat as int);
            assert(dealt.take(0) =~= Seq::<Card>::empty());
            while k < per_seat
                invariant
                    0 <= k <= per_seat,
                    1 <= per_seat <= 9,
                    seat < SEATS,
                    next == seat * per_seat,
                    picks@.len() == SEATS * per_seat,
                    valid_picks(picks@, pool0.len()),
                    pool@ == pool_after(pool0, picks@.take(next + k)),
                    dealt == dealt_hand(pool0, picks@, per_seat as nat, seat as int),
                    hand@ == dealt.take(k as int),
                decreases per_seat - k,
            {
                proof {
                    assert(next + k < picks@.len()) by (nonlinear_arith)
                        requires
                            seat < 4,
                            k < per_seat,
                            next == seat * per_seat,
                            picks@.len() == 4 * per_seat,
                    ;
                    lemma_drawn_within(pool0, picks@, next + k);
                    lemma_pool_after_step(pool0, picks@, next + k);
                }
                let card = draw(&mut pool, picks[next + k], seat);
                hand.push(card);
                proof {
                    assert(dealt.take(k + 1) =~= dealt.take(k as int).push(dealt[k as int]));
                }
                k = k + 1;
            }
            assert(dealt.take(per_seat as int) =~= dealt);
            sort_hand(&mut hand, trump);
            self.players[seat].cards = hand;
            proof {
                assert((seat + 1) * per_seat == seat * per_seat + per_seat) by (nonlinear_arith);
                assert(seat * per_seat <= 27) by (nonlinear_arith)
                    requires
                        seat < 4,
                        per_seat <= 9,
                ;
            }
            next = next + per_seat;
            seat = seat + 1;
        }
        proof {
            let after = self@;
            assert(after == (Table { players: after.players, trump, ..old(self)@ }));
            lemma_deal_starts_round(
                old(self)@,
                deck@,
                trump_stays,
                trump_pick as int,
                picks@,
                after,
            );
            if distinct_faces(deck@) {
                lemma_deal_keeps_cards_apart(
                    old(self)@,
                    deck@,
                    trump_stays,
                    trump_pick as int,
                    picks@,
                    after,
                );
            }
        }
    }
}


/// `random_number::random_at_most_exclusively`, for `usize`: a number drawn
/// at random from zero up to, and not including, `bound`. It panics on a
/// bound of zero, which is left out. Nothing is claimed of which number
/// comes, only that it is below the bound.
#[verifier::external_body]
fn random_below(bound: usize) -> (pick: usize)
    requires
        bound > 0,
    ensures
        pick < bound,
{
    random_number::random_at_most_exclusively(bound)
}

/// Draws `count` picks at random for a pool of `pool_len` cards, each from
/// what the picks before it leave.
pub fn random_picks(pool_len: usize, count: usize) -> (picks: Vec<usize>)
    requires
        count <= pool_len,
    ensures
        picks@.len() == count,
        valid_picks(picks@, pool_len as nat),
{
    let mut picks: Vec<usize> = Vec::new();
    let mut j: usize = 0;
    while j < count
        invariant
            0 <= j <= count <= pool_len,
            picks@.len() == j,
            valid_picks(picks@, pool_len as nat),
        decreases count - j,
    {
        let pick = random_below(pool_len - j);
        picks.push(pick);
        j = j + 1;
    }
    picks
}

impl Table {
    /// Whether the deck can serve this round: it holds only well-formed
    /// cards, and enough of them for four hands, and one more where the
    /// card turned up for trump leaves the pool.
    pub open spec fn deck_serves(self, deck: Seq<Card>, trump_stays: bool) -> bool {
        &&& forall|i: int| 0 <= i < deck.len() ==> (#[trigger] deck[i]).wf()
        &&& deck.len() >= SEATS * self.game_type.cards_per_seat(self.round) + if trump_stays {
            0int
        } else {
            1int
        }
    }
}

impl GameInfo {
    /// Starts a round: turns up a card of the deck at random for trump, and
    /// deals every seat its hand, each card drawn at random from what is
    /// left of the pool. Whatever the draws were, the table is the one that
    /// some fitting picks deal.
    pub fn start_round(&mut self, deck: Vec<Card>, trump_stays: bool)
        requires
            old(self)@.between_rounds(),
            old(self)@.deck_serves(deck@, trump_stays),
        ensures
            exists|trump_pick: int, picks: Seq<usize>|
                picks_fit(old(self)@, deck@, trump_stays, trump_pick, picks) && is_deal(
                    old(self)@,
                    deck@,
                    trump_stays,
                    trump_pick,
                    picks,
                    final(self)@,
                ),
            final(self)@.in_round(),
            final(self)@.card_count() == SEATS * old(self)@.game_type.cards_per_seat(
                old(self)@.round,
            ),
            distinct_faces(deck@) ==> final(self)@.no_duplicates(),
    {
        let per_seat = self._type.hand_size(self.round);
        let trump_pick = random_below(deck.len());
        let pool_len = if trump_stays {
            deck.len()
        } else {
            deck.len() - 1
        };
        let picks = random_picks(pool_len, SEATS * per_seat);
        let ghost cards = deck@;
        self.start_round_with(deck, trump_stays, trump_pick, &picks);
        assert(picks_fit(old(self)@, cards, trump_stays, trump_pick as int, picks@));
        assert(is_deal(old(self)@, cards, trump_stays, trump_pick as int, picks@, self@));
    }
}


/// Owner of a card that no seat holds yet.
pub const NO_SEAT: usize = usize::MAX;

/// Reads a deck from its cards' codes. `None` where one of them is no code.
pub fn parse_deck(codes: &Vec<String>) -> (deck: Option<Vec<Card>>)
    ensures
        match deck {
            Some(cards) => {
                &&& cards@.len() == codes@.len()
                &&& forall|i: int|
                    0 <= i < codes@.len() ==> decode((#[trigger] codes@[i])@, NO_SEAT) == Some(
                        cards@[i],
                    )
                &&& forall|i: int| 0 <= i < cards@.len() ==> (#[trigger] cards@[i]).wf()
            },
            None => exists|i: int|
                0 <= i < codes@.len() && decode((#[trigger] codes@[i])@, NO_SEAT) is None,
        },
{
    let n = codes.len();
    let mut cards: Vec<Card> = Vec::new();
    let mut i: usize = 0;
    while i < n
        invariant
            n == codes@.len(),
            0 <= i <= n,
            cards@.len() == i,
            forall|j: int|
                0 <= j < i ==> decode((#[trigger] codes@[j])@, NO_SEAT) == Some(cards@[j]),
            forall|j: int| 0 <= j < i ==> (#[trigger] cards@[j]).wf(),
        decreases n - i,
    {
        match Card::parse(codes[i].as_str(), NO_SEAT) {
            Some(card) => {
                proof {
                    lemma_decode_is_code(codes@[i as int]@, NO_SEAT);
                }
                cards.push(card);
            },
            None => {
                return None;
            },
        }
        i = i + 1;
    }
    Some(cards)
}

/// Whether no two cards of the deck have the same suit and rank.
pub fn has_distinct_faces(deck: &Vec<Card>) -> (distinct: bool)
    ensures
        distinct == distinct_faces(deck@),
{
    let n = deck.len();
    let mut j: usize = 0;
    while j < n
        invariant
            n == deck@.len(),
            0 <= j <= n,
            forall|a: int, b: int|
                0 <= a < b < j ==> (#[trigger] deck@[a]).suit != (#[trigger] deck@[b]).suit
                    || deck@[a].rank != deck@[b].rank,
        decreases n - j,
    {
        let mut i: usize = 0;
        while i < j
            invariant
                n == deck@.len(),
                0 <= i <= j < n,
                forall|a: int|
                    0 <= a < i ==> (#[trigger] deck@[a]).suit != deck@[j as int].suit || deck@[a].rank
                        != deck@[j as int].rank,
            decreases j - i,
        {
            if deck[i].suit == deck[j].suit && deck[i].rank == deck[j].rank {
                return false;
            }
            i = i + 1;
        }
        j = j + 1;
    }
    true
}

} // verus!
