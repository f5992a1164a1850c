//! The pointer-event handlers: the draw/discard trigger, the flip of a
//! covered top card, and the drag-transaction state machine — grab on
//! pointer motion, drop or revert on pointer release.

#![allow(non_snake_case)]

use vstd::prelude::*;
use vstd::multiset::Multiset;

use crate::card::{Card, CardView, PileIdentifier, CARD_HEIGHT, CARD_WIDTH};
use crate::coordinates::{ANCHOR_LIMIT, DECK_X, DECK_Y, DISCARD_X, DISCARD_Y, PILE_Y, POS_LIMIT};
use crate::deck::{keys_of, lemma_keys_drop_first, lemma_keys_drop_last, lemma_keys_empty,
    lemma_keys_push, lemma_keys_reverse};
use crate::pile::{
    add_flush_all, add_offset_all, lemma_add_flush_all_push, lemma_add_offset_all_push,
    offset_card, Pile, PileView, CARD_OFFSET, MAX_PILE_SIZE,
};
use crate::state::{
    cards_bounded, fanned, flushed, grabbed_initials, is_final_id, is_tableau_id,
    lemma_pile_wf, own_initials, spec_discard_card, spec_final_id, spec_mouse_over,
    spec_mouse_over_fan, spec_recycle, spec_tableau_id, tableau_id_of, State, StateView,
};

verus! {

/// Checks if the pointer at (mx, my) lies over a card-sized box anchored
/// at (x, y).
fn mouseOver(mx: i64, my: i64, x: i64, y: i64) -> (r: bool)
    requires
        -POS_LIMIT <= x <= POS_LIMIT,
        -POS_LIMIT <= y <= POS_LIMIT,
    ensures
        r == spec_mouse_over(mx as int, my as int, x as int, y as int),
{
    mx > x && mx < x + CARD_WIDTH && my > y && my < y + CARD_HEIGHT
}

/// Checks if the pointer lies over the fanned body of a pile, short of the
/// top card.
fn mouseIsOverPile(mx: i64, my: i64, pile: &Pile) -> (r: bool)
    requires
        pile.wf(),
    ensures
        r == spec_mouse_over_fan(mx as int, my as int, pile@),
{
    let sz = pile.size();
    mx > pile.x && mx < pile.x + CARD_WIDTH && my > pile.y && my < pile.y + (sz as i64 - 1)
        * CARD_OFFSET
}

/// Whether a pointer-down over this tableau pile should flip its top card:
/// the pile is not empty, the pointer sits over the slot just past the fan,
/// and the top card lies face-down.
pub open spec fn flip_hit(sv: StateView, mx: int, my: int, i: int) -> bool {
    let p = sv.pile_at(spec_tableau_id(i));
    &&& p.cards.len() > 0
    &&& spec_mouse_over(mx, my, p.x, p.y + p.cards.len() * CARD_OFFSET)
    &&& !p.cards.last().isFaceUp
}

/// The first tableau pile, in left-to-right order from position `i`, whose
/// face-down top card the pointer-down should flip.
pub open spec fn find_flip(sv: StateView, mx: int, my: int, i: int) -> Option<int>
    decreases 7 - i,
{
    if i >= 7 {
        Option::None
    } else if flip_hit(sv, mx, my, i) {
        Option::Some(i)
    } else {
        find_flip(sv, mx, my, i + 1)
    }
}

/// The state with the top card of the named pile flipped.
pub open spec fn spec_flip_top(sv: StateView, id: PileIdentifier) -> StateView {
    let p = sv.pile_at(id);
    sv.with_pile(
        id,
        p.with_cards(
            p.cards.update(
                p.cards.len() - 1,
                (CardView { isFaceUp: !p.cards.last().isFaceUp, ..p.cards.last() }),
            ),
        ),
    )
}

/// What one pointer-down event does. The drag flag is raised. A press over
/// the deck with nothing grabbed draws from a non-empty deck, or recycles
/// the discard pile into an empty one. Any other press flips the top card
/// of the first tableau pile whose fan end it covers, provided that card
/// lies face-down.
pub open spec fn spec_mouse_down(sv: StateView, mx: int, my: int) -> StateView {
    let sv1 = StateView { mouseDown: true, ..sv };
    if spec_mouse_over(mx, my, DECK_X as int, DECK_Y as int) && sv.grabbedCards.cards.len() == 0 {
        if sv.deck.cards.len() > 0 {
            spec_discard_card(sv1)
        } else {
            spec_recycle(sv1)
        }
    } else {
        match find_flip(sv1, mx, my, 0) {
            Option::Some(i) => spec_flip_top(sv1, spec_tableau_id(i)),
            Option::None => sv1,
        }
    }
}

impl State {
    /// Handles a pointer-down event at the given pointer position.
    pub fn mouse_button_down_event(&mut self, x: i64, y: i64)
        requires
            old(self).wf(),
            -ANCHOR_LIMIT <= x <= ANCHOR_LIMIT,
            -ANCHOR_LIMIT <= y <= ANCHOR_LIMIT,
        ensures
            final(self)@ == spec_mouse_down(old(self)@, x as int, y as int),
            final(self).wf(),
            final(self)@.keys_total() == old(self)@.keys_total(),
    {
        self.mouseDown = true;
        let ghost sv1 = self@;
        proof {
            assert(self.wf());
            assert(sv1 =~= (StateView { mouseDown: true, ..old(self)@ }));
        }
        if mouseOver(x, y, DECK_X, DECK_Y) && self.grabbedCards.empty() {
            if !self.deck.empty() {
                self.discardCard();
            } else {
                self.emptyDiscard();
            }
            return ;
        }
        let mut i: usize = 0;
        while i < 7
            invariant
                self.wf(),
                self@ == sv1,
                sv1 == (StateView { mouseDown: true, ..old(self)@ }),
                !(spec_mouse_over(x as int, y as int, DECK_X as int, DECK_Y as int) && old(
                    self,
                )@.grabbedCards.cards.len() == 0),
                i <= 7,
                -ANCHOR_LIMIT <= x <= ANCHOR_LIMIT,
                -ANCHOR_LIMIT <= y <= ANCHOR_LIMIT,
                find_flip(sv1, x as int, y as int, 0) == find_flip(sv1, x as int, y as int, i as int),
            decreases 7 - i,
        {
            let ghost i0 = i as int;
            let id = tableau_id_of(i);
            let hit: bool;
            {
                let p = self.identifyPile(id);
                proof {
                    lemma_pile_wf(*self, id);
                }
                hit = if !p.empty() {
                    let sz = p.size();
                    let over = mouseOver(x, y, p.x, p.y + (sz as i64) * CARD_OFFSET);
                    over && !p.getTopCard().unwrap().isFaceUp
                } else {
                    false
                };
                proof {
                    assert(hit == flip_hit(sv1, x as int, y as int, i0));
                }
            }
            if hit {
                let ghost pre = self@;
                let p = self.identifyPileMut(id);
                p.flipTopCard();
                proof {
                    assert(find_flip(sv1, x as int, y as int, i0) == Option::Some(i0));
                    assert(self@ =~= spec_flip_top(pre, spec_tableau_id(i0)));
                    let cards = pre.pile_at(spec_tableau_id(i0)).cards;
                    let flipped = (CardView { isFaceUp: !cards.last().isFaceUp, ..cards.last() });
                    lemma_keys_drop_last(cards);
                    lemma_keys_push(cards.drop_last(), flipped);
                    assert(cards.update(cards.len() - 1, flipped) =~= cards.drop_last().push(
                        flipped,
                    ));
                    assert(self@.keys_total() =~= old(self)@.keys_total());
                    assert(self.wf()) by {
                        let q = self@.pile_at(spec_tableau_id(i0));
                        assert(forall|k: int|
                            0 <= k < q.cards.len() - 1 ==> q.cards[k] == cards[k]);
                        assert(fanned(q) && cards_bounded(q.cards) && own_initials(q));
                    }
                }
                return ;
            }
            i = i + 1;
            proof {
                assert(find_flip(sv1, x as int, y as int, i0) == find_flip(
                    sv1,
                    x as int,
                    y as int,
                    i0 + 1,
                ));
            }
        }
        proof {
            assert(find_flip(sv1, x as int, y as int, 7) is None);
        }
    }
}

/// Whether the pointer can seize cards from this tableau pile: the pile is
/// not empty, and the pointer lies over its fanned body or over its top
/// card.
pub open spec fn grab_hit(sv: StateView, mx: int, my: int, i: int) -> bool {
    let p = sv.pile_at(spec_tableau_id(i));
    &&& p.cards.len() > 0
    &&& (spec_mouse_over_fan(mx, my, p) || spec_mouse_over(
        mx,
        my,
        p.cards.last().x,
        p.cards.last().y,
    ))
}

/// The first tableau pile, in left-to-right order from position `i`, that
/// a grab attempt fires on.
pub open spec fn find_grab(sv: StateView, mx: int, my: int, i: int) -> Option<int>
    decreases 7 - i,
{
    if i >= 7 {
        Option::None
    } else if grab_hit(sv, mx, my, i) {
        Option::Some(i)
    } else {
        find_grab(sv, mx, my, i + 1)
    }
}

/// Moving the top card of the named pile into the transient grabbed pile.
pub open spec fn spec_grab_one(sv: StateView, id: PileIdentifier) -> StateView {
    let p = sv.pile_at(id);
    let sv2 = sv.with_pile(id, p.drop_top());
    sv2.with_pile(
        PileIdentifier::GrabbedCards,
        sv2.grabbedCards.add_grabbed(p.cards.last()),
    )
}

/// Moving the top `k` cards of the named pile, one by one, into the
/// transient grabbed pile; stops early if the pile runs out.
pub open spec fn spec_grab_run(sv: StateView, id: PileIdentifier, k: int) -> StateView
    decreases k,
{
    if k <= 0 || sv.pile_at(id).cards.len() == 0 {
        sv
    } else {
        spec_grab_run(spec_grab_one(sv, id), id, k - 1)
    }
}

/// What a grab attempt on tableau pile `i` does. Over the top card, just
/// that card moves into the grabbed pile. Over the fanned body, the card
/// under the pointer is computed from the fan-out offset; if it exists and
/// lies face-up, it moves into the grabbed pile together with every card
/// above it, preserving order.
pub open spec fn spec_grab_tableau(sv: StateView, mx: int, my: int, i: int) -> StateView {
    let p = sv.pile_at(spec_tableau_id(i));
    if spec_mouse_over(mx, my, p.cards.last().x, p.cards.last().y) {
        spec_grab_one(sv, spec_tableau_id(i))
    } else {
        let idx = (my - PILE_Y) / (CARD_OFFSET as int);
        if 0 <= idx < p.cards.len() && p.cards[idx].isFaceUp {
            spec_grab_run(sv, spec_tableau_id(i), p.cards.len() - idx)
        } else {
            sv
        }
    }
}

/// Whether the pointer can seize the visible card of this foundation pile.
pub open spec fn final_grab_hit(sv: StateView, mx: int, my: int, i: int) -> bool {
    let p = sv.pile_at(spec_final_id(i));
    p.cards.len() > 0 && spec_mouse_over(mx, my, p.x, p.y)
}

/// The first foundation pile, in left-to-right order from position `i`,
/// that a grab attempt fires on.
pub open spec fn find_final_grab(sv: StateView, mx: int, my: int, i: int) -> Option<int>
    decreases 4 - i,
{
    if i >= 4 {
        Option::None
    } else if final_grab_hit(sv, mx, my, i) {
        Option::Some(i)
    } else {
        find_final_grab(sv, mx, my, i + 1)
    }
}

/// A grabbed card following the pointer, centered under it.
pub open spec fn tracked_card(c: CardView, mx: int, my: int) -> CardView {
    CardView { x: mx - CARD_WIDTH / 2, y: my - CARD_HEIGHT / 2, ..c }
}

/// Every grabbed card moved to follow the pointer.
pub open spec fn spec_track(sv: StateView, mx: int, my: int) -> StateView {
    sv.with_pile(
        PileIdentifier::GrabbedCards,
        sv.grabbedCards.with_cards(
            sv.grabbedCards.cards.map_values(|c: CardView| tracked_card(c, mx, my)),
        ),
    )
}

/// What one pointer-motion event does. While the button is held and
/// nothing is grabbed yet, a grab is attempted: first on the tableau
/// piles, then on the foundation piles, then on the discard pile, each
/// phase examining the state the previous one left. Afterwards every
/// grabbed card follows the pointer.
pub open spec fn spec_mouse_motion(sv: StateView, mx: int, my: int) -> StateView {
    let sv1 = if sv.mouseDown && sv.grabbedCards.cards.len() == 0 {
        let svt = match find_grab(sv, mx, my, 0) {
            Option::Some(i) => spec_grab_tableau(sv, mx, my, i),
            Option::None => sv,
        };
        let svf = match find_final_grab(svt, mx, my, 0) {
            Option::Some(i) => spec_grab_one(svt, spec_final_id(i)),
            Option::None => svt,
        };
        if svf.discard.cards.len() > 0 && spec_mouse_over(
            mx,
            my,
            DISCARD_X as int,
            DISCARD_Y as int,
        ) {
            spec_grab_one(svf, PileIdentifier::Discard)
        } else {
            svf
        }
    } else {
        sv
    };
    spec_track(sv1, mx, my)
}

impl State {
    /// Moves the top card of the named pile into the grabbed pile.
    fn grabFromPile(&mut self, id: PileIdentifier)
        requires
            old(self).wf(),
            is_tableau_id(id) || is_final_id(id) || id == PileIdentifier::Discard,
            old(self)@.pile_at(id).cards.len() > 0,
        ensures
            final(self)@ == spec_grab_one(old(self)@, id),
            final(self).wf(),
            final(self)@.keys_total() == old(self)@.keys_total(),
    {
        proof {
            lemma_pile_wf(*old(self), id);
        }
        let p = self.identifyPileMut(id);
        let removed = p.removeCard().unwrap();
        let ghost mid = self@;
        proof {
            assert(self.grabbedCards@ == old(self)@.grabbedCards);
            assert(self@.total_len() == 51);
        }
        self.grabbedCards.addToGrabbed(removed);
        proof {
            assert(self@ =~= spec_grab_one(old(self)@, id));
            lemma_keys_drop_last(old(self)@.pile_at(id).cards);
            lemma_keys_push(old(self)@.grabbedCards.cards, self@.grabbedCards.cards.last());
            assert(self@.keys_total() =~= old(self)@.keys_total());
            assert(self.wf()) by {
                let src = self@.pile_at(id);
                assert(forall|k: int|
                    0 <= k < src.cards.len() ==> src.cards[k] == old(self)@.pile_at(id).cards[k]);
                assert(cards_bounded(src.cards) && own_initials(src));
                assert(is_tableau_id(id) ==> fanned(src));
                assert(!is_tableau_id(id) ==> flushed(src));
                let g = self@.grabbedCards;
                assert(g.cards.last().initialPile == id);
                assert(forall|k: int|
                    0 <= k < g.cards.len() - 1 ==> g.cards[k] == old(
                        self,
                    )@.grabbedCards.cards[k]);
                assert(grabbed_initials(g.cards));
                assert(cards_bounded(g.cards)) by {
                    assert(g.cards.last().x == 0 && g.cards.last().y == (g.cards.len() - 1)
                        * CARD_OFFSET);
                    assert(0 <= (g.cards.len() - 1) * CARD_OFFSET <= 52 * CARD_OFFSET);
                }
            }
        }
    }

    /// The first phase of a grab attempt: the tableau piles, in order,
    /// first hit wins.
    fn grabPhaseTableau(&mut self, x: i64, y: i64)
        requires
            old(self).wf(),
            -ANCHOR_LIMIT <= x <= ANCHOR_LIMIT,
            -ANCHOR_LIMIT <= y <= ANCHOR_LIMIT,
        ensures
            final(self)@ == (match find_grab(old(self)@, x as int, y as int, 0) {
                Option::Some(i) => spec_grab_tableau(old(self)@, x as int, y as int, i),
                Option::None => old(self)@,
            }),
            final(self).wf(),
            final(self)@.keys_total() == old(self)@.keys_total(),
    {
        let ghost sv0 = self@;
        let mut i: usize = 0;
        let mut ti: Option<usize> = Option::None;
        while i < 7
            invariant
                self.wf(),
                self@ == sv0,
                i <= 7,
                -ANCHOR_LIMIT <= x <= ANCHOR_LIMIT,
                -ANCHOR_LIMIT <= y <= ANCHOR_LIMIT,
                match ti {
                    Option::Some(k) => k == i && i < 7 && grab_hit(
                        sv0,
                        x as int,
                        y as int,
                        k as int,
                    ) && find_grab(sv0, x as int, y as int, 0) == Option::Some(k as int),
                    Option::None => find_grab(sv0, x as int, y as int, 0) == find_grab(
                        sv0,
                        x as int,
                        y as int,
                        i as int,
                    ),
                },
            ensures
                match ti {
                    Option::Some(k) => k < 7 && grab_hit(sv0, x as int, y as int, k as int)
                        && find_grab(sv0, x as int, y as int, 0) == Option::Some(k as int),
                    Option::None => find_grab(sv0, x as int, y as int, 0) is None,
                },
            decreases 7 - i,
        {
            let ghost i0 = i as int;
            let id = tableau_id_of(i);
            let p = self.identifyPile(id);
            proof {
                lemma_pile_wf(*self, id);
            }
            let hit = match p.getTopCard() {
                Option::Some(top) => mouseIsOverPile(x, y, p) || mouseOver(x, y, top.x, top.y),
                Option::None => false,
            };
            proof {
                assert(hit == grab_hit(sv0, x as int, y as int, i0));
            }
            if hit {
                ti = Option::Some(i);
                break ;
            }
            i = i + 1;
            proof {
                assert(find_grab(sv0, x as int, y as int, i0) == find_grab(
                    sv0,
                    x as int,
                    y as int,
                    i0 + 1,
                ));
            }
        }
        if let Option::Some(hit_i) = ti {
            let ghost i0 = hit_i as int;
            let id = tableau_id_of(hit_i);
            proof {
                lemma_pile_wf(*self, id);
            }
            let top = *self.identifyPile(id).getTopCard().unwrap();
            if mouseOver(x, y, top.x, top.y) {
                self.grabFromPile(id);
                proof {
                    assert(spec_mouse_over(
                        x as int,
                        y as int,
                        sv0.pile_at(id).cards.last().x,
                        sv0.pile_at(id).cards.last().y,
                    ));
                    assert(self@ == spec_grab_tableau(sv0, x as int, y as int, i0));
                }
            } else {
                proof {
                    assert(spec_mouse_over_fan(x as int, y as int, sv0.pile_at(id)));
                    assert(sv0.pile_at(id).y == PILE_Y);
                }
                let diff = y - PILE_Y;
                let cardIndex = (diff / CARD_OFFSET) as usize;
                let ghost idx = (y as int - PILE_Y) / (CARD_OFFSET as int);
                proof {
                    assert(0 <= diff / CARD_OFFSET <= ANCHOR_LIMIT);
                    assert(cardIndex as int == idx);
                }
                let sz = self.identifyPile(id).size();
                let faceup = match self.identifyPile(id).getCardByIndex(cardIndex) {
                    Option::Some(c) => c.isFaceUp,
                    Option::None => false,
                };
                proof {
                    assert(faceup == (0 <= idx < sv0.pile_at(id).cards.len() && sv0.pile_at(
                        id,
                    ).cards[idx].isFaceUp));
                }
                if faceup {
                    let total = sz - cardIndex;
                    let mut k: usize = 0;
                    while k < total
                        invariant
                            self.wf(),
                            k <= total,
                            total == sz - cardIndex,
                            cardIndex < sz,
                            is_tableau_id(id),
                            self@.pile_at(id).cards.len() == sz - k,
                            self@.keys_total() == sv0.keys_total(),
                            spec_grab_run(sv0, id, total as int) == spec_grab_run(
                                self@,
                                id,
                                total - k,
                            ),
                        decreases total - k,
                    {
                        self.grabFromPile(id);
                        k = k + 1;
                    }
                    proof {
                        assert(spec_grab_run(self@, id, 0) == self@);
                        assert(self@ == spec_grab_tableau(sv0, x as int, y as int, i0));
                    }
                } else {
                    proof {
                        assert(self@ == spec_grab_tableau(sv0, x as int, y as int, i0));
                    }
                }
            }
            proof {
                assert(find_grab(sv0, x as int, y as int, 0) == Option::Some(i0));
            }
        } else {
            proof {
                assert(find_grab(sv0, x as int, y as int, 0) is None);
            }
        }
    }

    /// The second phase of a grab attempt: the foundation piles, in order,
    /// first hit wins; the hit pile's visible card moves into the grabbed
    /// pile.
    fn grabPhaseFinals(&mut self, x: i64, y: i64)
        requires
            old(self).wf(),
            -ANCHOR_LIMIT <= x <= ANCHOR_LIMIT,
            -ANCHOR_LIMIT <= y <= ANCHOR_LIMIT,
        ensures
            final(self)@ == (match find_final_grab(old(self)@, x as int, y as int, 0) {
                Option::Some(i) => spec_grab_one(old(self)@, spec_final_id(i)),
                Option::None => old(self)@,
            }),
            final(self).wf(),
            final(self)@.keys_total() == old(self)@.keys_total(),
    {
        let ghost svt = self@;
        let mut fi: usize = 0;
        let mut ff: Option<usize> = Option::None;
        while fi < 4
            invariant
                self.wf(),
                self@ == svt,
                fi <= 4,
                -ANCHOR_LIMIT <= x <= ANCHOR_LIMIT,
                -ANCHOR_LIMIT <= y <= ANCHOR_LIMIT,
                match ff {
                    Option::Some(k) => k == fi && fi < 4 && final_grab_hit(
                        svt,
                        x as int,
                        y as int,
                        k as int,
                    ) && find_final_grab(svt, x as int, y as int, 0) == Option::Some(k as int),
                    Option::None => find_final_grab(svt, x as int, y as int, 0)
                        == find_final_grab(svt, x as int, y as int, fi as int),
                },
            ensures
                match ff {
                    Option::Some(k) => k < 4 && final_grab_hit(svt, x as int, y as int, k as int)
                        && find_final_grab(svt, x as int, y as int, 0) == Option::Some(k as int),
                    Option::None => find_final_grab(svt, x as int, y as int, 0) is None,
                },
            decreases 4 - fi,
        {
            let ghost f0 = fi as int;
            let id = final_id_of(fi);
            let p = self.identifyPile(id);
            proof {
                lemma_pile_wf(*self, id);
            }
            let hit = match p.getTopCard() {
                Option::Some(_) => mouseOver(x, y, p.x, p.y),
                Option::None => false,
            };
            proof {
                assert(hit == final_grab_hit(svt, x as int, y as int, f0));
            }
            if hit {
                ff = Option::Some(fi);
                break ;
            }
            fi = fi + 1;
            proof {
                assert(find_final_grab(svt, x as int, y as int, f0) == find_final_grab(
                    svt,
                    x as int,
                    y as int,
                    f0 + 1,
                ));
            }
        }
        if let Option::Some(hit_f) = ff {
            let id = final_id_of(hit_f);
            self.grabFromPile(id);
            proof {
                assert(find_final_grab(svt, x as int, y as int, 0) == Option::Some(hit_f as int));
            }
        } else {
            proof {
                assert(find_final_grab(svt, x as int, y as int, 0) is None);
            }
        }
    }

    /// Moves every grabbed card to follow the pointer, centered under it.
    fn trackGrabbed(&mut self, x: i64, y: i64)
        requires
            old(self).wf(),
            -ANCHOR_LIMIT <= x <= ANCHOR_LIMIT,
            -ANCHOR_LIMIT <= y <= ANCHOR_LIMIT,
        ensures
            final(self)@ == spec_track(old(self)@, x as int, y as int),
            final(self).wf(),
            final(self)@.keys_total() == old(self)@.keys_total(),
    {
        let ghost svg = self@;
        let mut newcards: Vec<Card> = Vec::new();
        let mut gi: usize = 0;
        while gi < self.grabbedCards.cards.len()
            invariant
                self.wf(),
                self@ == svg,
                gi <= svg.grabbedCards.cards.len(),
                -ANCHOR_LIMIT <= x <= ANCHOR_LIMIT,
                -ANCHOR_LIMIT <= y <= ANCHOR_LIMIT,
                newcards@.len() == gi,
                forall|t: int|
                    0 <= t < gi ==> (#[trigger] newcards@[t])@ == tracked_card(
                        svg.grabbedCards.cards[t],
                        x as int,
                        y as int,
                    ),
            decreases svg.grabbedCards.cards.len() - gi,
        {
            let ghost n = gi as int;
            let mut c = self.grabbedCards.cards[gi];
            c.x = x - CARD_WIDTH / 2;
            c.y = y - CARD_HEIGHT / 2;
            newcards.push(c);
            gi = gi + 1;
            proof {
                assert(c@ == tracked_card(svg.grabbedCards.cards[n], x as int, y as int));
            }
        }
        self.grabbedCards.cards = newcards;
        proof {
            assert(self@.grabbedCards.cards =~= svg.grabbedCards.cards.map_values(
                |c: CardView| tracked_card(c, x as int, y as int),
            ));
            assert(self@ =~= spec_track(svg, x as int, y as int));
            assert(self@.keys_total() =~= svg.keys_total()) by {
                assert(self@.grabbedCards.cards.map_values(|cc: CardView| cc.key())
                    =~= svg.grabbedCards.cards.map_values(|cc: CardView| cc.key()));
            }
            assert(self.wf()) by {
                let g = self@.grabbedCards;
                assert(forall|k: int|
                    0 <= k < g.cards.len() ==> (#[trigger] g.cards[k]) == tracked_card(
                        svg.grabbedCards.cards[k],
                        x as int,
                        y as int,
                    ));
                assert(cards_bounded(g.cards));
                assert(grabbed_initials(g.cards));
            }
        }
    }

    /// Handles a pointer-motion event at the given pointer position.
    pub fn mouse_motion_event(&mut self, x: i64, y: i64)
        requires
            old(self).wf(),
            -ANCHOR_LIMIT <= x <= ANCHOR_LIMIT,
            -ANCHOR_LIMIT <= y <= ANCHOR_LIMIT,
        ensures
            final(self)@ == spec_mouse_motion(old(self)@, x as int, y as int),
            final(self).wf(),
            final(self)@.keys_total() == old(self)@.keys_total(),
    {
        let ghost sv0 = self@;
        if self.mouseDown && self.grabbedCards.empty() {
            self.grabPhaseTableau(x, y);
            self.grabPhaseFinals(x, y);
            let ghost svf = self@;
            let take_discard = match self.discard.getTopCard() {
                Option::Some(_) => mouseOver(x, y, DISCARD_X, DISCARD_Y),
                Option::None => false,
            };
            if take_discard {
                self.grabFromPile(PileIdentifier::Discard);
            }
            proof {
                assert(self@ == (if svf.discard.cards.len() > 0 && spec_mouse_over(
                    x as int,
                    y as int,
                    DISCARD_X as int,
                    DISCARD_Y as int,
                ) {
                    spec_grab_one(svf, PileIdentifier::Discard)
                } else {
                    svf
                }));
            }
        }
        self.trackGrabbed(x, y);
        proof {
            assert(self@ =~= spec_mouse_motion(sv0, x as int, y as int));
        }
    }
}


fn final_id_of(i: usize) -> (id: PileIdentifier)
    requires
        i < 4,
    ensures
        id == spec_final_id(i as int),
{
    if i == 0 {
        PileIdentifier::Final1
    } else if i == 1 {
        PileIdentifier::Final2
    } else if i == 2 {
        PileIdentifier::Final3
    } else {
        PileIdentifier::Final4
    }
}

/// Whether the grabbed run may drop on tableau pile `i`: the pointer lies
/// over the slot just past the pile's fan, and the bottom-most grabbed
/// card satisfies the tableau stacking rule there.
pub open spec fn drop_hit(sv: StateView, mx: int, my: int, i: int) -> bool {
    let p = sv.pile_at(spec_tableau_id(i));
    &&& sv.grabbedCards.cards.len() > 0
    &&& spec_mouse_over(mx, my, p.x, PILE_Y + p.cards.len() * CARD_OFFSET)
    &&& sv.can_stack(sv.grabbedCards.cards.last(), spec_tableau_id(i))
}

/// The first tableau pile, in left-to-right order from position `i`, that
/// the grabbed run may drop on.
pub open spec fn find_drop(sv: StateView, mx: int, my: int, i: int) -> Option<int>
    decreases 7 - i,
{
    if i >= 7 {
        Option::None
    } else if drop_hit(sv, mx, my, i) {
        Option::Some(i)
    } else {
        find_drop(sv, mx, my, i + 1)
    }
}

/// Whether the grabbed run may drop on foundation pile `i`: the bottom-most
/// grabbed card satisfies the foundation stacking rule there. The pointer
/// position plays no part: a foundation drop succeeds from anywhere.
pub open spec fn final_drop_hit(sv: StateView, i: int) -> bool {
    sv.grabbedCards.cards.len() > 0 && sv.can_stack(
        sv.grabbedCards.cards.last(),
        spec_final_id(i),
    )
}

/// The first foundation pile, in left-to-right order from position `i`,
/// that the grabbed run may drop on.
pub open spec fn find_final_drop(sv: StateView, i: int) -> Option<int>
    decreases 4 - i,
{
    if i >= 4 {
        Option::None
    } else if final_drop_hit(sv, i) {
        Option::Some(i)
    } else {
        find_final_drop(sv, i + 1)
    }
}

/// The grabbed run moved, in reverse order, onto the named pile with
/// offset placement, so the original bottom card goes first and the
/// relative order is preserved.
pub open spec fn spec_drop_offset(sv: StateView, id: PileIdentifier) -> StateView {
    let run = sv.grabbedCards.cards.reverse();
    let sv1 = sv.with_pile(
        PileIdentifier::GrabbedCards,
        sv.grabbedCards.with_cards(Seq::empty()),
    );
    sv1.with_pile(id, add_offset_all(sv1.pile_at(id), run))
}

/// The grabbed run moved, in reverse order, onto the named pile with flush
/// placement.
pub open spec fn spec_drop_flush(sv: StateView, id: PileIdentifier) -> StateView {
    let run = sv.grabbedCards.cards.reverse();
    let sv1 = sv.with_pile(
        PileIdentifier::GrabbedCards,
        sv.grabbedCards.with_cards(Seq::empty()),
    );
    sv1.with_pile(id, add_flush_all(sv1.pile_at(id), run))
}

/// One card returned to its recorded origin: flush placement when that
/// origin is the discard pile or a foundation pile, offset placement
/// otherwise.
pub open spec fn revert_one(sv: StateView, c: CardView) -> StateView {
    let p = sv.pile_at(c.initialPile);
    match c.initialPile {
        PileIdentifier::Discard | PileIdentifier::Final1 | PileIdentifier::Final2
            | PileIdentifier::Final3 | PileIdentifier::Final4 => sv.with_pile(
            c.initialPile,
            p.add_flush(c),
        ),
        _ => sv.with_pile(c.initialPile, p.add_offset(c)),
    }
}

/// A run of cards returned to their recorded origins, first element first.
pub open spec fn revert_run(sv: StateView, cs: Seq<CardView>) -> StateView
    decreases cs.len(),
{
    if cs.len() == 0 {
        sv
    } else {
        revert_run(revert_one(sv, cs.first()), cs.drop_first())
    }
}

/// Every grabbed card returned to its recorded origin, bottom-most first.
pub open spec fn spec_revert(sv: StateView) -> StateView {
    let run = sv.grabbedCards.cards.reverse();
    let sv1 = sv.with_pile(
        PileIdentifier::GrabbedCards,
        sv.grabbedCards.with_cards(Seq::empty()),
    );
    revert_run(sv1, run)
}

/// What one pointer-up event does. If a drag was active, the grabbed run
/// drops onto the first tableau pile whose slot the pointer covers and
/// whose stacking rule its bottom card satisfies; failing that, onto the
/// first foundation pile whose rule it satisfies, pointer position
/// ignored; failing both, every grabbed card returns to its recorded
/// origin. The drag flag falls in every case.
pub open spec fn spec_mouse_up(sv: StateView, mx: int, my: int) -> StateView {
    let sv1 = if sv.mouseDown && sv.grabbedCards.cards.len() > 0 {
        match find_drop(sv, mx, my, 0) {
            Option::Some(i) => spec_drop_offset(sv, spec_tableau_id(i)),
            Option::None => match find_final_drop(sv, 0) {
                Option::Some(i) => spec_drop_flush(sv, spec_final_id(i)),
                Option::None => spec_revert(sv),
            },
        }
    } else {
        sv
    };
    StateView { mouseDown: false, ..sv1 }
}

impl State {
    /// Scans the tableau piles for the first one the grabbed run may drop
    /// on.
    fn findDropTableau(&self, x: i64, y: i64) -> (r: Option<usize>)
        requires
            self.wf(),
            -ANCHOR_LIMIT <= x <= ANCHOR_LIMIT,
            -ANCHOR_LIMIT <= y <= ANCHOR_LIMIT,
            self@.grabbedCards.cards.len() > 0,
        ensures
            match r {
                Option::Some(i) => i < 7 && find_drop(self@, x as int, y as int, 0)
                    == Option::Some(i as int),
                Option::None => find_drop(self@, x as int, y as int, 0) is None,
            },
    {
        let last = *self.grabbedCards.getTopCard().unwrap();
        let mut i: usize = 0;
        let mut ti: Option<usize> = Option::None;
        while i < 7
            invariant
                self.wf(),
                self@.grabbedCards.cards.len() > 0,
                last@ == self@.grabbedCards.cards.last(),
                i <= 7,
                -ANCHOR_LIMIT <= x <= ANCHOR_LIMIT,
                -ANCHOR_LIMIT <= y <= ANCHOR_LIMIT,
                match ti {
                    Option::Some(k) => k == i && i < 7 && drop_hit(
                        self@,
                        x as int,
                        y as int,
                        k as int,
                    ) && find_drop(self@, x as int, y as int, 0) == Option::Some(k as int),
                    Option::None => find_drop(self@, x as int, y as int, 0) == find_drop(
                        self@,
                        x as int,
                        y as int,
                        i as int,
                    ),
                },
            ensures
                match ti {
                    Option::Some(k) => k < 7 && find_drop(self@, x as int, y as int, 0)
                        == Option::Some(k as int),
                    Option::None => find_drop(self@, x as int, y as int, 0) is None,
                },
            decreases 7 - i,
        {
            let ghost i0 = i as int;
            let id = tableau_id_of(i);
            let p = self.identifyPile(id);
            proof {
                lemma_pile_wf(*self, id);
            }
            let sz = p.size();
            let hit = mouseOver(x, y, p.x, PILE_Y + (sz as i64) * CARD_OFFSET)
                && self.canBeStacked(&last, id);
            proof {
                assert(hit == drop_hit(self@, x as int, y as int, i0));
            }
            if hit {
                proof {
                    assert(find_drop(self@, x as int, y as int, i0) == Option::Some(i0));
                }
                ti = Option::Some(i);
                break ;
            }
            i = i + 1;
            proof {
                assert(find_drop(self@, x as int, y as int, i0) == find_drop(
                    self@,
                    x as int,
                    y as int,
                    i0 + 1,
                ));
            }
        }
        ti
    }

    /// Scans the foundation piles for the first one the grabbed run may
    /// drop on.
    fn findDropFinal(&self) -> (r: Option<usize>)
        requires
            self.wf(),
            self@.grabbedCards.cards.len() > 0,
        ensures
            match r {
                Option::Some(i) => i < 4 && find_final_drop(self@, 0) == Option::Some(i as int),
                Option::None => find_final_drop(self@, 0) is None,
            },
    {
        let last = *self.grabbedCards.getTopCard().unwrap();
        let mut fi: usize = 0;
        let mut ff: Option<usize> = Option::None;
        while fi < 4
            invariant
                self.wf(),
                self@.grabbedCards.cards.len() > 0,
                last@ == self@.grabbedCards.cards.last(),
                fi <= 4,
                match ff {
                    Option::Some(k) => k == fi && fi < 4 && final_drop_hit(self@, k as int)
                        && find_final_drop(self@, 0) == Option::Some(k as int),
                    Option::None => find_final_drop(self@, 0) == find_final_drop(
                        self@,
                        fi as int,
                    ),
                },
            ensures
                match ff {
                    Option::Some(k) => k < 4 && find_final_drop(self@, 0) == Option::Some(
                        k as int,
                    ),
                    Option::None => find_final_drop(self@, 0) is None,
                },
            decreases 4 - fi,
        {
            let ghost f0 = fi as int;
            let id = final_id_of(fi);
            let hit = self.canBeStacked(&last, id);
            proof {
                assert(hit == final_drop_hit(self@, f0));
            }
            if hit {
                proof {
                    assert(find_final_drop(self@, f0) == Option::Some(f0));
                }
                ff = Option::Some(fi);
                break ;
            }
            fi = fi + 1;
            proof {
                assert(find_final_drop(self@, f0) == find_final_drop(self@, f0 + 1));
            }
        }
        ff
    }

    /// Moves the entire grabbed run, in reverse order, onto the named pile:
    /// offset placement for a tableau pile, flush placement for a
    /// foundation pile.
    #[verifier::rlimit(100)]
    fn moveGrabbed(&mut self, id: PileIdentifier, flushMode: bool)
        requires
            old(self).wf(),
            is_tableau_id(id) || is_final_id(id),
            flushMode == is_final_id(id),
        ensures
            final(self)@ == (if flushMode {
                spec_drop_flush(old(self)@, id)
            } else {
                spec_drop_offset(old(self)@, id)
            }),
            final(self).wf(),
            final(self)@.keys_total() == old(self)@.keys_total(),
    {
        broadcast use vstd::seq_lib::group_to_multiset_ensures;

        let run = self.grabbedCards.removeCards();
        let ghost runv = run@.map_values(|c: Card| c@);
        let ghost sv1 = self@;
        let mut k: usize = 0;
        proof {
            lemma_keys_empty();
            assert(runv.take(0) =~= Seq::<CardView>::empty());
            assert(keys_of(self@.pile_at(id).cards) =~= keys_of(sv1.pile_at(id).cards).add(
                keys_of(runv.take(0)),
            ));
            assert(self@ =~= (if flushMode {
                sv1.with_pile(id, add_flush_all(sv1.pile_at(id), runv.take(0)))
            } else {
                sv1.with_pile(id, add_offset_all(sv1.pile_at(id), runv.take(0)))
            }));
        }
        while k < run.len()
            invariant
                old(self).wf(),
                is_tableau_id(id) || is_final_id(id),
                flushMode == is_final_id(id),
                k <= runv.len(),
                run@.map_values(|c: Card| c@) == runv,
                runv == old(self)@.grabbedCards.cards.reverse(),
                sv1 == old(self)@.with_pile(
                    PileIdentifier::GrabbedCards,
                    old(self)@.grabbedCards.with_cards(Seq::empty()),
                ),
                self@ == (if flushMode {
                    sv1.with_pile(id, add_flush_all(sv1.pile_at(id), runv.take(k as int)))
                } else {
                    sv1.with_pile(id, add_offset_all(sv1.pile_at(id), runv.take(k as int)))
                }),
                self.wf_except_count(),
                self@.total_len() + runv.len() - k == 52,
                keys_of(self@.pile_at(id).cards) == keys_of(sv1.pile_at(id).cards).add(
                    keys_of(runv.take(k as int)),
                ),
            decreases runv.len() - k,
        {
            let ghost n = k as int;
            let ghost pre = self@;
            let card = run[k];
            let p = self.identifyPileMut(id);
            proof {
                assert(p@ == pre.pile_at(id));
                assert(p.wf()) by {
                    assert(p@.cards.len() <= pre.total_len());
                }
            }
            if flushMode {
                p.addNoOffset(card);
            } else {
                p.addCard(card);
            }
            k = k + 1;
            proof {
                let pushed = self@.pile_at(id).cards.last();
                assert(runv.take(n + 1) =~= runv.take(n).push(runv[n]));
                if flushMode {
                    lemma_add_flush_all_push(sv1.pile_at(id), runv.take(n), runv[n]);
                } else {
                    lemma_add_offset_all_push(sv1.pile_at(id), runv.take(n), runv[n]);
                }
                assert(self@ =~= (if flushMode {
                    sv1.with_pile(id, add_flush_all(sv1.pile_at(id), runv.take(n + 1)))
                } else {
                    sv1.with_pile(id, add_offset_all(sv1.pile_at(id), runv.take(n + 1)))
                }));
                lemma_keys_push(pre.pile_at(id).cards, pushed);
                lemma_keys_push(runv.take(n), runv[n]);
                assert(pushed.key() == runv[n].key());
                assert(keys_of(self@.pile_at(id).cards) =~= keys_of(sv1.pile_at(id).cards).add(
                    keys_of(runv.take(n + 1)),
                ));
                assert(self.wf_except_count()) by {
                    let q = self@.pile_at(id);
                    assert(forall|t: int|
                        0 <= t < q.cards.len() - 1 ==> q.cards[t] == pre.pile_at(id).cards[t]);
                    assert(cards_bounded(q.cards) && own_initials(q));
                    assert(is_tableau_id(id) ==> fanned(q));
                    assert(is_final_id(id) ==> flushed(q));
                }
            }
        }
        proof {
            assert(runv.take(runv.len() as int) =~= runv);
            assert(self@ =~= (if flushMode {
                spec_drop_flush(old(self)@, id)
            } else {
                spec_drop_offset(old(self)@, id)
            }));
            lemma_keys_reverse(old(self)@.grabbedCards.cards);
            lemma_keys_empty();
            assert(self@.keys_total() =~= old(self)@.keys_total());
        }
    }

    /// Returns one card to its recorded origin pile: flush placement when
    /// that origin is the discard pile or a foundation pile, offset
    /// placement otherwise.
    fn revertOne(&mut self, card: Card)
        requires
            old(self).wf_except_count(),
            old(self)@.total_len() <= 51,
            card@.initialPile != PileIdentifier::GrabbedCards,
            card@.initialPile != PileIdentifier::Deck,
        ensures
            final(self)@ == revert_one(old(self)@, card@),
            final(self).wf_except_count(),
            final(self)@.total_len() == old(self)@.total_len() + 1,
            final(self)@.keys_total() == old(self)@.keys_total().insert(card@.key()),
            final(self)@.grabbedCards == old(self)@.grabbedCards,
    {
        let dest = card.initialPile;
        let flushMode = match dest {
            PileIdentifier::Discard | PileIdentifier::Final1 | PileIdentifier::Final2
                | PileIdentifier::Final3 | PileIdentifier::Final4 => true,
            _ => false,
        };
        let p = self.identifyPileMut(dest);
        proof {
            assert(p@ == old(self)@.pile_at(dest));
            assert(p.wf()) by {
                assert(p@.cards.len() <= old(self)@.total_len());
            }
        }
        if flushMode {
            p.addNoOffset(card);
        } else {
            p.addCard(card);
        }
        proof {
            let pushed = self@.pile_at(dest).cards.last();
            assert(self@ =~= revert_one(old(self)@, card@));
            lemma_keys_push(old(self)@.pile_at(dest).cards, pushed);
            assert(pushed.key() == card@.key());
            assert(self@.keys_total() =~= old(self)@.keys_total().insert(card@.key()));
            assert(self.wf_except_count()) by {
                let q = self@.pile_at(dest);
                assert(forall|t: int|
                    0 <= t < q.cards.len() - 1 ==> q.cards[t] == old(self)@.pile_at(
                        dest,
                    ).cards[t]);
                assert(cards_bounded(q.cards) && own_initials(q));
                assert(is_tableau_id(dest) ==> fanned(q));
                assert((dest == PileIdentifier::Discard || is_final_id(dest)) ==> flushed(q));
            }
        }
    }

    /// Returns every grabbed card, bottom-most first, to its recorded
    /// origin pile.
    fn revertGrabbed(&mut self)
        requires
            old(self).wf(),
        ensures
            final(self)@ == spec_revert(old(self)@),
            final(self).wf(),
            final(self)@.keys_total() == old(self)@.keys_total(),
    {
        let run = self.grabbedCards.removeCards();
        let ghost runv = run@.map_values(|c: Card| c@);
        let ghost sv1 = self@;
        let mut k: usize = 0;
        proof {
            lemma_keys_empty();
            assert(runv.skip(0) =~= runv);
            lemma_keys_reverse(old(self)@.grabbedCards.cards);
            assert(self@.keys_total().add(keys_of(runv.skip(0))) =~= old(self)@.keys_total());
        }
        while k < run.len()
            invariant
                old(self).wf(),
                k <= runv.len(),
                run@.map_values(|c: Card| c@) == runv,
                runv == old(self)@.grabbedCards.cards.reverse(),
                sv1 == old(self)@.with_pile(
                    PileIdentifier::GrabbedCards,
                    old(self)@.grabbedCards.with_cards(Seq::empty()),
                ),
                forall|t: int|
                    0 <= t < runv.len() ==> (#[trigger] runv[t]).initialPile
                        != PileIdentifier::GrabbedCards && runv[t].initialPile
                        != PileIdentifier::Deck,
                revert_run(sv1, runv) == revert_run(self@, runv.skip(k as int)),
                self.wf_except_count(),
                self@.total_len() + runv.len() - k == 52,
                self@.keys_total().add(keys_of(runv.skip(k as int))) == old(self)@.keys_total(),
            decreases runv.len() - k,
        {
            let ghost n = k as int;
            let ghost pre = self@;
            let card = run[k];
            self.revertOne(card);
            k = k + 1;
            proof {
                assert(runv.skip(n).drop_first() =~= runv.skip(n + 1));
                assert(runv.skip(n).first() == runv[n]);
                assert(revert_run(pre, runv.skip(n)) == revert_run(
                    revert_one(pre, runv[n]),
                    runv.skip(n + 1),
                ));
                lemma_keys_drop_first(runv.skip(n));
                assert(self@.keys_total().add(keys_of(runv.skip(n + 1))) =~= old(
                    self,
                )@.keys_total());
            }
        }
        proof {
            assert(runv.skip(runv.len() as int) =~= Seq::<CardView>::empty());
            assert(self@.keys_total() =~= old(self)@.keys_total());
            assert(self@ == spec_revert(old(self)@));
        }
    }

    /// Handles a pointer-up event at the given pointer position.
    pub fn mouse_button_up_event(&mut self, x: i64, y: i64)
        requires
            old(self).wf(),
            -ANCHOR_LIMIT <= x <= ANCHOR_LIMIT,
            -ANCHOR_LIMIT <= y <= ANCHOR_LIMIT,
        ensures
            final(self)@ == spec_mouse_up(old(self)@, x as int, y as int),
            final(self).wf(),
            final(self)@.keys_total() == old(self)@.keys_total(),
    {
        let ghost sv0 = self@;
        if self.mouseDown && !self.grabbedCards.empty() {
            match self.findDropTableau(x, y) {
                Option::Some(i) => {
                    let id = tableau_id_of(i);
                    self.moveGrabbed(id, false);
                },
                Option::None => {
                    match self.findDropFinal() {
                        Option::Some(i) => {
                            let id = final_id_of(i);
                            self.moveGrabbed(id, true);
                        },
                        Option::None => {
                            self.revertGrabbed();
                        },
                    }
                },
            }
        }
        self.mouseDown = false;
        proof {
            assert(self@ =~= spec_mouse_up(sv0, x as int, y as int));
        }
    }
}

/// A successful scan of the tableau piles names a pile the grab really
/// fires on.
proof fn lemma_find_grab_some(sv: StateView, mx: int, my: int, i: int, k: int)
    requires
        0 <= i,
        find_grab(sv, mx, my, i) == Option::Some(k),
    ensures
        i <= k < 7 && grab_hit(sv, mx, my, k),
    decreases 7 - i,
{
    if i < 7 && !grab_hit(sv, mx, my, i) {
        lemma_find_grab_some(sv, mx, my, i + 1, k);
    }
}

/// Law: a single card grabbed from the top of a tableau pile and released
/// over no valid destination returns to its exact pre-grab position and
/// pile membership: the pile holds the same run of cards again, and the
/// returned top card keeps its suit, rank, orientation, position and
/// recorded origin; the grabbed pile ends empty.
#[verifier::rlimit(100)]
pub proof fn lemma_revert_restores(s: State, mx: int, my: int, ux: int, uy: int, i: int)
    requires
        s.wf(),
        s@.mouseDown,
        s@.grabbedCards.cards.len() == 0,
        0 <= i < 7,
        find_grab(s@, mx, my, 0) == Option::Some(i),
        spec_mouse_over(
            mx,
            my,
            s@.pile_at(spec_tableau_id(i)).cards.last().x,
            s@.pile_at(spec_tableau_id(i)).cards.last().y,
        ),
        s@.pile_at(spec_tableau_id(i)).cards.last().isFaceUp,
        find_final_grab(spec_grab_one(s@, spec_tableau_id(i)), mx, my, 0) is None,
        !(spec_grab_one(s@, spec_tableau_id(i)).discard.cards.len() > 0 && spec_mouse_over(
            mx,
            my,
            DISCARD_X as int,
            DISCARD_Y as int,
        )),
        find_drop(spec_mouse_motion(s@, mx, my), ux, uy, 0) is None,
        find_final_drop(spec_mouse_motion(s@, mx, my), 0) is None,
    ensures
        ({
            let before = s@.pile_at(spec_tableau_id(i));
            let after = spec_mouse_up(spec_mouse_motion(s@, mx, my), ux, uy).pile_at(
                spec_tableau_id(i),
            );
            &&& after.cards.len() == before.cards.len()
            &&& (forall|j: int|
                0 <= j < before.cards.len() - 1 ==> after.cards[j] == before.cards[j])
            &&& after.cards.last().suit == before.cards.last().suit
            &&& after.cards.last().rank == before.cards.last().rank
            &&& after.cards.last().isFaceUp == before.cards.last().isFaceUp
            &&& after.cards.last().x == before.cards.last().x
            &&& after.cards.last().y == before.cards.last().y
            &&& after.cards.last().initialPile == before.cards.last().initialPile
        }),
        spec_mouse_up(spec_mouse_motion(s@, mx, my), ux, uy).grabbedCards.cards.len() == 0,
{
    let id = spec_tableau_id(i);
    let before = s@.pile_at(id);
    let top = before.cards.last();
    let g1 = spec_grab_one(s@, id);
    let sv2 = spec_mouse_motion(s@, mx, my);
    lemma_find_grab_some(s@, mx, my, 0, i);
    assert(before.cards.len() > 0);
    assert(spec_grab_tableau(s@, mx, my, i) == g1);
    assert(sv2 == spec_track(g1, mx, my));
    // the grabbed pile holds exactly the old top card, moved but otherwise unchanged
    let gc = sv2.grabbedCards.cards.last();
    assert(sv2.grabbedCards.cards.len() == 1);
    assert(gc.suit == top.suit && gc.rank == top.rank && gc.isFaceUp == top.isFaceUp
        && gc.initialPile == top.initialPile);
    // the grab took a tableau card, whose recorded origin is its own pile
    assert(top.initialPile == id);
    // release: no destination accepts, so the card reverts
    assert(sv2.mouseDown);
    let sv3 = spec_mouse_up(sv2, ux, uy);
    assert(sv3 == (StateView { mouseDown: false, ..spec_revert(sv2) }));
    let sv1r = sv2.with_pile(
        PileIdentifier::GrabbedCards,
        sv2.grabbedCards.with_cards(Seq::empty()),
    );
    let run = sv2.grabbedCards.cards.reverse();
    assert(run.len() == 1);
    assert(run.first() == gc) by {
        assert(run[0] == sv2.grabbedCards.cards[0]);
    }
    assert(run.drop_first() =~= Seq::<CardView>::empty());
    assert(revert_run(sv1r, run) == revert_run(revert_one(sv1r, gc), run.drop_first()));
    assert(revert_run(revert_one(sv1r, gc), Seq::<CardView>::empty()) == revert_one(sv1r, gc));
    assert(spec_revert(sv2) == revert_one(sv1r, gc));
    // the revert appends the card back with offset placement, at its old slot
    let pr = sv1r.pile_at(id);
    assert(pr == before.drop_top());
    assert(revert_one(sv1r, gc) == sv1r.with_pile(id, pr.add_offset(gc)));
    let after = sv3.pile_at(id);
    assert(after == pr.add_offset(gc));
    assert(after.cards.len() == before.cards.len());
    assert(after.cards.last() == offset_card(gc, pr.x, pr.y, before.cards.len() - 1, id));
    // the pile fans out, so the recomputed slot is the old position
    assert(top.x == before.x && top.y == before.y + (before.cards.len() - 1) * CARD_OFFSET);
    assert(forall|j: int| 0 <= j < before.cards.len() - 1 ==> after.cards[j] == before.cards[j]);
    assert(sv3.grabbedCards.cards.len() == 0);
}

} // verus!
