//! Selection state for a list of cards: a circular cursor over the list
//! and a bounded, ascending set of selected indices.  The rendering of the
//! list is an external concern; this module holds the rules the selection
//! obeys.

use vstd::prelude::*;

use crate::card::Card;
use crate::error::{ArithmeticError, WidgetError};

verus! {

/// Whether a selection is well-formed: its indices strictly ascend, so
/// it is a set.
pub open spec fn selection_wf(sel: Seq<usize>) -> bool {
    forall|k1: int, k2: int|
        0 <= k1 < k2 < sel.len() ==> (#[trigger] sel[k1]) < (#[trigger] sel[k2])
}

/// Whether a selection holds the given index.
pub open spec fn selection_has(sel: Seq<usize>, i: usize) -> bool {
    sel.contains(i)
}

/// Provides a bidirectional circular cursor over a list of cards with the
/// ability to select items at the cursor.
///
/// By default the list is unfocussed; the first step of the cursor lands
/// on an end of the list.
pub trait SelectableList where Self: Sized {
    /// The cards the selection ranges over.
    spec fn sel_cards(&self) -> Seq<Card>;

    /// The cursor position, when the list is focussed.
    spec fn sel_pos(&self) -> Option<usize>;

    /// The selected indices, in ascending order.
    spec fn sel_selected(&self) -> Seq<usize>;

    /// The largest number of simultaneous selections, when bounded.
    spec fn sel_limit(&self) -> Option<usize>;

    /// Moves the cursor to the next item, wrapping to the first after the
    /// last; an unfocussed cursor lands on the first item.  Fails, leaving
    /// the state unchanged, when a focussed cursor has no items to move
    /// over.
    fn move_next(&mut self) -> (r: Result<(), WidgetError>)
        ensures
            final(self).sel_cards() == old(self).sel_cards(),
            final(self).sel_selected() == old(self).sel_selected(),
            final(self).sel_limit() == old(self).sel_limit(),
            match old(self).sel_pos() {
                None => r is Ok && final(self).sel_pos() == Some(0usize),
                Some(p) => {
                    if old(self).sel_cards().len() == 0 {
                        &&& r == Err::<(), WidgetError>(
                            WidgetError::ArithmeticError(ArithmeticError::Overflow),
                        )
                        &&& final(self).sel_pos() == Some(p)
                    } else if p + 1 == old(self).sel_cards().len() {
                        r is Ok && final(self).sel_pos() == Some(0usize)
                    } else if p < usize::MAX {
                        r is Ok && final(self).sel_pos() == Some((p + 1) as usize)
                    } else {
                        &&& r == Err::<(), WidgetError>(
                            WidgetError::ArithmeticError(ArithmeticError::Overflow),
                        )
                        &&& final(self).sel_pos() == Some(p)
                    }
                },
            },
    ;

    /// Moves the cursor to the previous item, wrapping to the last before
    /// the first; an unfocussed cursor lands on the first item.  Fails,
    /// leaving the state unchanged, when the wrap has no items to land on.
    fn move_prev(&mut self) -> (r: Result<(), WidgetError>)
        ensures
            final(self).sel_cards() == old(self).sel_cards(),
            final(self).sel_selected() == old(self).sel_selected(),
            final(self).sel_limit() == old(self).sel_limit(),
            match old(self).sel_pos() {
                None => r is Ok && final(self).sel_pos() == Some(0usize),
                Some(p) => {
                    if p > 0 {
                        r is Ok && final(self).sel_pos() == Some((p - 1) as usize)
                    } else if old(self).sel_cards().len() == 0 {
                        &&& r == Err::<(), WidgetError>(
                            WidgetError::ArithmeticError(ArithmeticError::Overflow),
                        )
                        &&& final(self).sel_pos() == Some(p)
                    } else {
                        r is Ok && final(self).sel_pos() == Some(
                            (old(self).sel_cards().len() - 1) as usize,
                        )
                    }
                },
            },
    ;

    /// Adds the item at the cursor to the selection.  A no-op returning
    /// `false` when the list is unfocussed, the index is already selected,
    /// or the selection limit is reached.
    fn select(&mut self) -> (r: Result<bool, WidgetError>)
        requires
            selection_wf(old(self).sel_selected()),
        ensures
            final(self).sel_cards() == old(self).sel_cards(),
            final(self).sel_pos() == old(self).sel_pos(),
            final(self).sel_limit() == old(self).sel_limit(),
            selection_wf(final(self).sel_selected()),
            match r {
                Ok(inserted) => {
                    if old(self).sel_limit() matches Some(l) && l
                        <= old(self).sel_selected().len() {
                        !inserted && final(self).sel_selected() == old(self).sel_selected()
                    } else {
                        match old(self).sel_pos() {
                            None => !inserted && final(self).sel_selected() == old(
                                self,
                            ).sel_selected(),
                            Some(p) => {
                                &&& inserted == !selection_has(old(self).sel_selected(), p)
                                &&& forall|i: usize|
                                    #[trigger] selection_has(final(self).sel_selected(), i)
                                        <==> (selection_has(old(self).sel_selected(), i) || i == p)
                                &&& final(self).sel_selected().len() == old(
                                    self,
                                ).sel_selected().len() + (if inserted {
                                    1int
                                } else {
                                    0int
                                })
                            },
                        }
                    }
                },
                Err(_) => false,
            },
    ;

    /// Removes the item at the cursor from the selection.  A no-op
    /// returning `false` when the list is unfocussed or the index is not
    /// selected.
    fn deselect(&mut self) -> (r: Result<bool, WidgetError>)
        requires
            selection_wf(old(self).sel_selected()),
        ensures
            final(self).sel_cards() == old(self).sel_cards(),
            final(self).sel_pos() == old(self).sel_pos(),
            final(self).sel_limit() == old(self).sel_limit(),
            selection_wf(final(self).sel_selected()),
            match r {
                Ok(removed) => match old(self).sel_pos() {
                    None => !removed && final(self).sel_selected() == old(self).sel_selected(),
                    Some(p) => {
                        &&& removed == selection_has(old(self).sel_selected(), p)
                        &&& forall|i: usize|
                            #[trigger] selection_has(final(self).sel_selected(), i)
                                <==> (selection_has(old(self).sel_selected(), i) && i != p)
                        &&& final(self).sel_selected().len() == old(self).sel_selected().len() - (
                        if removed {
                            1int
                        } else {
                            0int
                        })
                    },
                },
                Err(_) => false,
            },
    ;

    /// Unfocusses the list: the cursor is removed.
    fn blur(&mut self)
        ensures
            final(self).sel_cards() == old(self).sel_cards(),
            final(self).sel_pos() == None::<usize>,
            final(self).sel_selected() == old(self).sel_selected(),
            final(self).sel_limit() == old(self).sel_limit(),
    ;
}

/// Inserts an index into an ascending selection, if absent.
fn selection_insert(sel: &mut Vec<usize>, p: usize) -> (inserted: bool)
    requires
        selection_wf(old(sel)@),
    ensures
        selection_wf(final(sel)@),
        inserted == !selection_has(old(sel)@, p),
        forall|i: usize|
            #[trigger] selection_has(final(sel)@, i) <==> (selection_has(old(sel)@, i) || i == p),
        final(sel)@.len() == old(sel)@.len() + (if inserted {
            1int
        } else {
            0int
        }),
{
    let ghost s0 = sel@;
    let mut k: usize = 0;
    while k < sel.len() && sel[k] < p
        invariant
            selection_wf(s0),
            sel@ == s0,
            0 <= k <= s0.len(),
            forall|j: int| 0 <= j < k ==> (#[trigger] s0[j]) < p,
        decreases s0.len() - k,
    {
        k = k + 1;
    }
    if k < sel.len() && sel[k] == p {
        proof {
            assert(selection_has(s0, p));
        }
        return false;
    }
    proof {
        assert forall|j: int| k <= j < s0.len() implies (#[trigger] s0[j]) > p by {
            assert(s0[k as int] >= p && s0[k as int] != p);
            if j > k {
                assert(s0[k as int] < s0[j]);
            }
        }
        assert(!selection_has(s0, p)) by {
            if s0.contains(p) {
                let j = choose|j: int| 0 <= j < s0.len() && s0[j] == p;
                assert(s0[j] == p);
            }
        }
    }
    sel.insert(k, p);
    proof {
        let s1 = sel@;
        assert(s1 == s0.insert(k as int, p));
        assert forall|k1: int, k2: int| 0 <= k1 < k2 < s1.len() implies (#[trigger] s1[k1]) < (
        #[trigger] s1[k2]) by {
            assert(s1[k as int] == p);
            if k1 < k {
                assert(s1[k1] == s0[k1]);
            }
            if k1 > k {
                assert(s1[k1] == s0[k1 - 1]);
            }
            if k2 < k {
                assert(s1[k2] == s0[k2]);
            }
            if k2 > k {
                assert(s1[k2] == s0[k2 - 1]);
            }
        }
        assert forall|i: usize| #[trigger] selection_has(s1, i) <==> (selection_has(s0, i) || i
            == p) by {
            if selection_has(s1, i) {
                let j = choose|j: int| 0 <= j < s1.len() && s1[j] == i;
                if j < k {
                    assert(s0[j] == i);
                } else if j > k {
                    assert(s0[j - 1] == i);
                }
            }
            if selection_has(s0, i) {
                let j = choose|j: int| 0 <= j < s0.len() && s0[j] == i;
                if j < k {
                    assert(s1[j] == i);
                } else {
                    assert(s1[j + 1] == i);
                }
            }
            if i == p {
                assert(s1[k as int] == i);
            }
        }
    }
    true
}

/// Removes an index from an ascending selection, if present.
fn selection_remove(sel: &mut Vec<usize>, p: usize) -> (removed: bool)
    requires
        selection_wf(old(sel)@),
    ensures
        selection_wf(final(sel)@),
        removed == selection_has(old(sel)@, p),
        forall|i: usize|
            #[trigger] selection_has(final(sel)@, i) <==> (selection_has(old(sel)@, i) && i != p),
        final(sel)@.len() == old(sel)@.len() - (if removed {
            1int
        } else {
            0int
        }),
{
    let ghost s0 = sel@;
    let mut k: usize = 0;
    while k < sel.len() && sel[k] < p
        invariant
            selection_wf(s0),
            sel@ == s0,
            0 <= k <= s0.len(),
            forall|j: int| 0 <= j < k ==> (#[trigger] s0[j]) < p,
        decreases s0.len() - k,
    {
        k = k + 1;
    }
    if !(k < sel.len() && sel[k] == p) {
        proof {
            assert forall|j: int| k <= j < s0.len() implies (#[trigger] s0[j]) != p by {
                if j > k {
                    assert(s0[k as int] < s0[j]);
                }
            }
            assert(!selection_has(s0, p)) by {
                if s0.contains(p) {
                    let j = choose|j: int| 0 <= j < s0.len() && s0[j] == p;
                    assert(s0[j] == p);
                }
            }
        }
        return false;
    }
    proof {
        assert(selection_has(s0, p));
    }
    let _ = sel.remove(k);
    proof {
        let s1 = sel@;
        assert(s1 == s0.remove(k as int));
        assert forall|k1: int, k2: int| 0 <= k1 < k2 < s1.len() implies (#[trigger] s1[k1]) < (
        #[trigger] s1[k2]) by {
            if k1 < k {
                assert(s1[k1] == s0[k1]);
            } else {
                assert(s1[k1] == s0[k1 + 1]);
            }
            if k2 < k {
                assert(s1[k2] == s0[k2]);
            } else {
                assert(s1[k2] == s0[k2 + 1]);
            }
        }
        assert forall|i: usize| #[trigger] selection_has(s1, i) <==> (selection_has(s0, i) && i
            != p) by {
            if selection_has(s1, i) {
                let j = choose|j: int| 0 <= j < s1.len() && s1[j] == i;
                if j < k {
                    assert(s0[j] == i);
                    assert(s0[j] < s0[k as int]);
                } else {
                    assert(s0[j + 1] == i);
                    assert(s0[k as int] < s0[j + 1]);
                }
            }
            if selection_has(s0, i) && i != p {
                let j = choose|j: int| 0 <= j < s0.len() && s0[j] == i;
                assert(j != k);
                if j < k {
                    assert(s1[j] == i);
                } else {
                    assert(s1[j - 1] == i);
                }
            }
        }
    }
    true
}

/// The selection state over a list of cards: the cards themselves, the
/// cursor, the selected indices in ascending order, and an optional bound
/// on how many may be selected at once.
#[derive(Clone, Debug)]
pub struct CardListWidgetState {
    /// The cards the selection ranges over.
    pub cards: Vec<Card>,
    /// Cursor position over the cards.
    pub pos: Option<usize>,
    /// The selected card indices, in ascending order.
    pub selected: Vec<usize>,
    /// Optional limit on the number of simultaneously selected cards.
    pub selection_limit: Option<usize>,
}

impl CardListWidgetState {
    /// Sets the selection limit and returns the state, refusing a limit
    /// below the number of cards already selected.
    pub fn selection_limit(self, selection_limit: Option<usize>) -> (r: Result<
        CardListWidgetState,
        WidgetError,
    >)
        ensures
            match r {
                Ok(st) => {
                    &&& (selection_limit matches Some(l) ==> l >= self.selected@.len())
                    &&& st.cards == self.cards
                    &&& st.pos == self.pos
                    &&& st.selected == self.selected
                    &&& st.selection_limit == selection_limit
                },
                Err(e) => {
                    &&& selection_limit matches Some(l) && l < self.selected@.len()
                        && e == (WidgetError::SelectionLimitOverflow {
                        attempted_selection_limit: l,
                        max_allowed: self.selected@.len() as usize,
                    })
                },
            },
    {
        let mut st = self;
        if let Some(limit) = selection_limit {
            if limit < st.selected.len() {
                let max_allowed = st.selected.len();
                return Err(
                    WidgetError::SelectionLimitOverflow {
                        attempted_selection_limit: limit,
                        max_allowed,
                    },
                );
            }
        }
        st.selection_limit = selection_limit;
        Ok(st)
    }

    /// Replaces the cards and resets the cursor and the selection.
    pub fn set_cards(&mut self, cards: Vec<Card>)
        ensures
            final(self).cards == cards,
            final(self).pos == None::<usize>,
            final(self).selected@ == Seq::<usize>::empty(),
            final(self).selection_limit == old(self).selection_limit,
    {
        self.cards = cards;
        self.pos = None;
        self.selected = Vec::new();
    }
}

impl CardListWidgetState {
    /// Wraps a list of cards with an unfocussed cursor, an empty
    /// selection and no selection limit.
    pub fn new(cards: Vec<Card>) -> (r: CardListWidgetState)
        ensures
            r.cards == cards,
            r.pos == None::<usize>,
            r.selected@ == Seq::<usize>::empty(),
            r.selection_limit == None::<usize>,
    {
        CardListWidgetState { cards, pos: None, selected: Vec::new(), selection_limit: None }
    }
}

impl From<Vec<Card>> for CardListWidgetState {
    /// Wraps a list of cards as [`CardListWidgetState::new`] does.
    fn from(cards: Vec<Card>) -> (r: CardListWidgetState) {
        CardListWidgetState::new(cards)
    }
}

impl vstd::std_specs::convert::FromSpecImpl<Vec<Card>> for CardListWidgetState {
    open spec fn obeys_from_spec() -> bool {
        false
    }

    open spec fn from_spec(cards: Vec<Card>) -> CardListWidgetState {
        choose|st: CardListWidgetState| st.cards == cards
    }
}

impl SelectableList for CardListWidgetState {
    open spec fn sel_cards(&self) -> Seq<Card> {
        self.cards@
    }

    open spec fn sel_pos(&self) -> Option<usize> {
        self.pos
    }

    open spec fn sel_selected(&self) -> Seq<usize> {
        self.selected@
    }

    open spec fn sel_limit(&self) -> Option<usize> {
        self.selection_limit
    }

    fn move_next(&mut self) -> (r: Result<(), WidgetError>) {
        match self.pos {
            Some(p) => {
                if self.cards.len() == 0 {
                    return Err(WidgetError::ArithmeticError(ArithmeticError::Overflow));
                }
                let last_index = self.cards.len() - 1;
                if p == last_index {
                    self.pos = Some(0);
                } else {
                    if p == usize::MAX {
                        return Err(WidgetError::ArithmeticError(ArithmeticError::Overflow));
                    }
                    self.pos = Some(p + 1);
                }
            },
            None => {
                self.pos = Some(0);
            },
        }
        Ok(())
    }

    fn move_prev(&mut self) -> (r: Result<(), WidgetError>) {
        match self.pos {
            Some(p) => {
                if p > 0 {
                    self.pos = Some(p - 1);
                } else {
                    if self.cards.len() == 0 {
                        return Err(WidgetError::ArithmeticError(ArithmeticError::Overflow));
                    }
                    self.pos = Some(self.cards.len() - 1);
                }
            },
            None => {
                self.pos = Some(0);
            },
        }
        Ok(())
    }

    fn select(&mut self) -> (r: Result<bool, WidgetError>) {
        if let Some(limit) = self.selection_limit {
            if limit <= self.selected.len() {
                return Ok(false);
            }
        }
        match self.pos {
            Some(p) => {
                let inserted = selection_insert(&mut self.selected, p);
                Ok(inserted)
            },
            None => Ok(false),
        }
    }

    fn deselect(&mut self) -> (r: Result<bool, WidgetError>) {
        match self.pos {
            Some(p) => {
                let removed = selection_remove(&mut self.selected, p);
                Ok(removed)
            },
            None => Ok(false),
        }
    }

    fn blur(&mut self) {
        self.pos = None;
    }
}

} // verus!
