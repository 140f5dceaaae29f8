//! One side of the order book: price levels sorted by price.
//!
//! A side is a strictly-sorted vector of `(price, quantity)` pairs, the
//! verified stand-in for an ordered price-to-quantity map. `seq_set` and
//! `seq_remove` are the mathematical meaning of the two mutations.

use vstd::prelude::*;

use crate::dec::{Dec, VAL_LIMIT_UNITS};

verus! {

/// Prices strictly increase along the sequence, so every price occurs at
/// most once, and every stored price and quantity is in range: prices
/// nonnegative, quantities strictly positive (zero quantity means absence).
pub open spec fn side_wf(s: Seq<(Dec, Dec)>) -> bool {
    &&& forall|i: int, j: int| 0 <= i < j < s.len() ==> s[i].0@ < s[j].0@
    &&& forall|i: int|
        0 <= i < s.len() ==> 0 <= #[trigger] s[i].0@ <= VAL_LIMIT_UNITS as int && 0 < s[i].1@
            <= VAL_LIMIT_UNITS as int
}

/// Some level of the side has price `p`.
pub open spec fn side_has(s: Seq<(Dec, Dec)>, p: int) -> bool {
    exists|i: int| 0 <= i < s.len() && s[i].0@ == p
}

/// The quantity stored at price `p`, zero when `p` is absent.
pub open spec fn side_qty(s: Seq<(Dec, Dec)>, p: int) -> int {
    if side_has(s, p) {
        s[choose|i: int| 0 <= i < s.len() && s[i].0@ == p].1@
    } else {
        0
    }
}

/// The side after the entry for `p` is set to `q`: the unique sorted
/// sequence whose entry at `p` is `q` and that elsewhere agrees with `s`.
pub open spec fn seq_set(s: Seq<(Dec, Dec)>, p: Dec, q: Dec) -> Seq<(Dec, Dec)>
    decreases s.len(),
{
    if s.len() == 0 {
        seq![(p, q)]
    } else if s[0].0@ < p@ {
        seq![s[0]] + seq_set(s.skip(1), p, q)
    } else if s[0].0@ == p@ {
        seq![(p, q)] + s.skip(1)
    } else {
        seq![(p, q)] + s
    }
}

/// The side after the entry for price `p` is removed; `s` itself when `p`
/// is absent.
pub open spec fn seq_remove(s: Seq<(Dec, Dec)>, p: int) -> Seq<(Dec, Dec)>
    decreases s.len(),
{
    if s.len() == 0 {
        s
    } else if s[0].0@ == p {
        s.skip(1)
    } else if s[0].0@ < p {
        seq![s[0]] + seq_remove(s.skip(1), p)
    } else {
        s
    }
}

/// On a sorted side, setting price `p` where level `i` already holds `p`
/// replaces that level in place.
proof fn lemma_seq_set_is_update(s: Seq<(Dec, Dec)>, p: Dec, q: Dec, i: int)
    requires
        forall|a: int, b: int| 0 <= a < b < s.len() ==> s[a].0@ < s[b].0@,
        0 <= i < s.len(),
        s[i].0@ == p@,
    ensures
        seq_set(s, p, q) == s.update(i, (p, q)),
    decreases i,
{
    if i == 0 {
        assert(seq_set(s, p, q) =~= s.update(0, (p, q)));
    } else {
        assert(s[0].0@ < s[i].0@);
        lemma_seq_set_is_update(s.skip(1), p, q, i - 1);
        assert(seq![s[0]] + s.skip(1).update(i - 1, (p, q)) =~= s.update(i, (p, q)));
    }
}

/// On a sorted side without price `p`, setting `p` inserts a new level at
/// the position `i` that keeps the order.
proof fn lemma_seq_set_is_insert(s: Seq<(Dec, Dec)>, p: Dec, q: Dec, i: int)
    requires
        forall|a: int, b: int| 0 <= a < b < s.len() ==> s[a].0@ < s[b].0@,
        0 <= i <= s.len(),
        forall|j: int| 0 <= j < i ==> s[j].0@ < p@,
        forall|j: int| i <= j < s.len() ==> s[j].0@ > p@,
    ensures
        seq_set(s, p, q) == s.insert(i, (p, q)),
    decreases i,
{
    if i == 0 {
        if s.len() == 0 {
            assert(seq_set(s, p, q) =~= s.insert(0, (p, q)));
        } else {
            assert(s[0].0@ > p@);
            assert(seq_set(s, p, q) =~= s.insert(0, (p, q)));
        }
    } else {
        assert(s[0].0@ < p@);
        lemma_seq_set_is_insert(s.skip(1), p, q, i - 1);
        assert(seq![s[0]] + s.skip(1).insert(i - 1, (p, q)) =~= s.insert(i, (p, q)));
    }
}

/// On a sorted side, removing price `p` held by level `i` deletes that
/// level; removing an absent price changes nothing.
pub proof fn lemma_seq_remove_is_delete(s: Seq<(Dec, Dec)>, p: int, i: int)
    requires
        forall|a: int, b: int| 0 <= a < b < s.len() ==> s[a].0@ < s[b].0@,
        0 <= i < s.len(),
        s[i].0@ == p,
    ensures
        seq_remove(s, p) == s.remove(i),
    decreases i,
{
    if i == 0 {
        assert(seq_remove(s, p) =~= s.remove(0));
    } else {
        assert(s[0].0@ < s[i].0@);
        lemma_seq_remove_is_delete(s.skip(1), p, i - 1);
        assert(seq![s[0]] + s.skip(1).remove(i - 1) =~= s.remove(i));
    }
}

/// Removing an absent price leaves a sorted side unchanged.
pub proof fn lemma_seq_remove_absent(s: Seq<(Dec, Dec)>, p: int)
    requires
        forall|a: int, b: int| 0 <= a < b < s.len() ==> s[a].0@ < s[b].0@,
        !side_has(s, p),
    ensures
        seq_remove(s, p) == s,
    decreases s.len(),
{
    if s.len() > 0 && s[0].0@ < p {
        assert(!side_has(s.skip(1), p)) by {
            assert(forall|j: int|
                0 <= j < s.skip(1).len() ==> #[trigger] s.skip(1)[j] == s[j + 1]);
        }
        lemma_seq_remove_absent(s.skip(1), p);
        assert(seq![s[0]] + s.skip(1) =~= s);
    }
}

/// On a well-formed side the quantity looked up at the price of level
/// `i` is that level's quantity.
pub proof fn lemma_side_qty_at(s: Seq<(Dec, Dec)>, i: int)
    requires
        side_wf(s),
        0 <= i < s.len(),
    ensures
        side_has(s, s[i].0@),
        side_qty(s, s[i].0@) == s[i].1@,
{
    assert(side_has(s, s[i].0@));
    let j = choose|j: int| 0 <= j < s.len() && s[j].0@ == s[i].0@;
    if i < j {
        assert(s[i].0@ < s[j].0@);
    } else if j < i {
        assert(s[j].0@ < s[i].0@);
    }
}

/// What removing a price means on a well-formed side: nothing when the
/// price is absent; when present, exactly that level disappears and
/// every other level keeps its quantity.
pub proof fn lemma_remove_semantics(s: Seq<(Dec, Dec)>, p: int)
    requires
        side_wf(s),
    ensures
        !side_has(s, p) ==> seq_remove(s, p) == s,
        side_has(s, p) ==> {
            let r = seq_remove(s, p);
            &&& r.len() == s.len() - 1
            &&& side_wf(r)
            &&& !side_has(r, p)
            &&& forall|k: int| k != p ==> (side_has(r, k) <==> side_has(s, k))
            &&& forall|k: int|
                k != p && side_has(s, k) ==> #[trigger] side_qty(r, k) == side_qty(s, k)
        },
{
    if !side_has(s, p) {
        lemma_seq_remove_absent(s, p);
    } else {
        let i = choose|i: int| 0 <= i < s.len() && s[i].0@ == p;
        lemma_seq_remove_is_delete(s, p, i);
        let r = s.remove(i);
        assert(forall|j: int| 0 <= j < i ==> #[trigger] r[j] == s[j]);
        assert(forall|j: int| i <= j < r.len() ==> #[trigger] r[j] == s[j + 1]);
        assert(side_wf(r));
        assert forall|j: int| 0 <= j < r.len() implies #[trigger] r[j].0@ != p by {
            if j < i {
                assert(s[j].0@ < s[i].0@);
            } else {
                assert(s[i].0@ < s[j + 1].0@);
            }
        }
        assert forall|k: int| k != p && side_has(r, k) implies side_has(s, k) by {
            let j = choose|j: int| 0 <= j < r.len() && r[j].0@ == k;
            if j < i {
                assert(s[j].0@ == k);
            } else {
                assert(s[j + 1].0@ == k);
            }
        }
        assert forall|k: int| k != p && side_has(s, k) implies side_has(r, k) by {
            let j = choose|j: int| 0 <= j < s.len() && s[j].0@ == k;
            if j < i {
                assert(r[j].0@ == k);
            } else {
                assert(j != i);
                assert(r[j - 1].0@ == k);
            }
        }
        assert forall|k: int| k != p && side_has(s, k) implies #[trigger] side_qty(r, k)
            == side_qty(s, k) by {
            let j = choose|j: int| 0 <= j < s.len() && s[j].0@ == k;
            lemma_side_qty_at(s, j);
            if j < i {
                lemma_side_qty_at(r, j);
            } else {
                assert(j != i);
                lemma_side_qty_at(r, j - 1);
            }
        }
    }
}

/// One side of the book.
pub struct BookSide {
    pub levels: Vec<(Dec, Dec)>,
}

impl View for BookSide {
    type V = Seq<(Dec, Dec)>;

    open spec fn view(&self) -> Seq<(Dec, Dec)> {
        self.levels@
    }
}

impl BookSide {
    /// An empty side.
    pub fn new() -> (r: BookSide)
        ensures
            r@ =~= Seq::<(Dec, Dec)>::empty(),
    {
        BookSide { levels: Vec::new() }
    }

    /// Number of price levels.
    pub fn len(&self) -> (r: usize)
        ensures
            r == self@.len(),
    {
        self.levels.len()
    }

    /// The level at index `i`, in ascending price order.
    pub fn level_at(&self, i: usize) -> (r: (Dec, Dec))
        requires
            i < self@.len(),
        ensures
            r == self@[i as int],
    {
        self.levels[i]
    }

    /// The lowest-priced level, if any.
    pub fn first(&self) -> (r: Option<(Dec, Dec)>)
        ensures
            r == if self@.len() == 0 {
                Option::<(Dec, Dec)>::None
            } else {
                Option::Some(self@[0])
            },
    {
        if self.levels.len() == 0 {
            None
        } else {
            Some(self.levels[0])
        }
    }

    /// The highest-priced level, if any.
    pub fn last(&self) -> (r: Option<(Dec, Dec)>)
        ensures
            r == if self@.len() == 0 {
                Option::<(Dec, Dec)>::None
            } else {
                Option::Some(self@.last())
            },
    {
        if self.levels.len() == 0 {
            None
        } else {
            Some(self.levels[self.levels.len() - 1])
        }
    }

    /// Remove every level.
    pub fn clear(&mut self)
        ensures
            final(self)@ =~= Seq::<(Dec, Dec)>::empty(),
    {
        self.levels.clear();
    }

    /// The quantity stored at price `p`, `None` when `p` is absent.
    pub fn get_qty(&self, p: Dec) -> (r: Option<Dec>)
        requires
            side_wf(self@),
        ensures
            r.is_some() == side_has(self@, p@),
            r.is_some() ==> r->Some_0@ == side_qty(self@, p@),
    {
        let n = self.levels.len();
        let mut i: usize = 0;
        while i < n
            invariant
                side_wf(self@),
                n == self@.len(),
                0 <= i <= n,
                forall|j: int| 0 <= j < i ==> self@[j].0@ != p@,
            decreases n - i,
        {
            if self.levels[i].0.units == p.units {
                return Some(self.levels[i].1);
            }
            i += 1;
        }
        assert(!side_has(self@, p@));
        None
    }

    /// Whether a level with price `p` is present.
    pub fn has_price(&self, p: Dec) -> (r: bool)
        requires
            side_wf(self@),
        ensures
            r == side_has(self@, p@),
    {
        self.get_qty(p).is_some()
    }

    /// Set the entry for price `p` to quantity `q` (insert or replace).
    pub fn set(&mut self, p: Dec, q: Dec)
        requires
            side_wf(old(self)@),
            old(self)@.len() < usize::MAX,
            0 <= p@ <= VAL_LIMIT_UNITS as int,
            0 < q@ <= VAL_LIMIT_UNITS as int,
        ensures
            final(self)@ == seq_set(old(self)@, p, q),
            side_wf(final(self)@),
            old(self)@.len() <= final(self)@.len() <= old(self)@.len() + 1,
    {
        let ghost s = self@;
        let n = self.levels.len();
        let mut i: usize = 0;
        while i < n && self.levels[i].0.units < p.units
            invariant
                side_wf(self@),
                self@ == s,
                n == self@.len(),
                0 <= i <= n,
                forall|j: int| 0 <= j < i ==> self@[j].0@ < p@,
            decreases n - i,
        {
            i += 1;
        }
        if i < n && self.levels[i].0.units == p.units {
            self.levels.set(i, (p, q));
            proof {
                lemma_seq_set_is_update(s, p, q, i as int);
                assert(side_wf(self@));
            }
        } else {
            assert(forall|j: int| i <= j < s.len() ==> s[j].0@ > p@);
            self.levels.insert(i, (p, q));
            proof {
                lemma_seq_set_is_insert(s, p, q, i as int);
                assert(side_wf(self@)) by {
                    assert(forall|j: int| 0 <= j < i ==> self@[j] == s[j]);
                    assert(forall|j: int|
                        i < j < self@.len() ==> #[trigger] self@[j] == s[j - 1]);
                    assert(self@[i as int] == (p, q));
                }
            }
        }
    }

    /// Remove the level with price `p`, if present.
    pub fn remove_price(&mut self, p: Dec)
        requires
            side_wf(old(self)@),
        ensures
            final(self)@ == seq_remove(old(self)@, p@),
            side_wf(final(self)@),
            final(self)@.len() <= old(self)@.len(),
            side_has(old(self)@, p@) ==> final(self)@.len() == old(self)@.len() - 1,
            !side_has(old(self)@, p@) ==> final(self)@ == old(self)@,
    {
        let ghost s = self@;
        let n = self.levels.len();
        let mut i: usize = 0;
        while i < n
            invariant
                side_wf(self@),
                self@ == s,
                s == old(self)@,
                n == self@.len(),
                0 <= i <= n,
                forall|j: int| 0 <= j < i ==> self@[j].0@ != p@,
            decreases n - i,
        {
            if self.levels[i].0.units == p.units {
                self.levels.remove(i);
                proof {
                    lemma_seq_remove_is_delete(s, p@, i as int);
                    assert(side_wf(self@)) by {
                        assert(forall|j: int| 0 <= j < i ==> self@[j] == s[j]);
                        assert(forall|j: int|
                            i <= j < self@.len() ==> #[trigger] self@[j] == s[j + 1]);
                    }
                }
                return ;
            }
            i += 1;
        }
        proof {
            assert(!side_has(s, p@));
            lemma_seq_remove_absent(s, p@);
        }
    }
}

} // verus!
