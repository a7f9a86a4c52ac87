//! An ordered sequence of items plus a single movable cursor.
//!
//! The cursor is always `None` or a valid index into the sequence, whatever
//! the presentation layer does with the items: moving past either end clamps,
//! and every operation on an empty sequence leaves the cursor at `None`.

use vstd::prelude::*;

verus! {


/// Where `next()` leaves the cursor: one step forward, clamped at the last
/// index; the first item when nothing was selected; `None` on an empty
/// sequence.
pub open spec fn next_spec(len: nat, c: Option<usize>) -> Option<usize> {
    if len == 0 {
        None
    } else {
        match c {
            None => Some(0usize),
            Some(x) => if x + 1 < len {
                Some((x + 1) as usize)
            } else {
                Some(x)
            },
        }
    }
}

/// Where `prev()` leaves the cursor: one step back, clamped at index 0; the
/// first item when nothing was selected; `None` on an empty sequence.
pub open spec fn prev_spec(len: nat, c: Option<usize>) -> Option<usize> {
    if len == 0 {
        None
    } else {
        match c {
            None => Some(0usize),
            Some(x) => if x > 0 {
                Some((x - 1) as usize)
            } else {
                Some(0usize)
            },
        }
    }
}

/// Where `first()` leaves the cursor.
pub open spec fn first_spec(len: nat) -> Option<usize> {
    if len == 0 {
        None
    } else {
        Some(0usize)
    }
}

/// Where `last()` leaves the cursor.
pub open spec fn last_spec(len: nat) -> Option<usize> {
    if len == 0 {
        None
    } else {
        Some((len - 1) as usize)
    }
}

/// Where `select(i)` leaves the cursor: `i` clamped to the last index; `None`
/// on an empty sequence.
pub open spec fn select_spec(len: nat, i: usize) -> Option<usize> {
    if len == 0 {
        None
    } else if i < len {
        Some(i)
    } else {
        Some((len - 1) as usize)
    }
}

/// The cursor can never dangle and clamps at both ends: wherever a valid (or
/// empty) cursor starts, one step lands on a valid index; stepping forward at
/// the last index and back at index 0 are no-ops; and on an empty sequence
/// every move leaves the cursor `None`.
pub proof fn lemma_cursor_moves_clamp(len: nat, c: Option<usize>)
    requires
        len <= usize::MAX,
        match c {
            None => true,
            Some(x) => x < len,
        },
    ensures
        match next_spec(len, c) {
            None => len == 0,
            Some(x) => x < len,
        },
        match prev_spec(len, c) {
            None => len == 0,
            Some(x) => x < len,
        },
        len > 0 && c == Some((len - 1) as usize) ==> next_spec(len, c) == c,
        c == Some(0usize) && len > 0 ==> prev_spec(len, c) == c,
        len == 0 ==> next_spec(len, c) is None && prev_spec(len, c) is None,
{
}

pub struct SelectionList<T> {
    items: Vec<T>,
    cursor: Option<usize>,
}

impl<T> SelectionList<T> {
    /// The items, as a mathematical sequence.
    pub closed spec fn items_seq(&self) -> Seq<T> {
        self.items@
    }

    /// The cursor as the presentation layer sees it.
    pub closed spec fn cursor_spec(&self) -> Option<usize> {
        self.cursor
    }

    /// The cursor is `None` or a valid index into the current sequence.
    pub open spec fn wf(&self) -> bool {
        match self.cursor_spec() {
            None => true,
            Some(c) => c < self.items_seq().len(),
        }
    }

    /// A list over the given items, with nothing selected yet.
    pub fn from_items(items: Vec<T>) -> (r: Self)
        ensures
            r.wf(),
            r.items_seq() == items@,
            r.cursor_spec() is None,
    {
        SelectionList { items, cursor: None }
    }

    pub fn len(&self) -> (r: usize)
        ensures
            r == self.items_seq().len(),
    {
        self.items.len()
    }

    pub fn get(&self, i: usize) -> (r: &T)
        requires
            i < self.items_seq().len(),
        ensures
            *r == self.items_seq()[i as int],
    {
        &self.items[i]
    }

    /// Borrow the backing vector, for read-only presentation work.
    pub fn items_ref(&self) -> (r: &Vec<T>)
        ensures
            r@ == self.items_seq(),
    {
        &self.items
    }

    pub fn cursor(&self) -> (r: Option<usize>)
        ensures
            r == self.cursor_spec(),
    {
        self.cursor
    }

    /// Move the cursor one position forward, clamping at the last index.
    /// On an empty sequence the cursor stays `None`; with nothing selected
    /// the first item becomes selected.
    pub fn next(&mut self)
        requires
            old(self).wf(),
        ensures
            final(self).wf(),
            final(self).items_seq() == old(self).items_seq(),
            final(self).cursor_spec() == next_spec(
                old(self).items_seq().len(),
                old(self).cursor_spec(),
            ),
    {
        if self.items.len() == 0 {
            self.cursor = None;
        } else {
            self.cursor = match self.cursor {
                None => Some(0),
                Some(c) => if c + 1 < self.items.len() {
                    Some(c + 1)
                } else {
                    Some(c)
                },
            };
        }
    }

    /// Move the cursor one position back, clamping at index 0.
    /// On an empty sequence the cursor stays `None`; with nothing selected
    /// the first item becomes selected.
    pub fn prev(&mut self)
        requires
            old(self).wf(),
        ensures
            final(self).wf(),
            final(self).items_seq() == old(self).items_seq(),
            final(self).cursor_spec() == prev_spec(
                old(self).items_seq().len(),
                old(self).cursor_spec(),
            ),
    {
        if self.items.len() == 0 {
            self.cursor = None;
        } else {
            self.cursor = match self.cursor {
                None => Some(0),
                Some(c) => if c > 0 {
                    Some(c - 1)
                } else {
                    Some(0)
                },
            };
        }
    }

    /// Jump to the first item; `None` on an empty sequence.
    pub fn first(&mut self)
        ensures
            final(self).wf(),
            final(self).items_seq() == old(self).items_seq(),
            final(self).cursor_spec() == first_spec(old(self).items_seq().len()),
    {
        if self.items.len() == 0 {
            self.cursor = None;
        } else {
            self.cursor = Some(0);
        }
    }

    /// Jump to the last item; `None` on an empty sequence.
    pub fn last(&mut self)
        ensures
            final(self).wf(),
            final(self).items_seq() == old(self).items_seq(),
            final(self).cursor_spec() == last_spec(old(self).items_seq().len()),
    {
        if self.items.len() == 0 {
            self.cursor = None;
        } else {
            self.cursor = Some(self.items.len() - 1);
        }
    }

    /// Select an index explicitly, clamping to the last index; `None` on an
    /// empty sequence, so an out-of-range request can never leave a dangling
    /// cursor.
    pub fn select(&mut self, i: usize)
        ensures
            final(self).wf(),
            final(self).items_seq() == old(self).items_seq(),
            final(self).cursor_spec() == select_spec(old(self).items_seq().len(), i),
    {
        if self.items.len() == 0 {
            self.cursor = None;
        } else if i < self.items.len() {
            self.cursor = Some(i);
        } else {
            self.cursor = Some(self.items.len() - 1);
        }
    }

    /// Replace the backing sequence, which may have changed size since the
    /// cursor was set: a cursor now pointing past the end clamps to the last
    /// index, and clears when the new sequence is empty, so it never
    /// references a removed element.
    pub fn set_items(&mut self, items: Vec<T>)
        ensures
            final(self).wf(),
            final(self).items_seq() == items@,
            final(self).cursor_spec() == (match old(self).cursor_spec() {
                None => Option::<usize>::None,
                Some(c) => if items@.len() == 0 {
                    Option::<usize>::None
                } else if c < items@.len() {
                    Some(c)
                } else {
                    Some((items@.len() - 1) as usize)
                },
            }),
    {
        self.cursor = match self.cursor {
            None => None,
            Some(c) => {
                if items.len() == 0 {
                    None
                } else if c < items.len() {
                    Some(c)
                } else {
                    Some(items.len() - 1)
                }
            },
        };
        self.items = items;
    }

    /// Clear the selection.
    pub fn deselect(&mut self)
        ensures
            final(self).wf(),
            final(self).items_seq() == old(self).items_seq(),
            final(self).cursor_spec() is None,
    {
        self.cursor = None;
    }
}

/// Translate the global cursor of a list that the presentation layer splits
/// into fixed-height columns: a global index maps to a local index within its
/// own column and to "not selected" within every other column. The underlying
/// cursor is never mutated by this translation.
pub fn local_cursor(cursor: Option<usize>, column: usize, height: usize) -> (r: Option<usize>)
    requires
        height >= 1,
    ensures
        r == (match cursor {
            None => Option::<usize>::None,
            Some(x) => if x / height == column {
                Some((x % height) as usize)
            } else {
                Option::<usize>::None
            },
        }),
{
    match cursor {
        None => None,
        Some(x) => {
            if x / height == column {
                Some(x % height)
            } else {
                None
            }
        },
    }
}

/// How many fixed-height columns the presentation layer needs to show
/// `n_items` items: the length divided by the height, rounded up.
pub fn column_count(n_items: usize, height: usize) -> (r: usize)
    requires
        height >= 1,
    ensures
        r == (n_items + height - 1) / height as int,
{
    let q: usize = n_items / height;
    let r: usize = n_items % height;
    proof {
        vstd::arithmetic::div_mod::lemma_fundamental_div_mod(n_items as int, height as int);
        if r == 0 {
            assert(q * (height as int) + (height - 1) == n_items + height - 1) by (nonlinear_arith)
                requires
                    n_items == height * q + r,
                    r == 0,
            ;
            vstd::arithmetic::div_mod::lemma_fundamental_div_mod_converse(
                n_items + height - 1,
                height as int,
                q as int,
                height - 1,
            );
        } else {
            assert(q * height <= n_items) by (nonlinear_arith)
                requires
                    n_items == height * q + r,
                    r >= 0,
            ;
            assert(2 * q <= n_items) by (nonlinear_arith)
                requires
                    q * height <= n_items,
                    q >= 0,
                    height >= 2,
            ;
            assert((q + 1) * (height as int) + (r - 1) == n_items + height - 1) by (nonlinear_arith)
                requires
                    n_items == height * q + r,
            ;
            vstd::arithmetic::div_mod::lemma_fundamental_div_mod_converse(
                n_items + height - 1,
                height as int,
                q + 1,
                r - 1,
            );
        }
    }
    if r != 0 {
        q + 1
    } else {
        q
    }
}

} // verus!
