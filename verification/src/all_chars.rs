use crate::marks::{all_marks, is_mark, DOWN_CHARS, MIDDLE_CHARS, UP_CHARS};
use vstd::prelude::*;

verus! {

/// A double-ended enumerator of every mark: the "above" table, then the
/// "within" table, then the "below" table.
///
/// It keeps two cursors into that combined order. The front cursor is the
/// position of the next mark that `next` gives, the back cursor is one past the
/// position of the next mark that `next_back` gives. What lies between them is
/// still to come; its view is that run of marks.
pub struct AllChars {
    pos: usize,
    pos_back: usize,
}

impl View for AllChars {
    type V = Seq<char>;

    /// The marks that are still to come, front to back.
    open spec fn view(&self) -> Seq<char> {
        all_marks().subrange(self.front(), self.back())
    }
}

impl AllChars {
    /// The position of the front cursor in the combined order.
    pub closed spec fn front(&self) -> int {
        self.pos as int
    }

    /// The position of the back cursor in the combined order.
    pub closed spec fn back(&self) -> int {
        self.pos_back as int
    }

    /// The cursors lie inside the combined order and never cross.
    #[verifier::type_invariant]
    pub open spec fn wf(&self) -> bool {
        0 <= self.front() <= self.back() <= all_marks().len()
    }

    /// Gives the mark at the front cursor and moves the cursor past it, or
    /// reports that nothing is left.
    pub fn next(&mut self) -> (item: Option<char>)
        ensures
            old(self)@.len() > 0 ==> item == Some(old(self)@.first()) && final(self)@ == old(
                self,
            )@.drop_first(),
            old(self)@.len() == 0 ==> item is None && final(self)@ == old(self)@,
            final(self).front() == old(self).front() + (if item is Some {
                1int
            } else {
                0int
            }),
            final(self).back() == old(self).back(),
            item matches Some(c) ==> is_mark(c),
    {
        proof {
            use_type_invariant(&*self);
        }
        self.nth(0)
    }

    /// Skips `n` marks from the front and gives the one after them. Where fewer
    /// than `n + 1` marks are left, the enumerator is emptied and nothing given.
    pub fn nth(&mut self, n: usize) -> (item: Option<char>)
        ensures
            n < old(self)@.len() ==> item == Some(old(self)@[n as int]) && final(self)@ == old(
                self,
            )@.skip(n + 1),
            n >= old(self)@.len() ==> item is None && final(self)@.len() == 0,
            final(self).front() == (if n < old(self)@.len() {
                old(self).front() + n + 1
            } else {
                old(self).back()
            }),
            final(self).back() == old(self).back(),
            item matches Some(c) ==> is_mark(c),
    {
        proof {
            use_type_invariant(&*self);
        }
        let remaining = self.len();

        if n >= remaining {
            self.pos += remaining;
            return None;
        }
        let mut pos: usize = self.pos + n;
        proof {
            crate::marks::lemma_combined_index(pos as int);
        }

        if pos < UP_CHARS.len() {
            self.pos += n + 1;
            return Some(UP_CHARS[pos]);
        }
        pos -= UP_CHARS.len();
        if pos < MIDDLE_CHARS.len() {
            self.pos += n + 1;
            return Some(MIDDLE_CHARS[pos]);
        }
        pos -= MIDDLE_CHARS.len();
        self.pos += n + 1;
        Some(DOWN_CHARS[pos])
    }

    /// Gives the mark before the back cursor and moves the cursor onto it, or
    /// reports that nothing is left.
    pub fn next_back(&mut self) -> (item: Option<char>)
        ensures
            old(self)@.len() > 0 ==> item == Some(old(self)@.last()) && final(self)@ == old(
                self,
            )@.drop_last(),
            old(self)@.len() == 0 ==> item is None && final(self)@ == old(self)@,
            final(self).front() == old(self).front(),
            final(self).back() == old(self).back() - (if item is Some {
                1int
            } else {
                0int
            }),
            item matches Some(c) ==> is_mark(c),
    {
        proof {
            use_type_invariant(&*self);
        }
        let remaining = self.len();

        if remaining == 0 {
            return None;
        }
        let mut pos_back: usize = self.pos_back - 1;
        proof {
            crate::marks::lemma_combined_index(pos_back as int);
        }

        if pos_back < UP_CHARS.len() {
            self.pos_back -= 1;
            return Some(UP_CHARS[pos_back]);
        }
        pos_back -= UP_CHARS.len();
        if pos_back < MIDDLE_CHARS.len() {
            self.pos_back -= 1;
            return Some(MIDDLE_CHARS[pos_back]);
        }
        pos_back -= MIDDLE_CHARS.len();
        self.pos_back -= 1;
        Some(DOWN_CHARS[pos_back])
    }

    /// However many marks are first taken from the front and then from the
    /// back, what is left is the run of the combined order between the two
    /// cursors; the next mark from the front and the next from the back are
    /// those that the tables hold at these positions; and the cursors do not
    /// cross.
    pub proof fn lemma_front_then_back(&self, taken_front: int, taken_back: int)
        requires
            self.wf(),
            0 <= taken_front,
            0 <= taken_back,
            taken_front + taken_back <= self@.len(),
        ensures
            self.front() + taken_front <= self.back() - taken_back,
            self@.skip(taken_front).take(self@.len() - taken_front - taken_back)
                == all_marks().subrange(self.front() + taken_front, self.back() - taken_back),
            taken_front + taken_back < self@.len() ==> self@.skip(taken_front).first()
                == all_marks()[self.front() + taken_front] && self@.take(
                self@.len() - taken_back,
            ).last() == all_marks()[self.back() - taken_back - 1],
    {
        assert(self@.skip(taken_front).take(self@.len() - taken_front - taken_back)
            =~= all_marks().subrange(self.front() + taken_front, self.back() - taken_back));
    }

    /// The number of marks still to come.
    pub fn len(&self) -> (n: usize)
        ensures
            n == self@.len(),
            n == self.back() - self.front(),
    {
        proof {
            use_type_invariant(self);
        }
        self.pos_back - self.pos
    }

    /// Whether the two cursors have met.
    pub fn is_empty(&self) -> (empty: bool)
        ensures
            empty == (self@.len() == 0),
    {
        proof {
            use_type_invariant(self);
        }
        self.pos == self.pos_back
    }

    /// The number of marks still to come, as a lower and an upper bound. Both
    /// are exact.
    pub fn size_hint(&self) -> (hint: (usize, Option<usize>))
        ensures
            hint.0 == self@.len(),
            hint.1 == Some(hint.0),
    {
        let len = self.len();
        (len, Some(len))
    }

    /// Uses the enumerator up and says how many marks were left.
    pub fn count(self) -> (n: usize)
        ensures
            n == self@.len(),
    {
        self.len()
    }

    /// Uses the enumerator up and gives the mark that would have come last.
    pub fn last(self) -> (item: Option<char>)
        ensures
            self@.len() > 0 ==> item == Some(self@.last()),
            self@.len() == 0 ==> item is None,
    {
        let mut rest = self;
        rest.next_back()
    }
}

/// An enumerator of every mark, with nothing taken from it yet.
pub fn all_chars() -> (marks: AllChars)
    ensures
        marks@ == all_marks(),
        marks.front() == 0,
        marks.back() == all_marks().len(),
{
    AllChars { pos: 0, pos_back: UP_CHARS.len() + MIDDLE_CHARS.len() + DOWN_CHARS.len() }
}

} // verus!
