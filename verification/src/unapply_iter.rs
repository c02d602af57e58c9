use crate::decoration::{lemma_strip_first, lemma_strip_marks, lemma_strip_push};
use crate::marks::{is_zalgo, strip};
use vstd::prelude::*;

verus! {

/// A double-ended enumerator of the characters of a text that are no marks.
///
/// It keeps two cursors into the text; what lies between them has not been
/// looked at yet. Its view is what it still gives: that part of the text,
/// stripped.
pub struct UnapplyIter {
    chars: Vec<char>,
    front: usize,
    back: usize,
}

impl View for UnapplyIter {
    type V = Seq<char>;

    /// The characters that are still to come, front to back.
    open spec fn view(&self) -> Seq<char> {
        strip(self.rest())
    }
}

impl UnapplyIter {
    /// The part of the text that has not been looked at yet, marks and all.
    pub closed spec fn rest(&self) -> Seq<char> {
        self.chars@.subrange(self.front as int, self.back as int)
    }

    #[verifier::type_invariant]
    closed spec fn inv(&self) -> bool {
        self.front <= self.back <= self.chars@.len()
    }

    /// Gives the first character that is still to come, or nothing.
    pub fn next(&mut self) -> (item: Option<char>)
        ensures
            old(self)@.len() > 0 ==> item == Some(old(self)@.first()) && final(self)@ == old(
                self,
            )@.drop_first(),
            old(self)@.len() == 0 ==> item is None && final(self)@ == old(self)@,
            final(self).rest().len() <= old(self).rest().len(),
            item is Some ==> final(self).rest().len() < old(self).rest().len(),
    {
        proof {
            use_type_invariant(&*self);
        }
        while self.front < self.back
            invariant
                self.front <= self.back <= self.chars@.len(),
                old(self).front <= old(self).back <= old(self).chars@.len(),
                self.chars == old(self).chars,
                self.back == old(self).back,
                old(self).front <= self.front,
                self@ == old(self)@,
            decreases self.back - self.front,
        {
            let ch = self.chars[self.front];
            proof {
                lemma_strip_first(self.rest());
                assert(self.rest().drop_first() =~= self.chars@.subrange(
                    self.front + 1,
                    self.back as int,
                ));
            }
            self.front += 1;
            if !is_zalgo(ch) {
                proof {
                    assert((seq![ch] + self@).first() == ch);
                    assert((seq![ch] + self@).drop_first() =~= self@);
                }
                return Some(ch);
            }
        }
        proof {
            assert(self.rest() =~= Seq::<char>::empty());
            lemma_strip_marks(self.rest());
        }
        None
    }

    /// Gives the last character that is still to come, or nothing.
    pub fn next_back(&mut self) -> (item: Option<char>)
        ensures
            old(self)@.len() > 0 ==> item == Some(old(self)@.last()) && final(self)@ == old(
                self,
            )@.drop_last(),
            old(self)@.len() == 0 ==> item is None && final(self)@ == old(self)@,
            final(self).rest().len() <= old(self).rest().len(),
            item is Some ==> final(self).rest().len() < old(self).rest().len(),
    {
        proof {
            use_type_invariant(&*self);
        }
        while self.front < self.back
            invariant
                self.front <= self.back <= self.chars@.len(),
                old(self).front <= old(self).back <= old(self).chars@.len(),
                self.chars == old(self).chars,
                self.front == old(self).front,
                self.back <= old(self).back,
                self@ == old(self)@,
            decreases self.back - self.front,
        {
            let ch = self.chars[self.back - 1];
            proof {
                let shorter = self.chars@.subrange(self.front as int, self.back - 1);
                assert(shorter.push(ch) =~= self.rest());
                lemma_strip_push(shorter, ch);
            }
            self.back -= 1;
            if !is_zalgo(ch) {
                proof {
                    assert(self@.push(ch).drop_last() =~= self@);
                }
                return Some(ch);
            }
        }
        proof {
            assert(self.rest() =~= Seq::<char>::empty());
            lemma_strip_marks(self.rest());
        }
        None
    }

    /// Skips `n` characters and gives the one after them. Where fewer than
    /// `n + 1` are still to come, the enumerator is emptied and nothing given.
    pub fn nth(&mut self, n: usize) -> (item: Option<char>)
        ensures
            n < old(self)@.len() ==> item == Some(old(self)@[n as int]) && final(self)@ == old(
                self,
            )@.skip(n + 1),
            n >= old(self)@.len() ==> item is None && final(self)@.len() == 0,
    {
        let mut skipped: usize = 0;
        proof {
            assert(self@.skip(0) =~= self@);
        }
        while skipped < n
            invariant
                skipped <= n,
                skipped <= old(self)@.len() ==> self@ == old(self)@.skip(skipped as int),
                skipped > old(self)@.len() ==> self@.len() == 0,
            decreases n - skipped,
        {
            let ghost held = self@;
            let gone = self.next();
            proof {
                if skipped < old(self)@.len() {
                    assert(held.drop_first() =~= old(self)@.skip(skipped + 1));
                }
            }
            skipped += 1;
        }
        let ghost held = self@;
        let item = self.next();
        proof {
            if n < old(self)@.len() {
                assert(held.drop_first() =~= old(self)@.skip(n + 1));
            }
        }
        item
    }

    /// A lower and an upper bound of how many characters are still to come:
    /// none at least, and at most as many as have not been looked at.
    pub fn size_hint(&self) -> (hint: (usize, Option<usize>))
        ensures
            hint == (0usize, Some(self.rest().len() as usize)),
            hint.0 <= self@.len() <= self.rest().len(),
    {
        proof {
            use_type_invariant(self);
            self.rest().lemma_filter_len(crate::marks::keeps());
        }
        (0, Some(self.back - self.front))
    }

    /// Uses the enumerator up and gives all that was still to come.
    pub fn collect(self) -> (out: Vec<char>)
        ensures
            out@ == self@,
    {
        let mut rest = self;
        let mut out: Vec<char> = Vec::new();
        proof {
            use_type_invariant(&rest);
        }
        loop
            invariant
                out@ + rest@ == self@,
            decreases rest.rest().len(),
        {
            let ghost held = rest@;
            let ghost left = rest.rest().len();
            proof {
                rest.rest().lemma_filter_len(crate::marks::keeps());
            }
            match rest.next() {
                Some(c) => {
                    proof {
                        assert(out@.push(c) + held.drop_first() =~= out@ + held);
                    }
                    out.push(c);
                },
                None => {
                    proof {
                        assert(out@ + held =~= out@);
                    }
                    return out;
                },
            }
        }
    }

    /// Uses the enumerator up and says how many characters were still to come.
    pub fn count(self) -> (n: usize)
        ensures
            n == self@.len(),
    {
        let out = self.collect();
        out.len()
    }

    /// Uses the enumerator up and gives the character that would have come
    /// last.
    pub fn last(self) -> (item: Option<char>)
        ensures
            self@.len() > 0 ==> item == Some(self@.last()),
            self@.len() == 0 ==> item is None,
    {
        let mut rest = self;
        rest.next_back()
    }
}

/// An enumerator of the characters of `chars` that are no marks, with nothing
/// taken from it yet.
pub fn unapply_iter(chars: Vec<char>) -> (plain: UnapplyIter)
    ensures
        plain@ == strip(chars@),
        plain.rest() == chars@,
{
    let back = chars.len();
    let plain = UnapplyIter { chars, front: 0, back };
    proof {
        assert(plain.rest() =~= plain.chars@);
    }
    plain
}

/// Whether `chain` holds what a fold of `items` with `f` has in hand before
/// its first step and after each step: each step hands `f` what the step
/// before gave and the next item.
pub open spec fn is_fold_chain<Acc, F: Fn(Acc, char) -> Acc>(
    f: F,
    items: Seq<char>,
    chain: Seq<Acc>,
) -> bool {
    &&& chain.len() == items.len() + 1
    &&& forall|i: int|
        0 <= i < items.len() ==> call_ensures(f, (#[trigger] chain[i], items[i]), chain[i + 1])
}

/// Whether folding `items` with `f` from the left, beginning at `init`, may
/// end in `result`.
pub open spec fn folds_to<Acc, F: Fn(Acc, char) -> Acc>(
    f: F,
    init: Acc,
    items: Seq<char>,
    result: Acc,
) -> bool {
    exists|chain: Seq<Acc>| #[trigger]
        is_fold_chain(f, items, chain) && chain.first() == init && chain.last() == result
}

impl UnapplyIter {
    /// Uses the enumerator up, folding what was still to come with `f`, front
    /// to back, beginning at `init`.
    pub fn fold<Acc, F: Fn(Acc, char) -> Acc>(self, init: Acc, f: F) -> (result: Acc)
        requires
            forall|acc: Acc, c: char| self@.contains(c) ==> call_requires(f, (acc, c)),
        ensures
            folds_to(f, init, self@, result),
    {
        let items = self.collect();
        fold_items(&items, init, f)
    }

    /// Uses the enumerator up, folding what was still to come with `f`, back
    /// to front, beginning at `init`.
    pub fn rfold<Acc, F: Fn(Acc, char) -> Acc>(self, init: Acc, f: F) -> (result: Acc)
        requires
            forall|acc: Acc, c: char| self@.contains(c) ==> call_requires(f, (acc, c)),
        ensures
            folds_to(f, init, self@.reverse(), result),
    {
        let mut rest = self;
        let mut turned: Vec<char> = Vec::new();
        proof {
            use_type_invariant(&rest);
            assert(rest@.reverse() + turned@ =~= self@.reverse());
        }
        loop
            invariant
                turned@ + rest@.reverse() == self@.reverse(),
                forall|acc: Acc, c: char| self@.contains(c) ==> call_requires(f, (acc, c)),
            decreases rest.rest().len(),
        {
            let ghost held = rest@;
            match rest.next_back() {
                Some(c) => {
                    proof {
                        assert(held.reverse() =~= seq![c] + held.drop_last().reverse());
                        assert(turned@.push(c) + held.drop_last().reverse() =~= turned@
                            + held.reverse());
                    }
                    turned.push(c);
                },
                None => {
                    proof {
                        assert(held.reverse() =~= Seq::<char>::empty());
                        assert(turned@ + held.reverse() =~= turned@);
                        assert forall|c: char| turned@.contains(c) implies self@.contains(c) by {
                            let i = choose|i: int| 0 <= i < turned@.len() && turned@[i] == c;
                            assert(self@[self@.len() - 1 - i] == c);
                        }
                    }
                    return fold_items(&turned, init, f);
                },
            }
        }
    }
}

/// Folds `items` with `f`, front to back, beginning at `init`.
fn fold_items<Acc, F: Fn(Acc, char) -> Acc>(items: &Vec<char>, init: Acc, f: F) -> (result: Acc)
    requires
        forall|acc: Acc, c: char| items@.contains(c) ==> call_requires(f, (acc, c)),
    ensures
        folds_to(f, init, items@, result),
{
    let mut acc = init;
    let mut i: usize = 0;
    let ghost mut chain: Seq<Acc> = seq![init];
    while i < items.len()
        invariant
            i <= items@.len(),
            forall|acc: Acc, c: char| items@.contains(c) ==> call_requires(f, (acc, c)),
            is_fold_chain(f, items@.take(i as int), chain),
            chain.first() == init,
            chain.last() == acc,
        decreases items@.len() - i,
    {
        let c = items[i];
        proof {
            assert(items@.contains(c));
        }
        let ghost before = acc;
        acc = f(acc, c);
        proof {
            let grown = chain.push(acc);
            let seen = items@.take(i + 1);
            assert forall|k: int| 0 <= k < seen.len() implies call_ensures(
                f,
                (#[trigger] grown[k], seen[k]),
                grown[k + 1],
            ) by {
                if k < i {
                    assert(grown[k] == chain[k]);
                    assert(seen[k] == items@.take(i as int)[k]);
                    assert(grown[k + 1] == chain[k + 1]);
                }
            }
            chain = grown;
        }
        i += 1;
    }
    proof {
        assert(items@.take(items@.len() as int) =~= items@);
    }
    acc
}

} // verus!
