use crate::all_chars::all_chars;
use vstd::prelude::*;

verus! {

/// The marks that attach above a base character.
pub const UP_CHARS: [char; 50] = [
    '\u{030d}', '\u{030e}', '\u{0304}', '\u{0305}', '\u{033f}', '\u{0311}', '\u{0306}', '\u{0310}',
    '\u{0352}', '\u{0357}', '\u{0351}', '\u{0307}', '\u{0308}', '\u{030a}', '\u{0342}', '\u{0343}',
    '\u{0344}', '\u{034a}', '\u{034b}', '\u{034c}', '\u{0303}', '\u{0302}', '\u{030c}', '\u{0350}',
    '\u{0300}', '\u{0301}', '\u{030b}', '\u{030f}', '\u{0312}', '\u{0313}', '\u{0314}', '\u{033d}',
    '\u{0309}', '\u{0363}', '\u{0364}', '\u{0365}', '\u{0366}', '\u{0367}', '\u{0368}', '\u{0369}',
    '\u{036a}', '\u{036b}', '\u{036c}', '\u{036d}', '\u{036e}', '\u{036f}', '\u{033e}', '\u{035b}',
    '\u{0346}', '\u{031a}',
];

/// The marks that overlay a base character.
pub const MIDDLE_CHARS: [char; 23] = [
    '\u{0315}', '\u{031b}', '\u{0340}', '\u{0341}', '\u{0358}', '\u{0321}', '\u{0322}', '\u{0327}',
    '\u{0328}', '\u{0334}', '\u{0335}', '\u{0336}', '\u{034f}', '\u{035c}', '\u{035d}', '\u{035e}',
    '\u{035f}', '\u{0360}', '\u{0362}', '\u{0338}', '\u{0337}', '\u{0361}', '\u{0489}',
];

/// The marks that attach below a base character.
pub const DOWN_CHARS: [char; 40] = [
    '\u{0316}', '\u{0317}', '\u{0318}', '\u{0319}', '\u{031c}', '\u{031d}', '\u{031e}', '\u{031f}',
    '\u{0320}', '\u{0324}', '\u{0325}', '\u{0326}', '\u{0329}', '\u{032a}', '\u{032b}', '\u{032c}',
    '\u{032d}', '\u{032e}', '\u{032f}', '\u{0330}', '\u{0331}', '\u{0332}', '\u{0333}', '\u{0339}',
    '\u{033a}', '\u{033b}', '\u{033c}', '\u{0345}', '\u{0347}', '\u{0348}', '\u{0349}', '\u{034d}',
    '\u{034e}', '\u{0353}', '\u{0354}', '\u{0355}', '\u{0356}', '\u{0359}', '\u{035a}', '\u{0323}',
];

/// The "above" table as a sequence.
pub open spec fn up_marks() -> Seq<char> {
    UP_CHARS@
}

/// The "within" table as a sequence.
pub open spec fn middle_marks() -> Seq<char> {
    MIDDLE_CHARS@
}

/// The "below" table as a sequence.
pub open spec fn down_marks() -> Seq<char> {
    DOWN_CHARS@
}

/// Every mark, in the fixed order: above, then within, then below.
pub open spec fn all_marks() -> Seq<char> {
    up_marks() + middle_marks() + down_marks()
}

/// A character is a mark when it occurs in one of the three tables.
pub open spec fn is_mark(c: char) -> bool {
    all_marks().contains(c)
}

/// The test that keeps a character when stripping: it is no mark.
pub open spec fn keeps() -> spec_fn(char) -> bool {
    |c: char| !is_mark(c)
}

/// The text without its marks, the other characters in their order.
pub open spec fn strip(text: Seq<char>) -> Seq<char> {
    text.filter(keeps())
}

/// The three tables hold 50, 23 and 40 marks, 113 in all.
pub proof fn lemma_table_sizes()
    ensures
        up_marks().len() == 50,
        middle_marks().len() == 23,
        down_marks().len() == 40,
        all_marks().len() == up_marks().len() + middle_marks().len() + down_marks().len(),
        all_marks().len() == 113,
{
}

/// A position in the combined order falls into exactly one table: the first 50
/// positions into "above", the next 23 into "within", the last 40 into "below".
pub proof fn lemma_combined_index(i: int)
    requires
        0 <= i < 113,
    ensures
        i < 50 ==> all_marks()[i] == up_marks()[i],
        50 <= i < 73 ==> all_marks()[i] == middle_marks()[i - 50],
        73 <= i ==> all_marks()[i] == down_marks()[i - 73],
{
}

/// A character is a mark if and only if one of the three tables holds it.
pub proof fn lemma_is_mark_by_table(c: char)
    ensures
        is_mark(c) <==> (up_marks().contains(c) || middle_marks().contains(c)
            || down_marks().contains(c)),
{
    if is_mark(c) {
        let i = choose|i: int| 0 <= i < all_marks().len() && all_marks()[i] == c;
        lemma_combined_index(i);
        if i < 50 {
            assert(up_marks()[i] == c);
        } else if i < 73 {
            assert(middle_marks()[i - 50] == c);
        } else {
            assert(down_marks()[i - 73] == c);
        }
    }
    if up_marks().contains(c) {
        let i = choose|i: int| 0 <= i < up_marks().len() && up_marks()[i] == c;
        lemma_combined_index(i);
        assert(all_marks()[i] == c);
    }
    if middle_marks().contains(c) {
        let i = choose|i: int| 0 <= i < middle_marks().len() && middle_marks()[i] == c;
        lemma_combined_index(i + 50);
        assert(all_marks()[i + 50] == c);
    }
    if down_marks().contains(c) {
        let i = choose|i: int| 0 <= i < down_marks().len() && down_marks()[i] == c;
        lemma_combined_index(i + 73);
        assert(all_marks()[i + 73] == c);
    }
}

/// Whether the character is one of the marks.
pub fn is_zalgo(ch: char) -> (found: bool)
    ensures
        found == is_mark(ch),
{
    let mut marks = all_chars();
    loop
        invariant
            marks.back() == all_marks().len(),
            0 <= marks.front() <= marks.back(),
            forall|i: int| 0 <= i < marks.front() ==> all_marks()[i] != ch,
        decreases marks.back() - marks.front(),
    {
        match marks.next() {
            Some(c) => {
                if c == ch {
                    return true;
                }
            },
            None => {
                return false;
            },
        }
    }
}

} // verus!
