use crate::char_kind::CharKind;
use crate::intensity::Intensity;
use crate::marks::{down_marks, is_mark, middle_marks, strip, up_marks};
use vstd::prelude::*;

verus! {

/// How many marks of a class come out for a count: the count where the class
/// is enabled, none where it is not.
pub open spec fn enabled(on: bool, count: int) -> int {
    if on {
        count
    } else {
        0
    }
}

/// How many marks a burst for the counts has in all, under the selector.
pub open spec fn burst_len(kind: CharKind, up: int, middle: int, down: int) -> int {
    enabled(kind.has_up(), up) + enabled(kind.has_middle(), middle) + enabled(
        kind.has_down(),
        down,
    )
}

/// Whether `burst` is a run of marks for the counts `up`, `middle` and `down`
/// under the selector `kind`: for each enabled class, in the order above,
/// within, below, as many marks of that class's table as its count says, and
/// nothing else.
pub open spec fn is_burst_of(burst: Seq<char>, kind: CharKind, up: int, middle: int, down: int)
    -> bool {
    let u = enabled(kind.has_up(), up);
    let m = enabled(kind.has_middle(), middle);
    let d = enabled(kind.has_down(), down);
    &&& 0 <= u && 0 <= m && 0 <= d
    &&& burst.len() == u + m + d
    &&& forall|i: int| 0 <= i < u ==> up_marks().contains(#[trigger] burst[i])
    &&& forall|i: int| u <= i < u + m ==> middle_marks().contains(#[trigger] burst[i])
    &&& forall|i: int| u + m <= i < u + m + d ==> down_marks().contains(#[trigger] burst[i])
}

/// Whether `burst` may stand behind one base character under the selector and
/// the policy: it is a burst for some counts that the policy may ask for.
pub open spec fn is_burst(burst: Seq<char>, kind: CharKind, intensity: Intensity) -> bool {
    exists|up: int, middle: int, down: int|
        intensity.may_yield(up, middle, down) && #[trigger] is_burst_of(
            burst,
            kind,
            up,
            middle,
            down,
        )
}

/// The text with `bursts[i]` put behind `text[i]`, for every `i`.
pub open spec fn interleave(text: Seq<char>, bursts: Seq<Seq<char>>) -> Seq<char>
    recommends
        bursts.len() == text.len(),
    decreases text.len(),
{
    if text.len() == 0 || bursts.len() == 0 {
        Seq::<char>::empty()
    } else {
        interleave(text.drop_last(), bursts.drop_last()) + seq![text.last()] + bursts.last()
    }
}

/// Whether `bursts` holds, for each character of `text`, what may stand behind
/// it: nothing behind a character that is itself a mark, a burst under the
/// selector and the policy behind any other.
pub open spec fn bursts_fit(
    text: Seq<char>,
    bursts: Seq<Seq<char>>,
    kind: CharKind,
    intensity: Intensity,
) -> bool {
    &&& bursts.len() == text.len()
    &&& forall|i: int|
        0 <= i < text.len() ==> if is_mark(text[i]) {
            (#[trigger] bursts[i]).len() == 0
        } else {
            is_burst(bursts[i], kind, intensity)
        }
}

/// Whether `out` is a decoration of `text` under the selector and the policy:
/// the characters of `text` in their order, each mark among them unchanged and
/// with nothing added, each other character followed by a burst.
pub open spec fn is_decoration(
    out: Seq<char>,
    text: Seq<char>,
    kind: CharKind,
    intensity: Intensity,
) -> bool {
    exists|bursts: Seq<Seq<char>>| #[trigger]
        bursts_fit(text, bursts, kind, intensity) && out == interleave(text, bursts)
}

/// Every character of a burst is a mark.
pub proof fn lemma_burst_holds_marks(
    burst: Seq<char>,
    kind: CharKind,
    up: int,
    middle: int,
    down: int,
)
    requires
        is_burst_of(burst, kind, up, middle, down),
    ensures
        forall|i: int| 0 <= i < burst.len() ==> is_mark(#[trigger] burst[i]),
{
    assert forall|i: int| 0 <= i < burst.len() implies is_mark(#[trigger] burst[i]) by {
        crate::marks::lemma_is_mark_by_table(burst[i]);
    }
}

/// Stripping a run of marks leaves nothing.
pub proof fn lemma_strip_marks(run: Seq<char>)
    requires
        forall|i: int| 0 <= i < run.len() ==> is_mark(#[trigger] run[i]),
    ensures
        strip(run) == Seq::<char>::empty(),
    decreases run.len(),
{
    reveal(Seq::filter);
    if run.len() > 0 {
        assert(is_mark(run[run.len() - 1]));
        lemma_strip_marks(run.drop_last());
    }
}

/// Stripping a text without marks leaves it as it is.
pub proof fn lemma_strip_plain(text: Seq<char>)
    requires
        forall|i: int| 0 <= i < text.len() ==> !is_mark(#[trigger] text[i]),
    ensures
        strip(text) == text,
    decreases text.len(),
{
    reveal(Seq::filter);
    if text.len() > 0 {
        assert(!is_mark(text[text.len() - 1]));
        lemma_strip_plain(text.drop_last());
        assert(text.drop_last().push(text.last()) =~= text);
    } else {
        assert(strip(text) =~= text);
    }
}

/// Stripping goes through a concatenation part by part.
pub proof fn lemma_strip_concat(a: Seq<char>, b: Seq<char>)
    ensures
        strip(a + b) == strip(a) + strip(b),
{
    Seq::filter_distributes_over_add(a, b, crate::marks::keeps());
}

/// Stripping a single character leaves it unless it is a mark.
pub proof fn lemma_strip_one(c: char)
    ensures
        strip(seq![c]) == if is_mark(c) {
            Seq::<char>::empty()
        } else {
            seq![c]
        },
{
    reveal(Seq::filter);
    let one = seq![c];
    assert(one.drop_last() =~= Seq::<char>::empty());
    assert(strip(one.drop_last()) =~= Seq::<char>::empty());
    assert(one.last() == c);
    if !is_mark(c) {
        assert(Seq::<char>::empty().push(c) =~= one);
    }
}

/// Stripping a text with one more character behind it: the character stays
/// unless it is a mark.
pub proof fn lemma_strip_push(text: Seq<char>, c: char)
    ensures
        strip(text.push(c)) == if is_mark(c) {
            strip(text)
        } else {
            strip(text).push(c)
        },
{
    lemma_strip_concat(text, seq![c]);
    lemma_strip_one(c);
    assert(text + seq![c] =~= text.push(c));
    assert(strip(text) + Seq::<char>::empty() =~= strip(text));
    assert(strip(text) + seq![c] =~= strip(text).push(c));
}

/// Stripping a decoration gives what stripping the text gives: decorating adds
/// marks and nothing else.
pub proof fn lemma_strip_decoration(
    out: Seq<char>,
    text: Seq<char>,
    kind: CharKind,
    intensity: Intensity,
)
    requires
        is_decoration(out, text, kind, intensity),
    ensures
        strip(out) == strip(text),
{
    let bursts = choose|bursts: Seq<Seq<char>>| #[trigger]
        bursts_fit(text, bursts, kind, intensity) && out == interleave(text, bursts);
    lemma_strip_interleave(text, bursts, kind, intensity);
}

/// Stripping the decoration of a text without marks gives the text back.
pub proof fn lemma_strip_inverts_decoration(
    out: Seq<char>,
    text: Seq<char>,
    kind: CharKind,
    intensity: Intensity,
)
    requires
        is_decoration(out, text, kind, intensity),
        forall|i: int| 0 <= i < text.len() ==> !is_mark(#[trigger] text[i]),
    ensures
        strip(out) == text,
{
    lemma_strip_decoration(out, text, kind, intensity);
    lemma_strip_plain(text);
}

proof fn lemma_strip_interleave(
    text: Seq<char>,
    bursts: Seq<Seq<char>>,
    kind: CharKind,
    intensity: Intensity,
)
    requires
        bursts_fit(text, bursts, kind, intensity),
    ensures
        strip(interleave(text, bursts)) == strip(text),
    decreases text.len(),
{
    if text.len() == 0 {
        assert(text =~= Seq::<char>::empty());
    } else {
        let head = text.drop_last();
        let done = bursts.drop_last();
        let last = bursts.last();
        assert(bursts_fit(head, done, kind, intensity)) by {
            assert forall|i: int| 0 <= i < head.len() implies if is_mark(head[i]) {
                (#[trigger] done[i]).len() == 0
            } else {
                is_burst(done[i], kind, intensity)
            } by {
                assert(done[i] == bursts[i]);
                assert(head[i] == text[i]);
            }
        }
        lemma_strip_interleave(head, done, kind, intensity);
        assert(strip(last) == Seq::<char>::empty()) by {
            let k = text.len() - 1;
            assert(last == bursts[k]);
            if is_mark(text[k]) {
                assert(last =~= Seq::<char>::empty());
                lemma_strip_marks(last);
            } else {
                assert(is_burst(bursts[k], kind, intensity));
                let (u, m, d) = choose|u: int, m: int, d: int|
                    intensity.may_yield(u, m, d) && #[trigger] is_burst_of(last, kind, u, m, d);
                lemma_burst_holds_marks(last, kind, u, m, d);
                lemma_strip_marks(last);
            }
        }
        let one = seq![text.last()];
        lemma_strip_concat(interleave(head, done) + one, last);
        lemma_strip_concat(interleave(head, done), one);
        lemma_strip_concat(head, one);
        assert(head + one =~= text);
        assert(strip(interleave(text, bursts)) =~= strip(head) + strip(one));
    }
}

/// Where no burst can hold a mark, because the selector is empty or the policy
/// asks for exactly none, a decoration is the text itself.
pub proof fn lemma_pass_through(
    out: Seq<char>,
    text: Seq<char>,
    kind: CharKind,
    intensity: Intensity,
)
    requires
        is_decoration(out, text, kind, intensity),
        (!kind.has_up() && !kind.has_middle() && !kind.has_down()) || intensity == (
        Intensity::Custom { up: 0, middle: 0, down: 0 }),
    ensures
        out == text,
{
    let bursts = choose|bursts: Seq<Seq<char>>| #[trigger]
        bursts_fit(text, bursts, kind, intensity) && out == interleave(text, bursts);
    assert forall|i: int| 0 <= i < text.len() implies (#[trigger] bursts[i]).len() == 0 by {
        if !is_mark(text[i]) {
            assert(is_burst(bursts[i], kind, intensity));
        }
    }
    lemma_interleave_nothing(text, bursts);
}

proof fn lemma_interleave_nothing(text: Seq<char>, bursts: Seq<Seq<char>>)
    requires
        bursts.len() == text.len(),
        forall|i: int| 0 <= i < text.len() ==> (#[trigger] bursts[i]).len() == 0,
    ensures
        interleave(text, bursts) == text,
    decreases text.len(),
{
    if text.len() == 0 {
        assert(interleave(text, bursts) =~= text);
    } else {
        assert forall|i: int| 0 <= i < text.len() - 1 implies (#[trigger] bursts.drop_last()[i]).len()
            == 0 by {
            assert(bursts.drop_last()[i] == bursts[i]);
        }
        lemma_interleave_nothing(text.drop_last(), bursts.drop_last());
        assert(bursts.last() == bursts[text.len() - 1]);
        assert(interleave(text, bursts) =~= text);
    }
}

/// A text of marks alone is its own and only decoration: no mark of the input
/// is changed, and none gets a burst.
pub proof fn lemma_marks_are_not_decorated(
    out: Seq<char>,
    text: Seq<char>,
    kind: CharKind,
    intensity: Intensity,
)
    requires
        is_decoration(out, text, kind, intensity),
        forall|i: int| 0 <= i < text.len() ==> is_mark(#[trigger] text[i]),
    ensures
        out == text,
{
    let bursts = choose|bursts: Seq<Seq<char>>| #[trigger]
        bursts_fit(text, bursts, kind, intensity) && out == interleave(text, bursts);
    assert forall|i: int| 0 <= i < text.len() implies (#[trigger] bursts[i]).len() == 0 by {
        assert(is_mark(text[i]));
    }
    lemma_interleave_nothing(text, bursts);
}

/// The empty text has the empty decoration and no other.
pub proof fn lemma_decoration_of_nothing(out: Seq<char>, kind: CharKind, intensity: Intensity)
    ensures
        is_decoration(out, Seq::<char>::empty(), kind, intensity) <==> out == Seq::<char>::empty(),
{
    let text = Seq::<char>::empty();
    let none = Seq::<Seq<char>>::empty();
    assert(bursts_fit(text, none, kind, intensity));
    assert(interleave(text, none) == text);
}

/// Under a policy of exact counts a decoration has one character for each
/// character of the text and, for each that is no mark, the counts of the
/// enabled classes besides.
pub proof fn lemma_exact_length(
    out: Seq<char>,
    text: Seq<char>,
    kind: CharKind,
    up: usize,
    middle: usize,
    down: usize,
)
    requires
        is_decoration(out, text, kind, Intensity::Custom { up, middle, down }),
    ensures
        out.len() == text.len() + strip(text).len() * burst_len(
            kind,
            up as int,
            middle as int,
            down as int,
        ),
{
    let intensity = Intensity::Custom { up, middle, down };
    let bursts = choose|bursts: Seq<Seq<char>>| #[trigger]
        bursts_fit(text, bursts, kind, intensity) && out == interleave(text, bursts);
    lemma_interleave_exact(text, bursts, kind, up, middle, down);
}

proof fn lemma_interleave_exact(
    text: Seq<char>,
    bursts: Seq<Seq<char>>,
    kind: CharKind,
    up: usize,
    middle: usize,
    down: usize,
)
    requires
        bursts_fit(text, bursts, kind, Intensity::Custom { up, middle, down }),
    ensures
        interleave(text, bursts).len() == text.len() + strip(text).len() * burst_len(
            kind,
            up as int,
            middle as int,
            down as int,
        ),
    decreases text.len(),
{
    let intensity = Intensity::Custom { up, middle, down };
    let each = burst_len(kind, up as int, middle as int, down as int);
    if text.len() == 0 {
        assert(text =~= Seq::<char>::empty());
        lemma_strip_marks(text);
        assert(0 * each == 0);
    } else {
        let head = text.drop_last();
        let done = bursts.drop_last();
        let k = text.len() - 1;
        assert(bursts_fit(head, done, kind, intensity)) by {
            assert forall|i: int| 0 <= i < head.len() implies if is_mark(head[i]) {
                (#[trigger] done[i]).len() == 0
            } else {
                is_burst(done[i], kind, intensity)
            } by {
                assert(done[i] == bursts[i]);
                assert(head[i] == text[i]);
            }
        }
        lemma_interleave_exact(head, done, kind, up, middle, down);
        let one = seq![text.last()];
        assert(head + one =~= text);
        lemma_strip_concat(head, one);
        lemma_strip_one(text.last());
        assert(bursts.last() == bursts[k]);
        assert(interleave(text, bursts).len() == interleave(head, done).len() + 1
            + bursts[k].len());
        if is_mark(text[k]) {
            assert(strip(text) =~= strip(head));
        } else {
            assert(is_burst(bursts[k], kind, intensity));
            assert(bursts[k].len() == each);
            assert(strip(text).len() == strip(head).len() + 1);
            assert((strip(head).len() + 1) * each == strip(head).len() * each + each)
                by (nonlinear_arith);
        }
    }
}

/// Under a policy of exact counts, where the text holds no mark and every
/// class with a count is enabled, or where all three counts are 0, a
/// decoration is the text's length times one more than the sum of the counts.
pub proof fn lemma_exact_length_of_plain_text(
    out: Seq<char>,
    text: Seq<char>,
    kind: CharKind,
    up: usize,
    middle: usize,
    down: usize,
)
    requires
        is_decoration(out, text, kind, Intensity::Custom { up, middle, down }),
        (up + middle + down == 0) || ((forall|i: int|
            0 <= i < text.len() ==> !is_mark(#[trigger] text[i])) && (up > 0 ==> kind.has_up())
            && (middle > 0 ==> kind.has_middle()) && (down > 0 ==> kind.has_down())),
    ensures
        out.len() == text.len() * (1 + up + middle + down),
{
    lemma_exact_length(out, text, kind, up, middle, down);
    let each = burst_len(kind, up as int, middle as int, down as int);
    if up + middle + down == 0 {
        assert(each == 0);
        assert(strip(text).len() * 0 == 0) by (nonlinear_arith);
        assert(text.len() * (1 + 0) == text.len()) by (nonlinear_arith);
    } else {
        lemma_strip_plain(text);
        assert(each == up + middle + down);
        assert(text.len() + text.len() * each == text.len() * (1 + each)) by (nonlinear_arith);
    }
}

/// A decoration is never shorter than the text.
pub proof fn lemma_decoration_not_shorter(
    out: Seq<char>,
    text: Seq<char>,
    kind: CharKind,
    intensity: Intensity,
)
    requires
        is_decoration(out, text, kind, intensity),
    ensures
        out.len() >= text.len(),
{
    let bursts = choose|bursts: Seq<Seq<char>>| #[trigger]
        bursts_fit(text, bursts, kind, intensity) && out == interleave(text, bursts);
    lemma_interleave_not_shorter(text, bursts);
}

proof fn lemma_interleave_not_shorter(text: Seq<char>, bursts: Seq<Seq<char>>)
    requires
        bursts.len() == text.len(),
    ensures
        interleave(text, bursts).len() >= text.len(),
    decreases text.len(),
{
    if text.len() > 0 {
        lemma_interleave_not_shorter(text.drop_last(), bursts.drop_last());
    }
}

/// Stripping a text with one more character before it: the character stays
/// unless it is a mark.
pub proof fn lemma_strip_first(text: Seq<char>)
    requires
        text.len() > 0,
    ensures
        strip(text) == if is_mark(text.first()) {
            strip(text.drop_first())
        } else {
            seq![text.first()] + strip(text.drop_first())
        },
{
    let one = seq![text.first()];
    assert(one + text.drop_first() =~= text);
    lemma_strip_concat(one, text.drop_first());
    lemma_strip_one(text.first());
    assert(Seq::<char>::empty() + strip(text.drop_first()) =~= strip(text.drop_first()));
}

} // verus!
