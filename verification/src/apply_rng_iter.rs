use crate::char_kind::CharKind;
use crate::decoration::{
    burst_len, bursts_fit, enabled, interleave, is_burst, is_burst_of, is_decoration,
    lemma_decoration_not_shorter, lemma_exact_length, lemma_strip_marks, lemma_strip_push,
};
use crate::intensity::Intensity;
use crate::marks::{
    down_marks, is_mark, is_zalgo, middle_marks, strip, up_marks, DOWN_CHARS, MIDDLE_CHARS,
    UP_CHARS,
};
use crate::random::{draw_below, pick, RandomSource};
use vstd::prelude::*;

verus! {

/// Where the engine stands between two pulls.
#[derive(Copy, Clone, Debug, PartialEq, Eq, Structural)]
pub enum State {
    /// No burst is under way: the next pull takes a character of the text.
    Free,
    /// `count_up` marks of "above" are still owed, then the marks within and
    /// below.
    GenUp { count_up: usize, count_mid: usize, count_down: usize },
    /// `count_mid` marks of "within" are still owed, then the marks below.
    GenMid { count_mid: usize, count_down: usize },
    /// `count_down` marks of "below" are still owed.
    GenDown { count_down: usize },
    /// The text is used up; every further pull gives nothing.
    Finished,
}

impl State {
    /// The counts for which the rest of the burst under way is a burst: three
    /// zeros where none is under way.
    pub open spec fn pending(self) -> (int, int, int) {
        match self {
            State::GenUp { count_up, count_mid, count_down } => (
                count_up as int,
                count_mid as int,
                count_down as int,
            ),
            State::GenMid { count_mid, count_down } => (0, count_mid as int, count_down as int),
            State::GenDown { count_down } => (0, 0, count_down as int),
            _ => (0, 0, 0),
        }
    }

    /// Whether a burst is under way.
    pub open spec fn in_burst(self) -> bool {
        self is GenUp || self is GenMid || self is GenDown
    }

    /// Whether the state can occur under the selector: a class whose marks are
    /// being emitted is enabled and owes at least one mark.
    pub open spec fn fits(self, kind: CharKind) -> bool {
        match self {
            State::GenUp { count_up, .. } => kind.has_up() && count_up > 0,
            State::GenMid { count_mid, .. } => kind.has_middle() && count_mid > 0,
            State::GenDown { count_down } => kind.has_down() && count_down > 0,
            _ => true,
        }
    }

    /// How many marks the burst under way still has to give under the selector.
    pub open spec fn owed(self, kind: CharKind) -> int {
        burst_len(kind, self.pending().0, self.pending().1, self.pending().2)
    }
}

/// The state in which the marks below begin, or `Free` where there are none.
pub open spec fn after_mid(kind: CharKind, down: usize) -> State {
    if kind.has_down() && down > 0 {
        State::GenDown { count_down: down }
    } else {
        State::Free
    }
}

/// The state in which the marks within begin, or what follows them where
/// there are none.
pub open spec fn after_up(kind: CharKind, mid: usize, down: usize) -> State {
    if kind.has_middle() && mid > 0 {
        State::GenMid { count_mid: mid, count_down: down }
    } else {
        after_mid(kind, down)
    }
}

/// The state in which a burst for the counts begins: that of the first
/// enabled class with a count above 0, or `Free` where there is none.
pub open spec fn burst_start(kind: CharKind, up: usize, mid: usize, down: usize) -> State {
    if kind.has_up() && up > 0 {
        State::GenUp { count_up: up, count_mid: mid, count_down: down }
    } else {
        after_up(kind, mid, down)
    }
}

/// The rest of a burst is a burst for the counts it began with, whatever class
/// it begins in.
pub proof fn lemma_burst_start_pending(
    burst: Seq<char>,
    kind: CharKind,
    up: usize,
    mid: usize,
    down: usize,
)
    ensures
        burst_start(kind, up, mid, down).fits(kind),
        burst_start(kind, up, mid, down) !is Finished,
        burst_start(kind, up, mid, down).owed(kind) == burst_len(
            kind,
            up as int,
            mid as int,
            down as int,
        ),
        is_burst_of(
            burst,
            kind,
            burst_start(kind, up, mid, down).pending().0,
            burst_start(kind, up, mid, down).pending().1,
            burst_start(kind, up, mid, down).pending().2,
        ) <==> is_burst_of(burst, kind, up as int, mid as int, down as int),
{
}

fn begin_down(kind: CharKind, down: usize) -> (state: State)
    ensures
        state == after_mid(kind, down),
{
    let on = kind.contains(CharKind::down());
    if on && down > 0 {
        State::GenDown { count_down: down }
    } else {
        State::Free
    }
}

fn begin_mid(kind: CharKind, mid: usize, down: usize) -> (state: State)
    ensures
        state == after_up(kind, mid, down),
{
    let on = kind.contains(CharKind::middle());
    if on && mid > 0 {
        State::GenMid { count_mid: mid, count_down: down }
    } else {
        begin_down(kind, down)
    }
}

fn begin_burst(kind: CharKind, up: usize, mid: usize, down: usize) -> (state: State)
    ensures
        state == burst_start(kind, up, mid, down),
{
    let on = kind.contains(CharKind::up());
    if on && up > 0 {
        State::GenUp { count_up: up, count_mid: mid, count_down: down }
    } else {
        begin_mid(kind, mid, down)
    }
}

/// Draws the three counts of a preset: a raw number for each class, above
/// first, then within, then below, and the preset's shaping of the three.
fn generate_counts(rng: &mut RandomSource, intensity: Intensity) -> (counts: (
    usize,
    usize,
    usize,
))
    requires
        intensity.is_preset(),
    ensures
        intensity.may_yield(counts.0 as int, counts.1 as int, counts.2 as int),
{
    let limits = intensity.draw_limits();
    let raw_up = draw_below(rng, limits.0);
    let raw_middle = draw_below(rng, limits.1);
    let raw_down = draw_below(rng, limits.2);
    intensity.shape_counts(raw_up, raw_middle, raw_down)
}

/// The counts for the burst of one base character: those of an exact policy as
/// they are, those of a preset drawn, and under `Random` those of a preset
/// that is itself picked first.
fn plan_counts(rng: &mut RandomSource, intensity: Intensity) -> (counts: (usize, usize, usize))
    ensures
        intensity.may_yield(counts.0 as int, counts.1 as int, counts.2 as int),
{
    match intensity {
        Intensity::Random => {
            let choices = [Intensity::Mini, Intensity::Normal, Intensity::Maxi];
            let choice = pick(rng, choices.as_slice());
            assert(choices@.len() == 3);
            let preset = choice.unwrap();
            assert(preset.is_preset()) by {
                let i = choose|i: int| 0 <= i < choices@.len() && choices@[i] == preset;
                assert(choices@[i] == preset);
            }
            generate_counts(rng, preset)
        },
        Intensity::Custom { up, middle, down } => (up, middle, down),
        _ => generate_counts(rng, intensity),
    }
}

/// What the engine keeps besides its generator: the text, the cursor into it
/// and the state.
struct Track {
    chars: Vec<char>,
    pos: usize,
    kind: CharKind,
    intensity: Intensity,
    state: State,
}

impl Track {
    #[verifier::type_invariant]
    closed spec fn inv(&self) -> bool {
        &&& self.pos <= self.chars@.len()
        &&& self.state.fits(self.kind)
        &&& self.state is Finished ==> self.pos == self.chars@.len()
    }
}

/// The decoration engine: it gives the characters of a text one pull at a
/// time, each character that is no mark followed by a burst of marks.
pub struct ApplyRngIter {
    rng: RandomSource,
    track: Track,
}

impl ApplyRngIter {
    /// The text that is being decorated.
    pub closed spec fn text(&self) -> Seq<char> {
        self.track.chars@
    }

    /// How many characters of the text have been taken.
    pub closed spec fn cursor(&self) -> int {
        self.track.pos as int
    }

    /// The selector of the classes that take part.
    pub closed spec fn kind(&self) -> CharKind {
        self.track.kind
    }

    /// The policy that says how many marks a burst has.
    pub closed spec fn intensity(&self) -> Intensity {
        self.track.intensity
    }

    /// Where the engine stands.
    pub closed spec fn state(&self) -> State {
        self.track.state
    }

    /// The cursor lies inside the text, the state can occur under the
    /// selector, and the engine has finished only at the end of the text.
    /// This holds of every engine that `apply_rng_iter` made, at all times.
    pub open spec fn wf(&self) -> bool {
        &&& 0 <= self.cursor() <= self.text().len()
        &&& self.state().fits(self.kind())
        &&& self.state() is Finished ==> self.cursor() == self.text().len()
    }

    /// Whether one pull may take the engine from `self` to `next` and give
    /// `item`.
    ///
    /// With no burst under way the pull takes the next character of the text
    /// and gives it as it is. Behind a mark nothing follows; behind any other
    /// character a burst begins, for counts that the policy may ask for. With
    /// a burst under way the pull gives one mark of the class that is owed.
    /// At the end of the text the pull gives nothing, now and ever after.
    pub open spec fn steps_to(&self, item: Option<char>, next: &ApplyRngIter) -> bool {
        &&& next.text() == self.text()
        &&& next.kind() == self.kind()
        &&& next.intensity() == self.intensity()
        &&& match self.state() {
            State::Free => if self.cursor() < self.text().len() {
                let ch = self.text()[self.cursor()];
                &&& item == Some(ch)
                &&& next.cursor() == self.cursor() + 1
                &&& if is_mark(ch) {
                    next.state() == State::Free
                } else {
                    exists|up: usize, mid: usize, down: usize|
                        self.intensity().may_yield(up as int, mid as int, down as int)
                            && next.state() == #[trigger] burst_start(self.kind(), up, mid, down)
                }
            } else {
                item is None && next.state() == State::Finished && next.cursor() == self.cursor()
            },
            State::GenUp { count_up, count_mid, count_down } => {
                &&& item matches Some(c) && up_marks().contains(c)
                &&& next.cursor() == self.cursor()
                &&& next.state() == if count_up == 1 {
                    after_up(self.kind(), count_mid, count_down)
                } else {
                    State::GenUp { count_up: (count_up - 1) as usize, count_mid, count_down }
                }
            },
            State::GenMid { count_mid, count_down } => {
                &&& item matches Some(c) && middle_marks().contains(c)
                &&& next.cursor() == self.cursor()
                &&& next.state() == if count_mid == 1 {
                    after_mid(self.kind(), count_down)
                } else {
                    State::GenMid { count_mid: (count_mid - 1) as usize, count_down }
                }
            },
            State::GenDown { count_down } => {
                &&& item matches Some(c) && down_marks().contains(c)
                &&& next.cursor() == self.cursor()
                &&& next.state() == if count_down == 1 {
                    State::Free
                } else {
                    State::GenDown { count_down: (count_down - 1) as usize }
                }
            },
            State::Finished => {
                item is None && next.state() == State::Finished && next.cursor() == self.cursor()
            },
        }
    }

    /// One pull: the next character of the decoration, or nothing once the
    /// text is used up and the last burst has been given.
    pub fn next(&mut self) -> (item: Option<char>)
        ensures
            old(self).wf(),
            final(self).wf(),
            old(self).steps_to(item, final(self)),
    {
        proof {
            use_type_invariant(&self.track);
        }
        match self.track.state {
            State::Free => {
                if self.track.pos < self.track.chars.len() {
                    let ch = self.track.chars[self.track.pos];
                    self.track.pos += 1;
                    if is_zalgo(ch) {
                        return Some(ch);
                    }
                    let counts = plan_counts(&mut self.rng, self.track.intensity);
                    proof {
                        lemma_burst_start_pending(
                            Seq::empty(),
                            self.track.kind,
                            counts.0,
                            counts.1,
                            counts.2,
                        );
                    }
                    self.track.state = begin_burst(self.track.kind, counts.0, counts.1, counts.2);
                    return Some(ch);
                }
                self.track.state = State::Finished;
                None
            },
            State::GenUp { count_up, count_mid, count_down } => {
                let c = pick(&mut self.rng, UP_CHARS.as_slice());
                proof {
                    lemma_burst_start_pending(Seq::empty(), self.track.kind, 0, count_mid, count_down);
                }
                self.track.state = if count_up == 1 {
                    begin_mid(self.track.kind, count_mid, count_down)
                } else {
                    State::GenUp { count_up: count_up - 1, count_mid, count_down }
                };
                Some(c.unwrap())
            },
            State::GenMid { count_mid, count_down } => {
                let c = pick(&mut self.rng, MIDDLE_CHARS.as_slice());
                proof {
                    lemma_burst_start_pending(Seq::empty(), self.track.kind, 0, 0, count_down);
                }
                self.track.state = if count_mid == 1 {
                    begin_down(self.track.kind, count_down)
                } else {
                    State::GenMid { count_mid: count_mid - 1, count_down }
                };
                Some(c.unwrap())
            },
            State::GenDown { count_down } => {
                let c = pick(&mut self.rng, DOWN_CHARS.as_slice());
                self.track.state = if count_down == 1 {
                    State::Free
                } else {
                    State::GenDown { count_down: count_down - 1 }
                };
                Some(c.unwrap())
            },
            State::Finished => None,
        }
    }
}

/// An engine that decorates `chars` under the selector and the policy, drawing
/// from `rng`. Nothing has been pulled from it yet.
pub fn apply_rng_iter(rng: RandomSource, chars: Vec<char>, kind: CharKind, intensity: Intensity)
    -> (engine: ApplyRngIter)
    ensures
        engine.text() == chars@,
        engine.cursor() == 0,
        engine.kind() == kind,
        engine.intensity() == intensity,
        engine.state() == State::Free,
        engine.wf(),
{
    ApplyRngIter { rng, track: Track { chars, pos: 0, kind, intensity, state: State::Free } }
}

impl ApplyRngIter {
    /// The part of the text that has not been taken yet.
    pub open spec fn rest(&self) -> Seq<char> {
        self.text().skip(self.cursor())
    }

    /// Whether `out` is what the engine may still give, from where it stands
    /// to the end: the rest of the burst under way, then a decoration of the
    /// rest of the text.
    pub open spec fn completes_with(&self, out: Seq<char>) -> bool {
        exists|tail: Seq<char>, more: Seq<char>|
            {
                &&& #[trigger] is_burst_of(
                    tail,
                    self.kind(),
                    self.state().pending().0,
                    self.state().pending().1,
                    self.state().pending().2,
                )
                &&& #[trigger] is_decoration(more, self.rest(), self.kind(), self.intensity())
                &&& out == tail + more
            }
    }

    /// Pulls until the burst under way is over and puts what comes behind
    /// `out`.
    fn finish_burst(&mut self, out: &mut Vec<char>)
        ensures
            old(self).wf(),
            final(self).wf(),
            final(self).text() == old(self).text(),
            final(self).cursor() == old(self).cursor(),
            final(self).kind() == old(self).kind(),
            final(self).intensity() == old(self).intensity(),
            final(self).state() == if old(self).state() is Finished {
                State::Finished
            } else {
                State::Free
            },
            final(out)@.len() >= old(out)@.len(),
            final(out)@.take(old(out)@.len() as int) == old(out)@,
            is_burst_of(
                final(out)@.skip(old(out)@.len() as int),
                old(self).kind(),
                old(self).state().pending().0,
                old(self).state().pending().1,
                old(self).state().pending().2,
            ),
    {
        proof {
            use_type_invariant(&self.track);
        }
        let ghost before = out@;
        let ghost kind = self.kind();
        let ghost first = self.state();
        let ghost plan = self.state().pending();
        loop
            invariant
                self.wf(),
                self.text() == old(self).text(),
                self.cursor() == old(self).cursor(),
                self.kind() == kind,
                self.intensity() == old(self).intensity(),
                first == old(self).state(),
                first.fits(kind),
                plan == first.pending(),
                kind == old(self).kind(),
                before == old(out)@,
                first is Finished <==> self.state() is Finished,
                out@.len() >= before.len(),
                out@.take(before.len() as int) == before,
                self.state().pending().0 <= plan.0,
                self.state().pending().1 <= plan.1,
                self.state().pending().2 <= plan.2,
                self.state() is GenUp ==> self.state().pending().1 == plan.1
                    && self.state().pending().2 == plan.2,
                self.state() is GenMid ==> self.state().pending().2 == plan.2,
                is_burst_of(
                    out@.skip(before.len() as int),
                    kind,
                    plan.0 - self.state().pending().0,
                    plan.1 - self.state().pending().1,
                    plan.2 - self.state().pending().2,
                ),
            ensures
                !self.state().in_burst(),
            decreases
                    self.state().pending().0 + self.state().pending().1 + self.state().pending().2,
        {
            let under_way = match self.track.state {
                State::Free => false,
                State::Finished => false,
                _ => true,
            };
            if !under_way {
                break;
            }
            let ghost held = out@;
            let item = self.next();
            let c = item.unwrap();
            out.push(c);
            proof {
                let run = held.skip(before.len() as int);
                assert(out@.skip(before.len() as int) =~= run.push(c));
                assert(out@.take(before.len() as int) =~= held.take(before.len() as int));
            }
        }
    }
}

impl ApplyRngIter {
    /// Pulls until nothing is left and gives all that came, in its order.
    pub fn collect(self) -> (out: Vec<char>)
        ensures
            self.wf(),
            self.completes_with(out@),
    {
        let mut engine = self;
        let mut out: Vec<char> = Vec::new();
        let ghost text = engine.text();
        let ghost kind = engine.kind();
        let ghost intensity = engine.intensity();
        let ghost from = engine.cursor();
        engine.finish_burst(&mut out);
        let ghost tail = out@;
        let ghost bursts = Seq::<Seq<char>>::empty();
        proof {
            assert(out@.skip(0) =~= out@);
            assert(text.subrange(from, from) =~= Seq::<char>::empty());
            assert(tail + Seq::<char>::empty() =~= tail);
        }
        loop
            invariant
                engine.wf(),
                self.wf(),
                engine.text() == text,
                engine.kind() == kind,
                engine.intensity() == intensity,
                text == self.text(),
                kind == self.kind(),
                intensity == self.intensity(),
                from == self.cursor(),
                from <= engine.cursor() <= text.len(),
                !engine.state().in_burst(),
                is_burst_of(
                    tail,
                    kind,
                    self.state().pending().0,
                    self.state().pending().1,
                    self.state().pending().2,
                ),
                bursts_fit(text.subrange(from, engine.cursor()), bursts, kind, intensity),
                out@ == tail + interleave(text.subrange(from, engine.cursor()), bursts),
            ensures
                engine.cursor() == text.len(),
            decreases text.len() - engine.cursor(),
        {
            let ghost at = engine.cursor();
            let ghost seen = text.subrange(from, at);
            let ghost woven = interleave(seen, bursts);
            let item = engine.next();
            match item {
                None => {
                    break;
                },
                Some(c) => {
                    out.push(c);
                    let ghost held = out@;
                    let ghost state = engine.state();
                    engine.finish_burst(&mut out);
                    proof {
                        let burst = out@.skip(held.len() as int);
                        let grown = text.subrange(from, at + 1);
                        assert(grown.drop_last() =~= seen);
                        assert(grown.last() == c);
                        assert(bursts.push(burst).drop_last() =~= bursts);
                        assert(out@ =~= held + burst);
                        assert(held =~= tail + woven + seq![c]);
                        assert(interleave(grown, bursts.push(burst)) =~= woven + seq![c] + burst);
                        if !is_mark(c) {
                            let (up, mid, down) = choose|up: usize, mid: usize, down: usize|
                                intensity.may_yield(up as int, mid as int, down as int) && state
                                    == #[trigger] burst_start(kind, up, mid, down);
                            lemma_burst_start_pending(burst, kind, up, mid, down);
                            assert(is_burst_of(burst, kind, up as int, mid as int, down as int));
                            assert(is_burst(burst, kind, intensity));
                        }
                        assert forall|i: int| 0 <= i < grown.len() implies if is_mark(grown[i]) {
                            (#[trigger] bursts.push(burst)[i]).len() == 0
                        } else {
                            is_burst(bursts.push(burst)[i], kind, intensity)
                        } by {
                            if i < seen.len() {
                                assert(grown[i] == seen[i]);
                                assert(bursts.push(burst)[i] == bursts[i]);
                            }
                        }
                        bursts = bursts.push(burst);
                    }
                },
            }
        }
        proof {
            assert(text.subrange(from, text.len() as int) =~= self.rest());
            let more = interleave(self.rest(), bursts);
            assert(is_decoration(more, self.rest(), kind, intensity));
        }
        out
    }
}

/// The sum of three numbers, unless it does not fit.
fn sum3(a: usize, b: usize, c: usize) -> (sum: Option<usize>)
    ensures
        sum == if a + b + c <= usize::MAX {
            Some((a + b + c) as usize)
        } else {
            None
        },
{
    match a.checked_add(b) {
        Some(ab) => ab.checked_add(c),
        None => None,
    }
}

/// The count where the class is enabled, 0 where it is not.
fn enabled_count(on: bool, count: usize) -> (n: usize)
    ensures
        n == enabled(on, count as int),
{
    if on {
        count
    } else {
        0
    }
}

impl ApplyRngIter {
    /// How many characters the engine still gives under a policy of exact
    /// counts: the marks that the burst under way owes, the rest of the text,
    /// and a burst for each character of the rest that is no mark.
    pub open spec fn exact_left(&self) -> int
        recommends
            self.intensity() is Custom,
    {
        self.state().owed(self.kind()) + self.rest().len() + strip(self.rest()).len() * burst_len(
            self.kind(),
            self.intensity()->up as int,
            self.intensity()->middle as int,
            self.intensity()->down as int,
        )
    }

    /// How many characters of the rest of the text are no marks.
    fn count_bases(&self) -> (n: usize)
        ensures
            n == strip(self.rest()).len(),
            n <= self.rest().len(),
    {
        proof {
            use_type_invariant(&self.track);
        }
        let mut n: usize = 0;
        let mut i: usize = self.track.pos;
        proof {
            assert(self.text().subrange(self.cursor(), i as int) =~= Seq::<char>::empty());
            lemma_strip_marks(Seq::<char>::empty());
        }
        while i < self.track.chars.len()
            invariant
                self.cursor() <= i <= self.text().len(),
                self.track.chars@ == self.text(),
                self.track.pos == self.cursor(),
                n == strip(self.text().subrange(self.cursor(), i as int)).len(),
                n <= i - self.cursor(),
            decreases self.text().len() - i,
        {
            let ch = self.track.chars[i];
            proof {
                let seen = self.text().subrange(self.cursor(), i as int);
                assert(self.text().subrange(self.cursor(), i + 1) =~= seen.push(ch));
                lemma_strip_push(seen, ch);
            }
            if !is_zalgo(ch) {
                n += 1;
            }
            i += 1;
        }
        proof {
            assert(self.text().subrange(self.cursor(), i as int) =~= self.rest());
        }
        n
    }

    /// How many marks the burst under way still owes, unless the number does
    /// not fit.
    fn owed_checked(&self) -> (owed: Option<usize>)
        ensures
            owed == if self.state().owed(self.kind()) <= usize::MAX {
                Some(self.state().owed(self.kind()) as usize)
            } else {
                None
            },
            0 <= self.state().owed(self.kind()),
    {
        proof {
            use_type_invariant(&self.track);
        }
        let kind = self.track.kind;
        let has_up = kind.contains(CharKind::up());
        let has_mid = kind.contains(CharKind::middle());
        let has_down = kind.contains(CharKind::down());
        match self.track.state {
            State::GenUp { count_up, count_mid, count_down } => sum3(
                enabled_count(has_up, count_up),
                enabled_count(has_mid, count_mid),
                enabled_count(has_down, count_down),
            ),
            State::GenMid { count_mid, count_down } => sum3(
                0,
                enabled_count(has_mid, count_mid),
                enabled_count(has_down, count_down),
            ),
            State::GenDown { count_down } => Some(enabled_count(has_down, count_down)),
            _ => Some(0),
        }
    }

    /// `exact_left`, unless it does not fit.
    fn exact_left_checked(&self) -> (left: Option<usize>)
        requires
            self.intensity() is Custom,
        ensures
            left == if self.exact_left() <= usize::MAX {
                Some(self.exact_left() as usize)
            } else {
                None
            },
    {
        proof {
            use_type_invariant(&self.track);
        }
        let kind = self.track.kind;
        let bases = self.count_bases();
        let rest = self.track.chars.len() - self.track.pos;
        let owed = self.owed_checked();
        let ghost each = burst_len(
            kind,
            self.intensity()->up as int,
            self.intensity()->middle as int,
            self.intensity()->down as int,
        );
        let ghost bases_int = bases as int;
        let bursts = match self.track.intensity {
            Intensity::Custom { up, middle, down } => {
                if bases == 0 {
                    assert(bases_int * each == 0) by (nonlinear_arith)
                        requires
                            bases_int == 0,
                    ;
                    Some(0)
                } else {
                    let sum = sum3(
                        enabled_count(kind.contains(CharKind::up()), up),
                        enabled_count(kind.contains(CharKind::middle()), middle),
                        enabled_count(kind.contains(CharKind::down()), down),
                    );
                    assert(bases_int * each >= each) by (nonlinear_arith)
                        requires
                            bases_int >= 1,
                            each >= 0,
                    ;
                    match sum {
                        Some(each_burst) => bases.checked_mul(each_burst),
                        None => None,
                    }
                }
            },
            _ => None,
        };
        assert(bursts == if bases_int * each <= usize::MAX {
            Some((bases_int * each) as usize)
        } else {
            None
        });
        assert(0 <= bases_int * each) by (nonlinear_arith)
            requires
                bases_int >= 0,
                each >= 0,
        ;
        match (owed, bursts) {
            (Some(owed), Some(bursts)) => sum3(owed, rest, bursts),
            _ => None,
        }
    }

    /// A lower and an upper bound of how many characters the engine still
    /// gives.
    ///
    /// Under a policy of exact counts both bounds are the number itself; where
    /// that number does not fit, the lower bound is the largest number there
    /// is and the upper bound is left open. Under any other policy the lower
    /// bound is the length of the rest of the text, and the upper bound is
    /// left open, since the bursts are drawn.
    pub fn size_hint(&self) -> (hint: (usize, Option<usize>))
        ensures
            self.wf(),
            self.intensity() is Custom && self.exact_left() <= usize::MAX ==> hint == (
                self.exact_left() as usize,
                Some(self.exact_left() as usize),
            ),
            self.intensity() is Custom && self.exact_left() > usize::MAX ==> hint == (
                usize::MAX,
                None::<usize>,
            ),
            !(self.intensity() is Custom) ==> hint == (self.rest().len() as usize, None::<usize>),
    {
        proof {
            use_type_invariant(&self.track);
        }
        match self.track.intensity {
            Intensity::Custom { .. } => match self.exact_left_checked() {
                Some(left) => (left, Some(left)),
                None => (usize::MAX, None),
            },
            _ => (self.track.chars.len() - self.track.pos, None),
        }
    }

    /// Uses the engine up and says how many characters it still gave.
    ///
    /// Under a policy of exact counts the number is computed, and nothing is
    /// drawn; it has to fit. Under any other policy the engine is pulled to
    /// its end.
    pub fn count(self) -> (n: usize)
        requires
            self.intensity() is Custom ==> self.exact_left() <= usize::MAX,
        ensures
            self.wf(),
            self.intensity() is Custom ==> n == self.exact_left(),
            !(self.intensity() is Custom) ==> exists|out: Seq<char>| #[trigger]
                self.completes_with(out) && n == out.len(),
    {
        proof {
            use_type_invariant(&self.track);
        }
        match self.track.intensity {
            Intensity::Custom { .. } => {
                let left = self.exact_left_checked();
                left.unwrap()
            },
            _ => {
                let out = self.collect();
                out.len()
            },
        }
    }
}

impl ApplyRngIter {
    /// What an engine gives from which nothing has been pulled yet is a
    /// decoration of its text, and every decoration of its text is something
    /// that it may give.
    pub proof fn lemma_fresh_engine_decorates(&self, out: Seq<char>)
        requires
            self.state() is Free,
            self.cursor() == 0,
        ensures
            self.completes_with(out) <==> is_decoration(
                out,
                self.text(),
                self.kind(),
                self.intensity(),
            ),
    {
        assert(self.rest() =~= self.text());
        let none = Seq::<char>::empty();
        if self.completes_with(out) {
            let (tail, more) = choose|tail: Seq<char>, more: Seq<char>|
                {
                    &&& #[trigger] is_burst_of(tail, self.kind(), 0, 0, 0)
                    &&& #[trigger] is_decoration(
                        more,
                        self.rest(),
                        self.kind(),
                        self.intensity(),
                    )
                    &&& out == tail + more
                };
            assert(tail.len() == 0);
            assert(tail + more =~= more);
            assert(is_decoration(out, self.text(), self.kind(), self.intensity()));
        }
        if is_decoration(out, self.text(), self.kind(), self.intensity()) {
            assert(self.state().pending() == (0int, 0int, 0int));
            assert(is_burst_of(
                none,
                self.kind(),
                self.state().pending().0,
                self.state().pending().1,
                self.state().pending().2,
            ));
            assert(is_decoration(out, self.rest(), self.kind(), self.intensity()));
            assert(out == none + out) by {
                assert(none + out =~= out);
            }
            assert(self.completes_with(out));
        }
    }

    /// However the draws fall, the engine still gives no fewer characters
    /// than the rest of its text has, and under a policy of exact counts it
    /// gives exactly `exact_left` of them: the bounds of `size_hint` hold, and
    /// `count` tells the truth.
    pub proof fn lemma_completion_length(&self, out: Seq<char>)
        requires
            self.wf(),
            self.completes_with(out),
        ensures
            out.len() >= self.state().owed(self.kind()) + self.rest().len(),
            out.len() >= self.rest().len(),
            self.intensity() is Custom ==> out.len() == self.exact_left(),
    {
        let p = self.state().pending();
        let (tail, more) = choose|tail: Seq<char>, more: Seq<char>|
            {
                &&& #[trigger] is_burst_of(tail, self.kind(), p.0, p.1, p.2)
                &&& #[trigger] is_decoration(more, self.rest(), self.kind(), self.intensity())
                &&& out == tail + more
            };
        lemma_decoration_not_shorter(more, self.rest(), self.kind(), self.intensity());
        if self.intensity() is Custom {
            lemma_exact_length(
                more,
                self.rest(),
                self.kind(),
                self.intensity()->up,
                self.intensity()->middle,
                self.intensity()->down,
            );
        }
    }
}

} // verus!
