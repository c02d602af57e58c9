use vstd::prelude::*;

verus! {

/// How many marks of each class are put behind one base character.
#[derive(Copy, Clone, Debug, Hash, PartialEq, Eq, Structural, PartialOrd, Ord)]
pub enum Intensity {
    /// A small amount: up to 7 above, up to 1 within, up to 7 below.
    Mini,
    /// A medium amount: 1 to 8 above, up to 2 within, 1 to 8 below.
    Normal,
    /// A large amount: 3 to 18 above, 1 to 4 within, 3 to 18 below.
    Maxi,
    /// The amount of `Mini`, `Normal` or `Maxi`, chosen anew for each base
    /// character.
    Random,
    /// Exactly these amounts, for every base character.
    Custom { up: usize, middle: usize, down: usize },
}

impl Intensity {
    /// Whether the policy is one of the three fixed ranges.
    pub open spec fn is_preset(self) -> bool {
        self is Mini || self is Normal || self is Maxi
    }

    /// The bounds below which the three raw numbers of a preset are drawn, for
    /// "above", "within" and "below".
    pub open spec fn draw_bounds(self) -> (int, int, int)
        recommends
            self.is_preset(),
    {
        match self {
            Intensity::Mini => (8, 2, 8),
            Intensity::Normal => (16, 6, 16),
            _ => (64, 16, 64),
        }
    }

    /// The counts that a preset makes of three raw numbers: `Mini` takes them
    /// as they are, `Normal` halves them and adds 1 above and below, `Maxi`
    /// quarters them and adds 3 above and below and 1 within.
    pub open spec fn shaped(self, raw_up: int, raw_middle: int, raw_down: int) -> (int, int, int)
        recommends
            self.is_preset(),
    {
        match self {
            Intensity::Mini => (raw_up, raw_middle, raw_down),
            Intensity::Normal => (raw_up / 2 + 1, raw_middle / 2, raw_down / 2 + 1),
            _ => (raw_up / 4 + 3, raw_middle / 4 + 1, raw_down / 4 + 3),
        }
    }

    /// Whether the policy may ask for `up` marks above, `middle` within and
    /// `down` below one base character.
    pub open spec fn may_yield(self, up: int, middle: int, down: int) -> bool {
        match self {
            Intensity::Mini => 0 <= up < 8 && 0 <= middle < 2 && 0 <= down < 8,
            Intensity::Normal => 1 <= up <= 8 && 0 <= middle <= 2 && 1 <= down <= 8,
            Intensity::Maxi => 3 <= up <= 18 && 1 <= middle <= 4 && 3 <= down <= 18,
            Intensity::Random => {
                ||| 0 <= up < 8 && 0 <= middle < 2 && 0 <= down < 8
                ||| 1 <= up <= 8 && 0 <= middle <= 2 && 1 <= down <= 8
                ||| 3 <= up <= 18 && 1 <= middle <= 4 && 3 <= down <= 18
            },
            Intensity::Custom { up: u, middle: m, down: d } => up == u && middle == m && down == d,
        }
    }

    /// `Random` may ask for what one of the three presets may ask for.
    pub proof fn lemma_random_is_some_preset(up: int, middle: int, down: int)
        ensures
            Intensity::Random.may_yield(up, middle, down) <==> (Intensity::Mini.may_yield(
                up,
                middle,
                down,
            ) || Intensity::Normal.may_yield(up, middle, down) || Intensity::Maxi.may_yield(
                up,
                middle,
                down,
            )),
    {
    }

    /// The counts that a preset may ask for are those that it shapes from raw
    /// numbers below its bounds, and no others.
    pub proof fn lemma_shaped_range(self, up: int, middle: int, down: int)
        requires
            self.is_preset(),
        ensures
            self.may_yield(up, middle, down) <==> exists|a: int, b: int, c: int|
                0 <= a < self.draw_bounds().0 && 0 <= b < self.draw_bounds().1 && 0 <= c
                    < self.draw_bounds().2 && #[trigger] self.shaped(a, b, c) == (
                    up,
                    middle,
                    down,
                ),
    {
        if self.may_yield(up, middle, down) {
            let (a, b, c) = match self {
                Intensity::Mini => (up, middle, down),
                Intensity::Normal => (2 * (up - 1), 2 * middle, 2 * (down - 1)),
                _ => (4 * (up - 3), 4 * (middle - 1), 4 * (down - 3)),
            };
            assert(self.shaped(a, b, c) == (up, middle, down));
        }
    }

    /// The bounds below which the three raw numbers of a preset are drawn.
    pub fn draw_limits(self) -> (limits: (usize, usize, usize))
        requires
            self.is_preset(),
        ensures
            (limits.0 as int, limits.1 as int, limits.2 as int) == self.draw_bounds(),
    {
        match self {
            Intensity::Mini => (8, 2, 8),
            Intensity::Normal => (16, 6, 16),
            _ => (64, 16, 64),
        }
    }

    /// Makes a preset's counts of three raw numbers. Of raw numbers below the
    /// preset's bounds it makes counts that the preset may ask for.
    pub fn shape_counts(self, raw_up: usize, raw_middle: usize, raw_down: usize) -> (counts: (
        usize,
        usize,
        usize,
    ))
        requires
            self.is_preset(),
        ensures
            (counts.0 as int, counts.1 as int, counts.2 as int) == self.shaped(
                raw_up as int,
                raw_middle as int,
                raw_down as int,
            ),
            raw_up < self.draw_bounds().0 && raw_middle < self.draw_bounds().1 && raw_down
                < self.draw_bounds().2 ==> self.may_yield(
                counts.0 as int,
                counts.1 as int,
                counts.2 as int,
            ),
    {
        match self {
            Intensity::Mini => (raw_up, raw_middle, raw_down),
            Intensity::Normal => (raw_up / 2 + 1, raw_middle / 2, raw_down / 2 + 1),
            _ => (raw_up / 4 + 3, raw_middle / 4 + 1, raw_down / 4 + 3),
        }
    }
}

} // verus!
