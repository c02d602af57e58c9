use crate::intensity::Intensity;
use crate::text::{chars_of, string_of};
use vstd::prelude::*;

verus! {

/// Why a run of characters is no count.
#[derive(Copy, Clone, Debug, PartialEq, Eq, Structural)]
pub enum IntErrorKind {
    /// There is no character at all.
    Empty,
    /// A character is no decimal digit, or a sign stands alone.
    InvalidDigit,
    /// The number is too large for a count.
    PosOverflow,
}

/// Whether the character is white space: one of the code points that carry
/// that property.
pub open spec fn is_white(c: char) -> bool {
    let n = c as u32;
    (0x09 <= n <= 0x0d) || n == 0x20 || n == 0x85 || n == 0xa0 || n == 0x1680 || (0x2000 <= n
        <= 0x200a) || n == 0x2028 || n == 0x2029 || n == 0x202f || n == 0x205f || n == 0x3000
}

/// Whether the character is a decimal digit.
pub open spec fn is_digit(c: char) -> bool {
    '0' <= c <= '9'
}

/// The number that a decimal digit stands for.
pub open spec fn digit_value(c: char) -> int {
    c as u32 - '0' as u32
}

/// The text without the white space at its end.
pub open spec fn trimmed_end(text: Seq<char>) -> Seq<char>
    decreases text.len(),
{
    if text.len() > 0 && is_white(text.last()) {
        trimmed_end(text.drop_last())
    } else {
        text
    }
}

/// The text without the white space at its start and at its end.
pub open spec fn trimmed(text: Seq<char>) -> Seq<char>
    decreases text.len(),
{
    if text.len() > 0 && is_white(text.first()) {
        trimmed(text.drop_first())
    } else {
        trimmed_end(text)
    }
}

/// The number that a run of digits stands for, read from the left. The first
/// character that is no digit makes the run invalid; the first digit with
/// which the number no longer fits makes it too large.
pub open spec fn digits_value(digits: Seq<char>) -> Result<usize, IntErrorKind>
    decreases digits.len(),
{
    if digits.len() == 0 {
        Ok(0)
    } else {
        match digits_value(digits.drop_last()) {
            Err(kind) => Err(kind),
            Ok(before) => if !is_digit(digits.last()) {
                Err(IntErrorKind::InvalidDigit)
            } else if before * 10 + digit_value(digits.last()) > usize::MAX {
                Err(IntErrorKind::PosOverflow)
            } else {
                Ok((before * 10 + digit_value(digits.last())) as usize)
            },
        }
    }
}

/// The count that the text stands for: decimal digits, with or without a `+`
/// before them.
pub open spec fn count_value(text: Seq<char>) -> Result<usize, IntErrorKind> {
    if text.len() == 0 {
        Err(IntErrorKind::Empty)
    } else if text.first() == '+' {
        if text.len() == 1 {
            Err(IntErrorKind::InvalidDigit)
        } else {
            digits_value(text.drop_first())
        }
    } else {
        digits_value(text)
    }
}

fn white(c: char) -> (yes: bool)
    ensures
        yes == is_white(c),
{
    let n = c as u32;
    (0x09 <= n && n <= 0x0d) || n == 0x20 || n == 0x85 || n == 0xa0 || n == 0x1680 || (0x2000
        <= n && n <= 0x200a) || n == 0x2028 || n == 0x2029 || n == 0x202f || n == 0x205f || n
        == 0x3000
}

/// Reads the count that `chars[from..to]` stands for.
pub fn parse_count(chars: &Vec<char>, from: usize, to: usize) -> (count: Result<
    usize,
    IntErrorKind,
>)
    requires
        from <= to <= chars@.len(),
    ensures
        count == count_value(chars@.subrange(from as int, to as int)),
{
    let ghost text = chars@.subrange(from as int, to as int);
    if from == to {
        return Err(IntErrorKind::Empty);
    }
    let mut i: usize = from;
    if chars[from] == '+' {
        if to - from == 1 {
            return Err(IntErrorKind::InvalidDigit);
        }
        i = from + 1;
        proof {
            assert(text.drop_first() =~= chars@.subrange(i as int, to as int));
        }
    }
    let start = i;
    let ghost digits = chars@.subrange(start as int, to as int);
    let mut value: usize = 0;
    proof {
        assert(digits.subrange(0, 0) =~= Seq::<char>::empty());
        assert(text.first() == chars@[from as int]);
        assert(count_value(text) == digits_value(digits));
    }
    while i < to
        invariant
            start <= i <= to <= chars@.len(),
            digits == chars@.subrange(start as int, to as int),
            text == chars@.subrange(from as int, to as int),
            count_value(text) == digits_value(digits),
            digits_value(digits.subrange(0, i - start)) == Ok::<usize, IntErrorKind>(value),
        ensures
            i == to,
            digits_value(digits.subrange(0, i - start)) == Ok::<usize, IntErrorKind>(value),
            count_value(text) == digits_value(digits),
        decreases to - i,
    {
        let c = chars[i];
        proof {
            let seen = digits.subrange(0, i - start);
            let more = digits.subrange(0, i + 1 - start);
            assert(more.drop_last() =~= seen);
            assert(more.last() == c);
            assert(digit_value(c) == c as u32 - '0' as u32);
            lemma_digits_value_error_stays(digits, i + 1 - start);
        }
        if !(c >= '0' && c <= '9') {
            return Err(IntErrorKind::InvalidDigit);
        }
        let d = (c as u32 - '0' as u32) as usize;
        let grown = match value.checked_mul(10) {
            Some(tens) => tens.checked_add(d),
            None => None,
        };
        match grown {
            Some(next) => {
                value = next;
            },
            None => {
                return Err(IntErrorKind::PosOverflow);
            },
        }
        i += 1;
    }
    proof {
        assert(digits.subrange(0, to - start) =~= digits);
    }
    Ok(value)
}

/// Once a part of a run of digits has failed, the whole run fails the same
/// way.
pub proof fn lemma_digits_value_error_stays(digits: Seq<char>, upto: int)
    requires
        0 <= upto <= digits.len(),
    ensures
        digits_value(digits.subrange(0, upto)) is Err ==> digits_value(digits) == digits_value(
            digits.subrange(0, upto),
        ),
    decreases digits.len() - upto,
{
    if upto < digits.len() {
        let part = digits.subrange(0, upto);
        let more = digits.subrange(0, upto + 1);
        assert(more.drop_last() =~= part);
        lemma_digits_value_error_stays(digits, upto + 1);
    } else {
        assert(digits.subrange(0, upto) =~= digits);
    }
}

/// Why a text names no policy or no generator.
#[derive(Debug, PartialEq, Eq)]
pub enum ParseError {
    /// The text is no policy. It is kept whole.
    ParseIntensity(String),
    /// A field of `custom(..)` is no count. The field is kept, trimmed, with
    /// the reason.
    ParseInt(String, IntErrorKind),
    /// The text names no generator. It is kept whole.
    ParseRng(String),
}

/// What a `ParseError` says, with its texts as sequences.
pub enum ParseFailure {
    /// The text, which is no policy.
    Intensity(Seq<char>),
    /// The trimmed field, which is no count, and the reason.
    Int(Seq<char>, IntErrorKind),
    /// The text, which names no generator.
    Rng(Seq<char>),
}

impl View for ParseError {
    type V = ParseFailure;

    open spec fn view(&self) -> ParseFailure {
        match self {
            ParseError::ParseIntensity(text) => ParseFailure::Intensity(text@),
            ParseError::ParseInt(field, kind) => ParseFailure::Int(field@, *kind),
            ParseError::ParseRng(text) => ParseFailure::Rng(text@),
        }
    }
}

/// The position of the first comma of the text, or its length where it has
/// none.
pub open spec fn first_comma(text: Seq<char>) -> int
    decreases text.len(),
{
    if text.len() == 0 || text.first() == ',' {
        0
    } else {
        1 + first_comma(text.drop_first())
    }
}

/// The field of the text that ends at its first comma, or at its end.
pub open spec fn head(text: Seq<char>) -> Seq<char> {
    text.take(first_comma(text))
}

/// Whether the text has a comma, so that a further field follows its head.
pub open spec fn has_more(text: Seq<char>) -> bool {
    first_comma(text) < text.len()
}

/// What follows the first comma of the text.
pub open spec fn tail(text: Seq<char>) -> Seq<char> {
    text.skip(first_comma(text) + 1)
}

/// The count that a field stands for once it is trimmed.
pub open spec fn param(field: Seq<char>) -> Result<usize, ParseFailure> {
    match count_value(trimmed(field)) {
        Ok(count) => Ok(count),
        Err(kind) => Err(ParseFailure::Int(trimmed(field), kind)),
    }
}

/// The policy of exact counts that the inside of `custom(..)` stands for:
/// three fields that are counts, for above, within and below, with commas
/// between them. A field that is no count is reported before a wrong number
/// of fields behind it.
pub open spec fn custom_of(inner: Seq<char>, whole: Seq<char>) -> Result<Intensity, ParseFailure> {
    match param(head(inner)) {
        Err(failure) => Err(failure),
        Ok(up) => if !has_more(inner) {
            Err(ParseFailure::Intensity(whole))
        } else {
            match param(head(tail(inner))) {
                Err(failure) => Err(failure),
                Ok(middle) => if !has_more(tail(inner)) {
                    Err(ParseFailure::Intensity(whole))
                } else {
                    match param(head(tail(tail(inner)))) {
                        Err(failure) => Err(failure),
                        Ok(down) => if has_more(tail(tail(inner))) {
                            Err(ParseFailure::Intensity(whole))
                        } else {
                            Ok(Intensity::Custom { up, middle, down })
                        },
                    }
                },
            }
        },
    }
}

/// The policy that the text names: `mini`, `normal`, `maxi`, `random`, or
/// `custom(` up `,` middle `,` down `)`.
pub open spec fn intensity_of(text: Seq<char>) -> Result<Intensity, ParseFailure> {
    if text == "mini"@ {
        Ok(Intensity::Mini)
    } else if text == "normal"@ {
        Ok(Intensity::Normal)
    } else if text == "maxi"@ {
        Ok(Intensity::Maxi)
    } else if text == "random"@ {
        Ok(Intensity::Random)
    } else if text.len() >= 8 && text.take(7) == "custom("@ && text.last() == ')' {
        custom_of(text.subrange(7, text.len() - 1), text)
    } else {
        Err(ParseFailure::Intensity(text))
    }
}

/// Whether `chars` begins with `word`.
fn starts_with(chars: &Vec<char>, word: &Vec<char>) -> (yes: bool)
    ensures
        yes == (chars@.len() >= word@.len() && chars@.take(word@.len() as int) == word@),
{
    if chars.len() < word.len() {
        return false;
    }
    let mut i: usize = 0;
    while i < word.len()
        invariant
            i <= word@.len() <= chars@.len(),
            chars@.take(i as int) == word@.take(i as int),
        decreases word@.len() - i,
    {
        if chars[i] != word[i] {
            proof {
                assert(chars@.take(word@.len() as int)[i as int] != word@[i as int]);
            }
            return false;
        }
        proof {
            assert(chars@.take(i + 1) =~= chars@.take(i as int).push(chars@[i as int]));
            assert(word@.take(i + 1) =~= word@.take(i as int).push(word@[i as int]));
        }
        i += 1;
    }
    proof {
        assert(word@.take(word@.len() as int) =~= word@);
    }
    true
}

/// Whether `chars` is `word`.
fn same_chars(chars: &Vec<char>, word: &Vec<char>) -> (yes: bool)
    ensures
        yes == (chars@ == word@),
{
    let yes = chars.len() == word.len() && starts_with(chars, word);
    proof {
        if chars@.len() == word@.len() {
            assert(chars@.take(word@.len() as int) =~= chars@);
        }
    }
    yes
}

/// The end of the field that begins at `from`: the position of the first
/// comma in `chars[from..to]`, or `to`.
fn field_end(chars: &Vec<char>, from: usize, to: usize) -> (end: usize)
    requires
        from <= to <= chars@.len(),
    ensures
        from <= end <= to,
        end - from == first_comma(chars@.subrange(from as int, to as int)),
    decreases to - from,
{
    let ghost text = chars@.subrange(from as int, to as int);
    if from == to || chars[from] == ',' {
        proof {
            assert(from < to ==> text.first() == chars@[from as int]);
        }
        from
    } else {
        proof {
            assert(text.first() == chars@[from as int]);
            assert(text.drop_first() =~= chars@.subrange(from + 1, to as int));
        }
        field_end(chars, from + 1, to)
    }
}

/// The bounds of `chars[from..to]` without the white space at its start and
/// at its end.
fn trim(chars: &Vec<char>, from: usize, to: usize) -> (bounds: (usize, usize))
    requires
        from <= to <= chars@.len(),
    ensures
        from <= bounds.0 <= bounds.1 <= to,
        chars@.subrange(bounds.0 as int, bounds.1 as int) == trimmed(
            chars@.subrange(from as int, to as int),
        ),
{
    let mut a: usize = from;
    while a < to && white(chars[a])
        invariant
            from <= a <= to <= chars@.len(),
            trimmed(chars@.subrange(a as int, to as int)) == trimmed(
                chars@.subrange(from as int, to as int),
            ),
        decreases to - a,
    {
        proof {
            let text = chars@.subrange(a as int, to as int);
            assert(text.first() == chars@[a as int]);
            assert(text.drop_first() =~= chars@.subrange(a + 1, to as int));
        }
        a += 1;
    }
    proof {
        let text = chars@.subrange(a as int, to as int);
        assert(a < to ==> text.first() == chars@[a as int]);
        assert(trimmed(text) == trimmed_end(text));
    }
    let mut b: usize = to;
    while a < b && white(chars[b - 1])
        invariant
            from <= a <= b <= to <= chars@.len(),
            trimmed_end(chars@.subrange(a as int, b as int)) == trimmed(
                chars@.subrange(from as int, to as int),
            ),
        decreases b - a,
    {
        proof {
            let text = chars@.subrange(a as int, b as int);
            assert(text.last() == chars@[b - 1]);
            assert(text.drop_last() =~= chars@.subrange(a as int, b - 1));
        }
        b -= 1;
    }
    proof {
        let text = chars@.subrange(a as int, b as int);
        assert(a < b ==> text.last() == chars@[b - 1]);
    }
    (a, b)
}

/// A copy of `chars[from..to]`.
fn copy_of(chars: &Vec<char>, from: usize, to: usize) -> (part: Vec<char>)
    requires
        from <= to <= chars@.len(),
    ensures
        part@ == chars@.subrange(from as int, to as int),
{
    let mut part: Vec<char> = Vec::new();
    let mut i: usize = from;
    while i < to
        invariant
            from <= i <= to <= chars@.len(),
            part@ == chars@.subrange(from as int, i as int),
        decreases to - i,
    {
        part.push(chars[i]);
        proof {
            assert(chars@.subrange(from as int, i + 1) =~= chars@.subrange(
                from as int,
                i as int,
            ).push(chars@[i as int]));
        }
        i += 1;
    }
    part
}

/// Reads the count that the field `chars[from..to]` stands for once it is
/// trimmed.
fn parse_param(chars: &Vec<char>, from: usize, to: usize) -> (count: Result<usize, ParseError>)
    requires
        from <= to <= chars@.len(),
    ensures
        match count {
            Ok(n) => param(chars@.subrange(from as int, to as int)) == Ok::<usize, ParseFailure>(
                n,
            ),
            Err(error) => param(chars@.subrange(from as int, to as int)) == Err::<
                usize,
                ParseFailure,
            >(error@),
        },
{
    let bounds = trim(chars, from, to);
    match parse_count(chars, bounds.0, bounds.1) {
        Ok(n) => Ok(n),
        Err(kind) => {
            let field = copy_of(chars, bounds.0, bounds.1);
            Err(ParseError::ParseInt(string_of(&field), kind))
        },
    }
}

/// Reads the inside of `custom(..)`, which is `chars[from..to]`; `whole` is
/// the text it was taken from.
fn parse_custom(chars: &Vec<char>, from: usize, to: usize, whole: &str) -> (policy: Result<
    Intensity,
    ParseError,
>)
    requires
        from <= to <= chars@.len(),
    ensures
        match policy {
            Ok(intensity) => custom_of(chars@.subrange(from as int, to as int), whole@) == Ok::<
                Intensity,
                ParseFailure,
            >(intensity),
            Err(error) => custom_of(chars@.subrange(from as int, to as int), whole@) == Err::<
                Intensity,
                ParseFailure,
            >(error@),
        },
{
    let ghost inner = chars@.subrange(from as int, to as int);
    let end_up = field_end(chars, from, to);
    proof {
        assert(head(inner) =~= chars@.subrange(from as int, end_up as int));
    }
    let up = match parse_param(chars, from, end_up) {
        Ok(n) => n,
        Err(error) => {
            return Err(error);
        },
    };
    if end_up == to {
        return Err(ParseError::ParseIntensity(whole.to_owned()));
    }
    let from_middle = end_up + 1;
    proof {
        assert(tail(inner) =~= chars@.subrange(from_middle as int, to as int));
    }
    let end_middle = field_end(chars, from_middle, to);
    proof {
        assert(head(tail(inner)) =~= chars@.subrange(from_middle as int, end_middle as int));
    }
    let middle = match parse_param(chars, from_middle, end_middle) {
        Ok(n) => n,
        Err(error) => {
            return Err(error);
        },
    };
    if end_middle == to {
        return Err(ParseError::ParseIntensity(whole.to_owned()));
    }
    let from_down = end_middle + 1;
    proof {
        assert(tail(tail(inner)) =~= chars@.subrange(from_down as int, to as int));
    }
    let end_down = field_end(chars, from_down, to);
    proof {
        assert(head(tail(tail(inner))) =~= chars@.subrange(from_down as int, end_down as int));
    }
    let down = match parse_param(chars, from_down, end_down) {
        Ok(n) => n,
        Err(error) => {
            return Err(error);
        },
    };
    if end_down != to {
        return Err(ParseError::ParseIntensity(whole.to_owned()));
    }
    Ok(Intensity::Custom { up, middle, down })
}

/// Reads the policy that the text names.
pub fn parse_intensity(s: &str) -> (policy: Result<Intensity, ParseError>)
    ensures
        match policy {
            Ok(intensity) => intensity_of(s@) == Ok::<Intensity, ParseFailure>(intensity),
            Err(error) => intensity_of(s@) == Err::<Intensity, ParseFailure>(error@),
        },
{
    let chars = chars_of(s);
    if same_chars(&chars, &chars_of("mini")) {
        return Ok(Intensity::Mini);
    }
    if same_chars(&chars, &chars_of("normal")) {
        return Ok(Intensity::Normal);
    }
    if same_chars(&chars, &chars_of("maxi")) {
        return Ok(Intensity::Maxi);
    }
    if same_chars(&chars, &chars_of("random")) {
        return Ok(Intensity::Random);
    }
    let n = chars.len();
    if n >= 8 && starts_with(&chars, &chars_of("custom(")) && chars[n - 1] == ')' {
        proof {
            reveal_strlit("custom(");
        }
        parse_custom(&chars, 7, n - 1, s)
    } else {
        proof {
            reveal_strlit("custom(");
        }
        Err(ParseError::ParseIntensity(s.to_owned()))
    }
}

/// The generators that a text can name.
#[derive(Copy, Clone, Debug, PartialEq, Eq, Structural)]
pub enum RngChoice {
    /// `chacha`
    ChaCha,
    /// `isaac`
    Isaac,
    /// `isaac64`
    Isaac64,
    /// `jitter`
    Jitter,
    /// `os`
    Os,
    /// `std`
    Std,
    /// `thread`
    Thread,
    /// `xorshift`
    XorShift,
}

/// The generator that the text names: `chacha`, `isaac`, `isaac64`, `jitter`,
/// `os`, `std`, `thread` or `xorshift`.
pub open spec fn rng_of(text: Seq<char>) -> Result<RngChoice, ParseFailure> {
    if text == "chacha"@ {
        Ok(RngChoice::ChaCha)
    } else if text == "isaac"@ {
        Ok(RngChoice::Isaac)
    } else if text == "isaac64"@ {
        Ok(RngChoice::Isaac64)
    } else if text == "jitter"@ {
        Ok(RngChoice::Jitter)
    } else if text == "os"@ {
        Ok(RngChoice::Os)
    } else if text == "std"@ {
        Ok(RngChoice::Std)
    } else if text == "thread"@ {
        Ok(RngChoice::Thread)
    } else if text == "xorshift"@ {
        Ok(RngChoice::XorShift)
    } else {
        Err(ParseFailure::Rng(text))
    }
}

/// Reads the generator that the text names.
pub fn parse_rng(s: &str) -> (choice: Result<RngChoice, ParseError>)
    ensures
        match choice {
            Ok(rng) => rng_of(s@) == Ok::<RngChoice, ParseFailure>(rng),
            Err(error) => rng_of(s@) == Err::<RngChoice, ParseFailure>(error@),
        },
{
    let chars = chars_of(s);
    if same_chars(&chars, &chars_of("chacha")) {
        Ok(RngChoice::ChaCha)
    } else if same_chars(&chars, &chars_of("isaac")) {
        Ok(RngChoice::Isaac)
    } else if same_chars(&chars, &chars_of("isaac64")) {
        Ok(RngChoice::Isaac64)
    } else if same_chars(&chars, &chars_of("jitter")) {
        Ok(RngChoice::Jitter)
    } else if same_chars(&chars, &chars_of("os")) {
        Ok(RngChoice::Os)
    } else if same_chars(&chars, &chars_of("std")) {
        Ok(RngChoice::Std)
    } else if same_chars(&chars, &chars_of("thread")) {
        Ok(RngChoice::Thread)
    } else if same_chars(&chars, &chars_of("xorshift")) {
        Ok(RngChoice::XorShift)
    } else {
        Err(ParseError::ParseRng(s.to_owned()))
    }
}

} // verus!
