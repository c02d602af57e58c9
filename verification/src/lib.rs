//! Decorates text with combining marks above, within and below its
//! characters, and strips such marks again.

pub mod all_chars;
pub mod apply_rng_iter;
pub mod char_kind;
pub mod decoration;
pub mod intensity;
pub mod marks;
pub mod parse;
pub mod random;
pub mod text;
pub mod unapply_iter;

pub use all_chars::{all_chars, AllChars};
pub use apply_rng_iter::{apply_rng_iter, ApplyRngIter, State};
pub use char_kind::CharKind;
pub use intensity::Intensity;
pub use marks::{is_zalgo, DOWN_CHARS, MIDDLE_CHARS, UP_CHARS};
pub use parse::{parse_intensity, parse_rng, IntErrorKind, ParseError, RngChoice};
pub use random::RandomSource;
pub use unapply_iter::{unapply_iter, UnapplyIter};

use decoration::is_decoration;
use marks::strip;
use random::thread_source;
use text::{chars_of, string_of};
use vstd::prelude::*;

verus! {

/// What the style is named after, in the words that go around about it.
pub const DESCRIPTION: &'static str =
    "To invoke the hive-mind representing chaos.\nInvoking the feeling of chaos.\nWith out order.\nThe Nezperdian hive-mind of chaos. Zalgo.\nHe who Waits Behind The Wall.\nZALGO!";

/// Decorates `text` under the selector and the policy, drawing from the
/// generator of the calling thread.
pub fn apply(text: &str, kind: CharKind, intensity: Intensity) -> (out: String)
    ensures
        is_decoration(out@, text@, kind, intensity),
{
    apply_rng(thread_source(), text, kind, intensity)
}

/// Decorates `text` under the selector and the policy, drawing from `rng`.
///
/// Whatever `rng` gives, the result is a decoration of `text`: its characters
/// in their order, each mark among them as it is, each other character
/// followed by a burst of marks of the enabled classes.
pub fn apply_rng(rng: RandomSource, text: &str, kind: CharKind, intensity: Intensity) -> (out:
    String)
    ensures
        is_decoration(out@, text@, kind, intensity),
{
    let engine = apply_rng_iter(rng, chars_of(text), kind, intensity);
    let out = engine.collect();
    proof {
        engine.lemma_fresh_engine_decorates(out@);
    }
    string_of(&out)
}

/// An engine that decorates `chars` under the selector and the policy, drawing
/// from the generator of the calling thread.
pub fn apply_iter(chars: Vec<char>, kind: CharKind, intensity: Intensity) -> (engine: ApplyRngIter)
    ensures
        engine.text() == chars@,
        engine.cursor() == 0,
        engine.kind() == kind,
        engine.intensity() == intensity,
        engine.state() == State::Free,
        engine.wf(),
{
    apply_rng_iter(thread_source(), chars, kind, intensity)
}

/// The text without its marks.
pub fn unapply(text: &str) -> (out: String)
    ensures
        out@ == strip(text@),
{
    let out = unapply_iter(chars_of(text)).collect();
    string_of(&out)
}

} // verus!
