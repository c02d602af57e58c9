use rand::Rng;
use vstd::prelude::*;

verus! {

/// `rand::ChaChaRng`, a value whose inside is never read here.
#[verifier::external_type_specification]
#[verifier::external_body]
pub struct ExChaChaRng(rand::ChaChaRng);

/// `rand::IsaacRng`, a value whose inside is never read here.
#[verifier::external_type_specification]
#[verifier::external_body]
pub struct ExIsaacRng(rand::IsaacRng);

/// `rand::Isaac64Rng`, a value whose inside is never read here.
#[verifier::external_type_specification]
#[verifier::external_body]
pub struct ExIsaac64Rng(rand::Isaac64Rng);

/// `rand::JitterRng`, a value whose inside is never read here.
#[verifier::external_type_specification]
#[verifier::external_body]
pub struct ExJitterRng(rand::JitterRng);

/// `rand::OsRng`, a value whose inside is never read here.
#[verifier::external_type_specification]
#[verifier::external_body]
pub struct ExOsRng(rand::OsRng);

/// `rand::StdRng`, a value whose inside is never read here.
#[verifier::external_type_specification]
#[verifier::external_body]
pub struct ExStdRng(rand::StdRng);

/// `rand::ThreadRng`, a value whose inside is never read here.
#[verifier::external_type_specification]
#[verifier::external_body]
pub struct ExThreadRng(rand::ThreadRng);

/// `rand::XorShiftRng`, a value whose inside is never read here.
#[verifier::external_type_specification]
#[verifier::external_body]
pub struct ExXorShiftRng(rand::XorShiftRng);

/// The random number generator that a decoration draws from: one of the
/// generators of the `rand` crate.
///
/// Nothing is known of the numbers that a generator gives but the range they
/// were asked in, so whatever is proved of a decoration holds of every
/// generator, in every state.
pub enum RandomSource {
    /// The ChaCha generator.
    ChaCha(rand::ChaChaRng),
    /// The ISAAC generator with words of 32 bits.
    Isaac(rand::IsaacRng),
    /// The ISAAC generator with words of 64 bits.
    Isaac64(rand::Isaac64Rng),
    /// The generator that measures the jitter of a timer.
    Jitter(rand::JitterRng),
    /// The generator of the operating system.
    Os(rand::OsRng),
    /// The generator that `rand` holds to be the best for the machine.
    Std(rand::StdRng),
    /// The generator of the calling thread.
    Thread(rand::ThreadRng),
    /// The Xorshift generator.
    XorShift(rand::XorShiftRng),
}

/// Draws a number below `bound` with `rand::Rng::gen_range(0, bound)`.
///
/// `gen_range` panics unless its lower end is below its upper end, which is
/// what `bound > 0` asks. It returns the lower end plus a remainder modulo the
/// width of the range, so the number drawn lies below `bound`. Which number it
/// is depends on the generator's state and is left open. A generator that
/// reads the operating system's entropy gives up where that source fails; no
/// argument of this function has a part in that.
#[verifier::external_body]
pub(crate) fn draw_below(source: &mut RandomSource, bound: usize) -> (drawn: usize)
    requires
        bound > 0,
    ensures
        drawn < bound,
{
    match source {
        RandomSource::ChaCha(rng) => rng.gen_range(0, bound),
        RandomSource::Isaac(rng) => rng.gen_range(0, bound),
        RandomSource::Isaac64(rng) => rng.gen_range(0, bound),
        RandomSource::Jitter(rng) => rng.gen_range(0, bound),
        RandomSource::Os(rng) => rng.gen_range(0, bound),
        RandomSource::Std(rng) => rng.gen_range(0, bound),
        RandomSource::Thread(rng) => rng.gen_range(0, bound),
        RandomSource::XorShift(rng) => rng.gen_range(0, bound),
    }
}

/// Picks one of `items` with `rand::Rng::choose`.
///
/// `choose` returns `None` for an empty slice and otherwise a reference to the
/// item at an index that it draws below the slice's length. Which item it is
/// depends on the generator's state and is left open.
#[verifier::external_body]
pub(crate) fn pick<T: Copy>(source: &mut RandomSource, items: &[T]) -> (picked: Option<T>)
    ensures
        items@.len() == 0 ==> picked is None,
        items@.len() > 0 ==> picked is Some && items@.contains(picked->0),
{
    match source {
        RandomSource::ChaCha(rng) => rng.choose(items).copied(),
        RandomSource::Isaac(rng) => rng.choose(items).copied(),
        RandomSource::Isaac64(rng) => rng.choose(items).copied(),
        RandomSource::Jitter(rng) => rng.choose(items).copied(),
        RandomSource::Os(rng) => rng.choose(items).copied(),
        RandomSource::Std(rng) => rng.choose(items).copied(),
        RandomSource::Thread(rng) => rng.choose(items).copied(),
        RandomSource::XorShift(rng) => rng.choose(items).copied(),
    }
}

/// The generator of the calling thread, from `rand::thread_rng`. Nothing is
/// claimed of it. The first call on a thread seeds the generator from the
/// operating system and gives up where no entropy can be had.
#[verifier::external_body]
pub(crate) fn thread_source() -> RandomSource {
    RandomSource::Thread(rand::thread_rng())
}

} // verus!
