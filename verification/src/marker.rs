use vstd::prelude::*;

verus! {

/// Least value a marker channel can take, in millionths of full intensity.
pub const CHANNEL_MIN: u32 = 200000;

/// One past the greatest value a marker channel can take, in millionths of
/// full intensity.
pub const CHANNEL_MAX: u32 = 800000;

/// The value painted on a grid cell: a color of three channels, each held as
/// a fixed-point intensity in millionths. Two markers are equal iff all three
/// channels match exactly; there is no tolerance.
#[derive(Clone, Copy, Debug, PartialEq, Eq, Structural)]
pub struct Marker {
    pub red: u32,
    pub green: u32,
    pub blue: u32,
}

impl Marker {
    /// Every channel lies in the range fresh markers are drawn from.
    pub open spec fn in_channel_range(self) -> bool {
        CHANNEL_MIN <= self.red < CHANNEL_MAX
            && CHANNEL_MIN <= self.green < CHANNEL_MAX
            && CHANNEL_MIN <= self.blue < CHANNEL_MAX
    }
}

#[verifier::external_type_specification]
#[verifier::external_body]
pub struct ExThreadRng(rand::rngs::ThreadRng);

/// Relies on rand::thread_rng: hands out the thread-local generator. Nothing
/// is promised of it; markers drawn from it are pseudo-random.
#[verifier::external_body]
pub(crate) fn fresh_rng() -> rand::rngs::ThreadRng {
    rand::thread_rng()
}

/// Relies on rand::Rng::gen_range on a half-open integer range: returns a
/// value of that range. The call panics only on an empty range, which the
/// precondition rules out.
#[verifier::external_body]
pub(crate) fn random_in_range(rng: &mut rand::rngs::ThreadRng, lo: u32, hi: u32) -> (r: u32)
    requires
        lo < hi,
    ensures
        lo <= r < hi,
{
    rand::Rng::gen_range(rng, lo..hi)
}

/// Draws a fresh pseudo-random marker. Nothing relates one draw to another:
/// two fresh markers may coincide.
pub(crate) fn fresh_marker(rng: &mut rand::rngs::ThreadRng) -> (m: Marker)
    ensures
        m.in_channel_range(),
{
    let red = random_in_range(rng, CHANNEL_MIN, CHANNEL_MAX);
    let green = random_in_range(rng, CHANNEL_MIN, CHANNEL_MAX);
    let blue = random_in_range(rng, CHANNEL_MIN, CHANNEL_MAX);
    Marker { red, green, blue }
}

} // verus!
