//! The time of day.
use vstd::prelude::*;

verus! {

/// How long after the Unix epoch a moment is: whole seconds, and the
/// nanoseconds of the second that had begun.
#[derive(Clone, Copy, Debug, PartialEq, Eq, Structural)]
pub struct SinceEpoch {
    /// The whole seconds.
    pub secs: u64,
    /// The nanoseconds past them.
    pub nanos: u32,
}

/// `SystemTime::elapsed` of the Unix epoch: how long ago it was, or nothing
/// where the clock stands before it. What the clock shows is left open.
#[verifier::external_body]
fn read_clock() -> (r: Option<SinceEpoch>)
    ensures
        r matches Some(t) ==> t.nanos < 1_000_000_000,
{
    match std::time::UNIX_EPOCH.elapsed() {
        Ok(d) => Some(SinceEpoch { secs: d.as_secs(), nanos: d.subsec_nanos() }),
        Err(_) => None,
    }
}

/// Whether `reading` is what a reading of the clock has given.
pub closed spec fn is_reading(reading: Option<SinceEpoch>) -> bool {
    call_ensures(read_clock, (), reading)
}

/// Reads the clock.
pub(crate) fn clock_reading() -> (r: Option<SinceEpoch>)
    ensures
        is_reading(r),
        r matches Some(t) ==> t.nanos < 1_000_000_000,
{
    read_clock()
}

/// How many nanoseconds after the Unix epoch a moment is.
pub open spec fn nanos_since(t: SinceEpoch) -> int {
    t.secs * 1_000_000_000 + t.nanos
}

/// The milliseconds since the Unix epoch, of which the low 64 bits are kept;
/// zero before the epoch.
pub open spec fn millis_of(reading: Option<SinceEpoch>) -> int {
    match reading {
        Some(t) => (t.secs * 1000 + t.nanos as int / 1_000_000) % 0x1_0000_0000_0000_0000,
        None => 0,
    }
}

/// The milliseconds of a reading of the clock.
pub fn reading_millis(reading: Option<SinceEpoch>) -> (r: u64)
    ensures
        r == millis_of(reading),
        reading matches Some(t) ==> r == (t.secs * 1000 + t.nanos as int / 1_000_000)
            % 0x1_0000_0000_0000_0000,
        reading is None ==> r == 0,
{
    match reading {
        Some(t) => {
            let whole: u128 = t.secs as u128 * 1000 + (t.nanos / 1_000_000) as u128;
            (whole % 0x1_0000_0000_0000_0000) as u64
        },
        None => 0,
    }
}

/// The whole seconds since the Unix epoch; zero before it.
pub open spec fn secs_of(reading: Option<SinceEpoch>) -> u64 {
    match reading {
        Some(t) => t.secs,
        None => 0,
    }
}

/// The whole seconds of a reading of the clock.
pub fn reading_secs(reading: Option<SinceEpoch>) -> (r: u64)
    ensures
        r == secs_of(reading),
        reading matches Some(t) ==> r == t.secs,
        reading is None ==> r == 0,
{
    match reading {
        Some(t) => t.secs,
        None => 0,
    }
}

/// The milliseconds since the Unix epoch, as the clock shows them.
pub fn now_millis() -> (r: u64)
    ensures
        exists|reading: Option<SinceEpoch>|
            is_reading(reading) && r == #[trigger] millis_of(reading),
{
    let reading: Option<SinceEpoch> = clock_reading();
    assert(is_reading(reading) && millis_of(reading) == millis_of(reading));
    reading_millis(reading)
}

/// The whole seconds since the Unix epoch, as the clock shows them.
pub fn now_secs() -> (r: u64)
    ensures
        exists|reading: Option<SinceEpoch>|
            is_reading(reading) && r == #[trigger] secs_of(reading),
{
    let reading: Option<SinceEpoch> = clock_reading();
    assert(is_reading(reading) && secs_of(reading) == secs_of(reading));
    reading_secs(reading)
}

/// The milliseconds of a moment are those that have passed in full since the
/// Unix epoch, for as long as they can be counted.
pub proof fn millis_have_passed(t: SinceEpoch)
    requires
        t.nanos < 1_000_000_000,
        nanos_since(t) / 1_000_000 <= u64::MAX,
    ensures
        1_000_000 * millis_of(Some(t)) <= nanos_since(t),
        nanos_since(t) < 1_000_000 * millis_of(Some(t)) + 1_000_000,
{
}

/// Moments that are a millisecond or more apart have different milliseconds, and
/// the later moment has the larger ones.
pub proof fn millis_tell_moments_apart(earlier: SinceEpoch, later: SinceEpoch)
    requires
        earlier.nanos < 1_000_000_000,
        later.nanos < 1_000_000_000,
        nanos_since(earlier) + 1_000_000 <= nanos_since(later),
        nanos_since(later) / 1_000_000 <= u64::MAX,
    ensures
        millis_of(Some(earlier)) < millis_of(Some(later)),
{
    millis_have_passed(earlier);
    millis_have_passed(later);
}

/// The seconds of a moment are those that have passed in full since the Unix
/// epoch; before it no time has passed.
pub proof fn secs_have_passed(t: SinceEpoch)
    requires
        t.nanos < 1_000_000_000,
    ensures
        1_000_000_000 * secs_of(Some(t)) <= nanos_since(t),
        nanos_since(t) < 1_000_000_000 * secs_of(Some(t)) + 1_000_000_000,
        secs_of(None) == 0,
        millis_of(None) == 0,
{
}

} // verus!
