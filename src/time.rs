use crate::digits::{padded, push_padded};
use vstd::prelude::*;

verus! {

pub const MAX_HOURS: u32 = 100;

pub const MINUTES_PER_HOUR: u32 = 60;

pub const SECONDS_PER_MINUTE: u32 = 60;

pub const MILLIS_PER_SECOND: u32 = 1_000;

/// The largest number of milliseconds a timestamp can hold: `99:59:59,999`.
pub const MAX_MILLIS: u32 = MAX_HOURS * MINUTES_PER_HOUR * SECONDS_PER_MINUTE * MILLIS_PER_SECOND
    - 1;

/// The value of `((hours * 60 + minutes) * 60 + seconds) * 1000 + millis`.
pub open spec fn compose(hours: nat, minutes: nat, seconds: nat, millis: nat) -> nat {
    ((hours * 60 + minutes) * 60 + seconds) * 1000 + millis
}

/// The smaller of two naturals.
pub open spec fn min_nat(a: nat, b: nat) -> nat {
    if a <= b {
        a
    } else {
        b
    }
}

/// `a - b`, or zero when `b > a`.
pub open spec fn saturating_sub_nat(a: nat, b: nat) -> nat {
    if a >= b {
        (a - b) as nat
    } else {
        0
    }
}

/// The hours component of `ms` milliseconds.
pub open spec fn hours_of(ms: nat) -> nat {
    ms / 1000 / 60 / 60
}

/// The minutes component of `ms` milliseconds.
pub open spec fn minutes_of(ms: nat) -> nat {
    ms / 1000 / 60 % 60
}

/// The seconds component of `ms` milliseconds.
pub open spec fn seconds_of(ms: nat) -> nat {
    ms / 1000 % 60
}

/// The milliseconds component of `ms` milliseconds.
pub open spec fn millis_of(ms: nat) -> nat {
    ms % 1000
}

/// `ms` milliseconds written as `HH:MM:SS,mmm`.
pub open spec fn format_ts(ms: nat) -> Seq<char> {
    padded(hours_of(ms), 2) + seq![':'] + padded(minutes_of(ms), 2) + seq![':'] + padded(
        seconds_of(ms),
        2,
    ) + seq![','] + padded(millis_of(ms), 3)
}

/// The components of a timestamp compose back to it, each in its range.
pub proof fn lemma_components(ms: nat)
    requires
        ms <= MAX_MILLIS,
    ensures
        compose(hours_of(ms), minutes_of(ms), seconds_of(ms), millis_of(ms)) == ms,
        hours_of(ms) < 100,
        minutes_of(ms) < 60,
        seconds_of(ms) < 60,
        millis_of(ms) < 1000,
{
}

/// A `Duration` behaves the same as a [`Timestamp`].
pub type Duration = Timestamp;

/// A point in time (or a span of time) counted in milliseconds, bounded to
/// `0..=MAX_MILLIS`. Every operation saturates into that range.
#[derive(Clone, Copy, Debug, PartialEq, Eq, PartialOrd, Ord, Hash)]
pub struct Timestamp(u32);

impl View for Timestamp {
    type V = nat;

    closed spec fn view(&self) -> nat {
        self.0 as nat
    }
}

impl Timestamp {
    #[verifier::type_invariant]
    closed spec fn in_range(self) -> bool {
        self.0 <= MAX_MILLIS
    }

    /// The max possible timestamp, `99:59:59,999`.
    pub fn max_value() -> (r: Self)
        ensures
            r@ == MAX_MILLIS,
    {
        Timestamp(MAX_MILLIS)
    }

    /// Constructs a timestamp, or `None` when `total_millis` is above `MAX_MILLIS`.
    pub fn checked_from_millis(total_millis: u32) -> (r: Option<Self>)
        ensures
            r is Some <==> total_millis <= MAX_MILLIS,
            r matches Some(t) ==> t@ == total_millis,
    {
        if total_millis <= MAX_MILLIS {
            Some(Timestamp(total_millis))
        } else {
            None
        }
    }

    /// Constructs a timestamp, saturating to `Timestamp::MAX`.
    pub fn from_millis(total_millis: u32) -> (r: Self)
        ensures
            r@ == min_nat(total_millis as nat, MAX_MILLIS as nat),
    {
        if total_millis <= MAX_MILLIS {
            Timestamp(total_millis)
        } else {
            Timestamp(MAX_MILLIS)
        }
    }

    /// Constructs a timestamp from its components, or `None` when any of them is
    /// out of range: `hours` in `0..100`, `minutes` and `seconds` in `0..60`,
    /// `millis` in `0..1000`.
    pub fn new(hours: u8, minutes: u8, seconds: u8, millis: u16) -> (r: Option<Self>)
        ensures
            r is Some <==> (hours < 100 && minutes < 60 && seconds < 60 && millis < 1000),
            r matches Some(t) ==> t@ == compose(
                hours as nat,
                minutes as nat,
                seconds as nat,
                millis as nat,
            ),
    {
        let hours = hours as u32;
        let minutes = minutes as u32;
        let seconds = seconds as u32;
        let millis = millis as u32;

        if hours >= MAX_HOURS || minutes >= MINUTES_PER_HOUR || seconds >= SECONDS_PER_MINUTE
            || millis >= MILLIS_PER_SECOND {
            None
        } else {
            let total_minutes = hours * MINUTES_PER_HOUR + minutes;
            let total_seconds = total_minutes * SECONDS_PER_MINUTE + seconds;
            let total_millis = total_seconds * MILLIS_PER_SECOND + millis;
            Some(Timestamp(total_millis))
        }
    }

    /// Returns just the hours component.
    pub fn hours(&self) -> (r: u8)
        ensures
            r == hours_of(self@),
    {
        self.total_hours() as u8
    }

    /// Returns just the minutes component.
    pub fn minutes(&self) -> (r: u8)
        ensures
            r == minutes_of(self@),
    {
        (self.total_minutes() % MINUTES_PER_HOUR) as u8
    }

    /// Returns just the seconds component.
    pub fn seconds(&self) -> (r: u8)
        ensures
            r == seconds_of(self@),
    {
        (self.total_seconds() % SECONDS_PER_MINUTE) as u8
    }

    /// Returns just the millis component.
    pub fn millis(&self) -> (r: u16)
        ensures
            r == millis_of(self@),
    {
        (self.total_millis() % MILLIS_PER_SECOND) as u16
    }

    /// Returns the total number of hours.
    pub fn total_hours(&self) -> (r: u32)
        ensures
            r == self@ / 1000 / 60 / 60,
            r < 100,
    {
        proof {
            use_type_invariant(self);
        }
        self.total_minutes() / MINUTES_PER_HOUR
    }

    /// Returns the total number of minutes.
    pub fn total_minutes(&self) -> (r: u32)
        ensures
            r == self@ / 1000 / 60,
    {
        self.total_seconds() / SECONDS_PER_MINUTE
    }

    /// Returns the total number of seconds.
    pub fn total_seconds(&self) -> (r: u32)
        ensures
            r == self@ / 1000,
    {
        self.total_millis() / MILLIS_PER_SECOND
    }

    /// Returns the total number of millis.
    pub fn total_millis(&self) -> (r: u32)
        ensures
            r == self@,
            r <= MAX_MILLIS,
    {
        proof {
            use_type_invariant(self);
        }
        self.0
    }

    /// Renders as `HH:MM:SS,mmm`, each component zero-padded.
    pub fn to_string(&self) -> (r: String)
        ensures
            r@ == format_ts(self@),
    {
        let mut out = String::new();
        self.push_to(&mut out);
        out
    }

    /// Appends the `HH:MM:SS,mmm` form to `out`.
    pub(crate) fn push_to(&self, out: &mut String)
        ensures
            final(out)@ == old(out)@ + format_ts(self@),
    {
        push_padded(out, self.hours() as u32, 2);
        out.push(':');
        push_padded(out, self.minutes() as u32, 2);
        out.push(':');
        push_padded(out, self.seconds() as u32, 2);
        out.push(',');
        push_padded(out, self.millis() as u32, 3);
        assert(final(out)@ =~= old(out)@ + format_ts(self@));
    }
}

impl Default for Timestamp {
    /// The zero timestamp, `00:00:00,000`.
    fn default() -> (r: Self)
        ensures
            r@ == 0,
    {
        Timestamp(0)
    }
}

impl core::ops::Add for Timestamp {
    type Output = Timestamp;

    /// Adds, saturating to `Timestamp::max_value()`.
    fn add(self, other: Timestamp) -> (r: Timestamp)
        ensures
            r@ == min_nat(self@ + other@, MAX_MILLIS as nat),
    {
        let sum = self.total_millis() + other.total_millis();
        Timestamp::from_millis(sum)
    }
}

impl vstd::std_specs::ops::AddSpecImpl for Timestamp {
    open spec fn obeys_add_spec() -> bool {
        true
    }

    open spec fn add_req(self, rhs: Timestamp) -> bool {
        true
    }

    closed spec fn add_spec(self, rhs: Timestamp) -> Timestamp {
        Timestamp(min_nat(self.0 as nat + rhs.0 as nat, MAX_MILLIS as nat) as u32)
    }
}

impl core::ops::AddAssign for Timestamp {
    fn add_assign(&mut self, rhs: Timestamp)
        ensures
            final(self)@ == min_nat(old(self)@ + rhs@, MAX_MILLIS as nat),
    {
        *self = *self + rhs;
    }
}

impl core::ops::Sub for Timestamp {
    type Output = Timestamp;

    /// Subtracts, saturating to zero.
    fn sub(self, rhs: Timestamp) -> (r: Timestamp)
        ensures
            r@ == saturating_sub_nat(self@, rhs@),
    {
        let a = self.total_millis();
        let b = rhs.total_millis();
        if a >= b {
            Timestamp(a - b)
        } else {
            Timestamp(0)
        }
    }
}

impl vstd::std_specs::ops::SubSpecImpl for Timestamp {
    open spec fn obeys_sub_spec() -> bool {
        true
    }

    open spec fn sub_req(self, rhs: Timestamp) -> bool {
        true
    }

    closed spec fn sub_spec(self, rhs: Timestamp) -> Timestamp {
        Timestamp(saturating_sub_nat(self.0 as nat, rhs.0 as nat) as u32)
    }
}

impl core::ops::SubAssign for Timestamp {
    fn sub_assign(&mut self, rhs: Timestamp)
        ensures
            final(self)@ == saturating_sub_nat(old(self)@, rhs@),
    {
        *self = *self - rhs;
    }
}

} // verus!
