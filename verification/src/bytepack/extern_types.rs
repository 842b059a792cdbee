//! Identifiers, timestamps, dates and times of day: domain types that pack
//! as the number underneath them.

use vstd::prelude::*;

use crate::bytepack::numbers::{packed_uint, twos_complement};
use crate::bytepack::pack::{Pack, RoundTrip, Unpack};
use crate::bytepack::packer::BytePacker;
use crate::bytepack::unpacker::ByteUnpacker;

verus! {

/// A 128-bit identifier that sorts by the time it was made.
#[derive(Debug, Clone, Copy, PartialEq, Eq, PartialOrd, Ord, Hash, Structural)]
pub struct Ulid(pub u128);

impl DeepView for Ulid {
    type V = Ulid;

    open spec fn deep_view(&self) -> Ulid {
        *self
    }
}

/// `ulid::Ulid::new`: an identifier made from the current time and random
/// bits. Nothing is known of its value.
#[verifier::external_body]
pub(crate) fn fresh_ulid() -> Ulid {
    Ulid(ulid::Ulid::new().0)
}

impl Pack for Ulid {
    const PACK_BYTES: u32 = 16;

    open spec fn fixed_len() -> nat {
        16
    }

    proof fn lemma_pack_bytes() {
    }

    open spec fn dyn_len(&self) -> nat {
        0
    }

    open spec fn packed(&self, offset: nat, buf: Seq<u8>) -> Seq<u8> {
        packed_uint(self.0 as nat, 16, offset, buf)
    }

    fn pack(&self, offset: u32, packer: &mut BytePacker) {
        self.0.pack(offset, packer);
    }

    proof fn lemma_packed(&self, offset: nat, buf: Seq<u8>) {
        self.0.lemma_packed(offset, buf);
    }
}

impl<'b> Unpack<'b> for Ulid {
    open spec fn unpacked(offset: nat, buf: Seq<u8>) -> Option<Ulid> {
        match u128::unpacked(offset, buf) {
            Some(value) => Some(Ulid(value)),
            None => None,
        }
    }

    fn unpack(offset: u32, unpacker: &ByteUnpacker<'b>) -> (value: Option<Self>) {
        match u128::unpack(offset, unpacker) {
            Some(value) => Some(Ulid(value)),
            None => None,
        }
    }
}

impl<'b> RoundTrip<'b> for Ulid {
    open spec fn round_trips(&self) -> bool {
        true
    }

    proof fn lemma_round_trip(&self, offset: nat, buf: Seq<u8>, later: Seq<u8>) {
        self.0.lemma_round_trip(offset, buf, later);
    }
}

/// A point in time, in whole seconds since the first of January 1970, UTC.
#[derive(Debug, Clone, Copy, PartialEq, Eq, PartialOrd, Ord, Hash, Structural)]
pub struct Timestamp(pub i64);

impl DeepView for Timestamp {
    type V = Timestamp;

    open spec fn deep_view(&self) -> Timestamp {
        *self
    }
}

/// Whether the instant `secs` seconds after the epoch lies within the
/// years that have dates: from the first second of the year -262143 to
/// the last second of the year 262142.
pub open spec fn timestamp_in_range(secs: i64) -> bool {
    -8_334_601_228_800 <= secs <= 8_210_266_876_799
}

/// `chrono::DateTime::from_timestamp` with no nanoseconds: whether the
/// instant has a date. It has one exactly if its day lies within the
/// years from -262143 to 262142, the first and the last year of
/// `chrono::NaiveDate`.
#[verifier::external_body]
pub(crate) fn chrono_has_timestamp(secs: i64) -> (known: bool)
    ensures
        known == timestamp_in_range(secs),
{
    match chrono::DateTime::from_timestamp(secs, 0) {
        Some(_) => true,
        None => false,
    }
}

impl Timestamp {
    /// The timestamp of `secs` seconds after the epoch, if that instant has
    /// a date.
    pub fn from_secs(secs: i64) -> (timestamp: Option<Timestamp>)
        ensures
            timestamp == if timestamp_in_range(secs) {
                Some(Timestamp(secs))
            } else {
                None
            },
    {
        if chrono_has_timestamp(secs) {
            Some(Timestamp(secs))
        } else {
            None
        }
    }

    /// Seconds since the epoch.
    pub fn secs(&self) -> (secs: i64)
        ensures
            secs == self.0,
    {
        self.0
    }
}

impl Pack for Timestamp {
    const PACK_BYTES: u32 = 8;

    open spec fn fixed_len() -> nat {
        8
    }

    proof fn lemma_pack_bytes() {
    }

    open spec fn dyn_len(&self) -> nat {
        0
    }

    open spec fn packed(&self, offset: nat, buf: Seq<u8>) -> Seq<u8> {
        packed_uint(twos_complement(self.0 as int, 8), 8, offset, buf)
    }

    fn pack(&self, offset: u32, packer: &mut BytePacker) {
        self.0.pack(offset, packer);
    }

    proof fn lemma_packed(&self, offset: nat, buf: Seq<u8>) {
        self.0.lemma_packed(offset, buf);
    }
}

impl<'b> Unpack<'b> for Timestamp {
    /// The seconds stored, if they are an instant that has a date.
    open spec fn unpacked(offset: nat, buf: Seq<u8>) -> Option<Timestamp> {
        match i64::unpacked(offset, buf) {
            Some(secs) => if timestamp_in_range(secs) {
                Some(Timestamp(secs))
            } else {
                None
            },
            None => None,
        }
    }

    fn unpack(offset: u32, unpacker: &ByteUnpacker<'b>) -> (value: Option<Self>) {
        match i64::unpack(offset, unpacker) {
            Some(secs) => Timestamp::from_secs(secs),
            None => None,
        }
    }
}

impl<'b> RoundTrip<'b> for Timestamp {
    open spec fn round_trips(&self) -> bool {
        timestamp_in_range(self.0)
    }

    proof fn lemma_round_trip(&self, offset: nat, buf: Seq<u8>, later: Seq<u8>) {
        self.0.lemma_round_trip(offset, buf, later);
    }
}

/// A day of the calendar, counted in days since the first of January 1970.
#[derive(Debug, Clone, Copy, PartialEq, Eq, PartialOrd, Ord, Hash, Structural)]
pub struct Date(pub i32);

impl DeepView for Date {
    type V = Date;

    open spec fn deep_view(&self) -> Date {
        *self
    }
}

/// Whether the day `days` days after the epoch lies within the years that
/// have dates: from the first day of the year -262143 to the last day of
/// the year 262142.
pub open spec fn date_in_range(days: i32) -> bool {
    -96_465_292 <= days <= 95_026_236
}

/// `chrono::NaiveDate::from_epoch_days`: whether the day has a date. It
/// has one exactly if it lies within the years from -262143 to 262142,
/// the first and the last year of `chrono::NaiveDate`.
#[verifier::external_body]
pub(crate) fn chrono_has_date(days: i32) -> (known: bool)
    ensures
        known == date_in_range(days),
{
    match chrono::NaiveDate::from_epoch_days(days) {
        Some(_) => true,
        None => false,
    }
}

impl Date {
    /// The day `days` days after the epoch, if the calendar has it.
    pub fn from_epoch_days(days: i32) -> (date: Option<Date>)
        ensures
            date == if date_in_range(days) {
                Some(Date(days))
            } else {
                None
            },
    {
        if chrono_has_date(days) {
            Some(Date(days))
        } else {
            None
        }
    }

    /// Days since the epoch.
    pub fn to_epoch_days(&self) -> (days: i32)
        ensures
            days == self.0,
    {
        self.0
    }
}

impl Pack for Date {
    const PACK_BYTES: u32 = 4;

    open spec fn fixed_len() -> nat {
        4
    }

    proof fn lemma_pack_bytes() {
    }

    open spec fn dyn_len(&self) -> nat {
        0
    }

    open spec fn packed(&self, offset: nat, buf: Seq<u8>) -> Seq<u8> {
        packed_uint(twos_complement(self.0 as int, 4), 4, offset, buf)
    }

    fn pack(&self, offset: u32, packer: &mut BytePacker) {
        self.0.pack(offset, packer);
    }

    proof fn lemma_packed(&self, offset: nat, buf: Seq<u8>) {
        self.0.lemma_packed(offset, buf);
    }
}

impl<'b> Unpack<'b> for Date {
    /// The days stored, if they are a day that the calendar has.
    open spec fn unpacked(offset: nat, buf: Seq<u8>) -> Option<Date> {
        match i32::unpacked(offset, buf) {
            Some(days) => if date_in_range(days) {
                Some(Date(days))
            } else {
                None
            },
            None => None,
        }
    }

    fn unpack(offset: u32, unpacker: &ByteUnpacker<'b>) -> (value: Option<Self>) {
        match i32::unpack(offset, unpacker) {
            Some(days) => Date::from_epoch_days(days),
            None => None,
        }
    }
}

impl<'b> RoundTrip<'b> for Date {
    open spec fn round_trips(&self) -> bool {
        date_in_range(self.0)
    }

    proof fn lemma_round_trip(&self, offset: nat, buf: Seq<u8>, later: Seq<u8>) {
        self.0.lemma_round_trip(offset, buf, later);
    }
}

/// A time of day, in whole seconds since midnight.
#[derive(Debug, Clone, Copy, PartialEq, Eq, PartialOrd, Ord, Hash, Structural)]
pub struct TimeOfDay(pub u32);

impl DeepView for TimeOfDay {
    type V = TimeOfDay;

    open spec fn deep_view(&self) -> TimeOfDay {
        *self
    }
}

/// `chrono::NaiveTime::from_num_seconds_from_midnight_opt` with no
/// nanoseconds: whether `secs` seconds after midnight is a time of day,
/// which it is before the day is over.
#[verifier::external_body]
pub(crate) fn chrono_has_time(secs: u32) -> (known: bool)
    ensures
        known == (secs < 86_400),
{
    match chrono::NaiveTime::from_num_seconds_from_midnight_opt(secs, 0) {
        Some(_) => true,
        None => false,
    }
}

impl TimeOfDay {
    /// The time `secs` seconds after midnight, if the day is not over by
    /// then.
    pub fn from_secs(secs: u32) -> (time: Option<TimeOfDay>)
        ensures
            time == if secs < 86_400 {
                Some(TimeOfDay(secs))
            } else {
                None
            },
    {
        if chrono_has_time(secs) {
            Some(TimeOfDay(secs))
        } else {
            None
        }
    }

    /// Seconds since midnight.
    pub fn secs(&self) -> (secs: u32)
        ensures
            secs == self.0,
    {
        self.0
    }
}

impl Pack for TimeOfDay {
    const PACK_BYTES: u32 = 4;

    open spec fn fixed_len() -> nat {
        4
    }

    proof fn lemma_pack_bytes() {
    }

    open spec fn dyn_len(&self) -> nat {
        0
    }

    open spec fn packed(&self, offset: nat, buf: Seq<u8>) -> Seq<u8> {
        packed_uint(self.0 as nat, 4, offset, buf)
    }

    fn pack(&self, offset: u32, packer: &mut BytePacker) {
        self.0.pack(offset, packer);
    }

    proof fn lemma_packed(&self, offset: nat, buf: Seq<u8>) {
        self.0.lemma_packed(offset, buf);
    }
}

impl<'b> Unpack<'b> for TimeOfDay {
    /// The seconds stored, if the day is not over by then.
    open spec fn unpacked(offset: nat, buf: Seq<u8>) -> Option<TimeOfDay> {
        match u32::unpacked(offset, buf) {
            Some(secs) => if secs < 86_400 {
                Some(TimeOfDay(secs))
            } else {
                None
            },
            None => None,
        }
    }

    fn unpack(offset: u32, unpacker: &ByteUnpacker<'b>) -> (value: Option<Self>) {
        match u32::unpack(offset, unpacker) {
            Some(secs) => TimeOfDay::from_secs(secs),
            None => None,
        }
    }
}

impl<'b> RoundTrip<'b> for TimeOfDay {
    open spec fn round_trips(&self) -> bool {
        self.0 < 86_400
    }

    proof fn lemma_round_trip(&self, offset: nat, buf: Seq<u8>, later: Seq<u8>) {
        self.0.lemma_round_trip(offset, buf, later);
    }
}

} // verus!
