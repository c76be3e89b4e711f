//! The text of a report.
//!
//! The report states every figure in watt-hours with six decimal places. It
//! has four sections: the two sensing classes, the two means, the rooms and
//! the sub-rooms, with one indented line for each location.

use crate::evaluation::{bucket_views, Bucket, BucketView, Report, ReportView};
use crate::text::{
    chars_of, decimal, padded_decimal, push_all, push_decimal, push_padded_decimal, push_str,
    string_of,
};
use vstd::prelude::*;

verus! {

/// The microwatt-hours of one watt-hour.
pub const MICRO_PER_UNIT: u128 = 1_000_000;

/// The decimal places of a figure in watt-hours.
pub const DECIMAL_PLACES: u8 = 6;

/// An amount of microwatt-hours, written in watt-hours.
pub open spec fn watt_hours_text(amount: int) -> Seq<char> {
    decimal((amount / (MICRO_PER_UNIT as int)) as nat) + "."@ + padded_decimal(
        (amount % (MICRO_PER_UNIT as int)) as nat,
        DECIMAL_PLACES as nat,
    )
}

/// A mean, written in watt-hours, or the words that say that there is none.
pub open spec fn mean_text(mean: Option<int>) -> Seq<char> {
    match mean {
        Some(amount) => watt_hours_text(amount),
        None => "not applicable"@,
    }
}

/// The line of one location.
pub open spec fn entry_text(bucket: BucketView) -> Seq<char> {
    "\n\t"@ + bucket.key + ": "@ + watt_hours_text(bucket.energy)
}

/// The lines of the first `n` locations.
pub open spec fn entries_text(buckets: Seq<BucketView>, n: int) -> Seq<char>
    decreases n,
{
    if n <= 0 {
        Seq::empty()
    } else {
        entries_text(buckets, n - 1) + entry_text(buckets[n - 1])
    }
}

/// The text of a report.
pub open spec fn report_text(report: ReportView) -> Seq<char> {
    "Energy consumption of all sensors of type 0 in Wh: "@ + watt_hours_text(
        report.baseline_class_0,
    ) + "\n"@ + "Energy consumption of all sensors of type 1 in Wh: "@ + watt_hours_text(
        report.baseline_class_1,
    ) + "\n"@ + "Average energy consumption of rooms in Wh: "@ + mean_text(report.mean_room)
        + "\n"@ + "Average energy consumption of sub rooms in Wh: "@ + mean_text(
        report.mean_sub_room,
    ) + "\n\n"@ + "Energy consumption per room in Wh: "@ + entries_text(
        report.rooms,
        report.rooms.len() as int,
    ) + "\n\nEnergy consumption per sub room in Wh: "@ + entries_text(
        report.sub_rooms,
        report.sub_rooms.len() as int,
    )
}

/// Appends an amount of microwatt-hours, written in watt-hours.
pub fn push_watt_hours(out: &mut Vec<char>, amount: u128)
    ensures
        final(out)@ == old(out)@ + watt_hours_text(amount as int),
{
    push_decimal(out, amount / MICRO_PER_UNIT);
    push_str(out, ".");
    push_padded_decimal(out, amount % MICRO_PER_UNIT, DECIMAL_PLACES);
    assert(out@ =~= old(out)@ + watt_hours_text(amount as int));
}

/// Appends a mean.
pub fn push_mean(out: &mut Vec<char>, mean: Option<u128>)
    ensures
        final(out)@ == old(out)@ + mean_text(
            match mean {
                Some(m) => Some(m as int),
                None => None,
            },
        ),
{
    match mean {
        Some(amount) => push_watt_hours(out, amount),
        None => push_str(out, "not applicable"),
    }
}

/// Appends the lines of the given locations.
pub fn push_entries(out: &mut Vec<char>, buckets: &Vec<Bucket>)
    ensures
        final(out)@ == old(out)@ + entries_text(bucket_views(buckets@), buckets.len() as int),
{
    let ghost views = bucket_views(buckets@);
    let mut k: usize = 0;
    assert(out@ =~= old(out)@ + entries_text(views, 0));
    while k < buckets.len()
        invariant
            k <= buckets.len(),
            views == bucket_views(buckets@),
            out@ == old(out)@ + entries_text(views, k as int),
        decreases buckets.len() - k,
    {
        let ghost before = out@;
        assert(views[k as int] == buckets[k as int]@);
        push_str(out, "\n\t");
        let key = chars_of(buckets[k].location.as_str());
        push_all(out, &key);
        push_str(out, ": ");
        push_watt_hours(out, buckets[k].energy);
        assert(out@ =~= before + entry_text(views[k as int]));
        k += 1;
        assert(out@ =~= old(out)@ + entries_text(views, k as int));
    }
}

impl Report {
    /// The text of the report.
    pub fn render(&self) -> (text: String)
        ensures
            text@ == report_text(self@),
    {
        let mut out: Vec<char> = Vec::new();
        push_str(&mut out, "Energy consumption of all sensors of type 0 in Wh: ");
        push_watt_hours(&mut out, self.baseline_class_0);
        push_str(&mut out, "\n");
        push_str(&mut out, "Energy consumption of all sensors of type 1 in Wh: ");
        push_watt_hours(&mut out, self.baseline_class_1);
        push_str(&mut out, "\n");
        push_str(&mut out, "Average energy consumption of rooms in Wh: ");
        push_mean(&mut out, self.mean_room);
        push_str(&mut out, "\n");
        push_str(&mut out, "Average energy consumption of sub rooms in Wh: ");
        push_mean(&mut out, self.mean_sub_room);
        push_str(&mut out, "\n\n");
        push_str(&mut out, "Energy consumption per room in Wh: ");
        push_entries(&mut out, &self.rooms);
        push_str(&mut out, "\n\nEnergy consumption per sub room in Wh: ");
        push_entries(&mut out, &self.sub_rooms);
        assert(out@ =~= report_text(self@));
        string_of(&out)
    }
}

/// Two reports of the same figures have the same text.
pub proof fn lemma_text_repeatable(first: Report, second: Report)
    requires
        first@ == second@,
    ensures
        report_text(first@) == report_text(second@),
{
}

} // verus!
