//! Helper functions on civil timestamps: month boundaries and closeness.

use vstd::prelude::*;
use vstd::math::abs;
use vstd::arithmetic::div_mod::lemma_fundamental_div_mod_converse;
use crate::date_time::Timestamp;
use super::month_anchor_seconds;
use super::month_number;

verus! {

/// The first instant of the month of `date`: the anchor of `date`'s month.
pub fn beginning_of_month(date: Timestamp) -> (r: Timestamp)
    requires
        date.wf(),
    ensures
        r == (Timestamp {
            year: date.year,
            month: date.month,
            day: 1,
            hour: 0,
            minute: 0,
            second: 0,
        }),
        r.wf(),
        r.as_seconds() == month_anchor_seconds(month_number(date)),
{
    proof {
        lemma_fundamental_div_mod_converse(
            month_number(date),
            12,
            date.year as int,
            date.month as int - 1,
        );
    }
    Timestamp { year: date.year, month: date.month, day: 1, hour: 0, minute: 0, second: 0 }
}

/// The first instant of the month following the month of `date`, carrying
/// the year over a December: the anchor of the next month.
pub fn beginning_of_next_month(date: Timestamp) -> (r: Timestamp)
    requires
        date.wf(),
    ensures
        r == (if date.month == 12 {
            Timestamp {
                year: (date.year + 1) as u32,
                month: 1,
                day: 1,
                hour: 0,
                minute: 0,
                second: 0,
            }
        } else {
            Timestamp {
                year: date.year,
                month: (date.month + 1) as u32,
                day: 1,
                hour: 0,
                minute: 0,
                second: 0,
            }
        }),
        r.year * 12 + r.month == date.year * 12 + date.month + 1,
        r.as_seconds() == month_anchor_seconds(month_number(date) + 1),
{
    let year: u32;
    let month: u32;
    if date.month == 12 {
        year = date.year + 1;
        month = 1;
        proof {
            lemma_fundamental_div_mod_converse(
                month_number(date) + 1,
                12,
                date.year as int + 1,
                0,
            );
        }
    } else {
        year = date.year;
        month = date.month + 1;
        proof {
            lemma_fundamental_div_mod_converse(
                month_number(date) + 1,
                12,
                date.year as int,
                date.month as int,
            );
        }
    }
    Timestamp { year, month, day: 1, hour: 0, minute: 0, second: 0 }
}

/// Whether `date_a` is strictly closer to `to_date` than `date_b` is. A tie
/// is not closer.
pub fn is_closer(to_date: Timestamp, date_a: Timestamp, date_b: Timestamp) -> (r: bool)
    requires
        to_date.wf(),
        date_a.wf(),
        date_b.wf(),
    ensures
        r == (abs(date_a.as_seconds() - to_date.as_seconds()) < abs(
            date_b.as_seconds() - to_date.as_seconds(),
        )),
{
    let target = to_date.seconds();
    let a = date_a.seconds();
    let b = date_b.seconds();
    let dist_a = if a >= target {
        a - target
    } else {
        target - a
    };
    let dist_b = if b >= target {
        b - target
    } else {
        target - b
    };
    dist_a < dist_b
}

} // verus!
