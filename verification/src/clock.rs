//! The current date, from `chrono`.

use vstd::prelude::*;

verus! {

/// How `%Y` writes a year from 1970 on: at least four digits, with a `+` in front
/// from the year 10000 on.
pub open spec fn year_text(y: Seq<char>) -> bool {
    &&& y.len() >= 4
    &&& forall|i: int| 0 <= i < y.len() ==> ('0' <= #[trigger] y[i] <= '9' || (i == 0 && y[i] == '+'))
}

pub open spec fn two_digits(s: Seq<char>) -> bool {
    s.len() == 2 && '0' <= s[0] <= '9' && '0' <= s[1] <= '9'
}

/// How `%Y-%m-%d` writes a date: the year, `-`, a two-digit month, `-` and a
/// two-digit day.
pub open spec fn date_text(d: Seq<char>) -> bool {
    &&& d.len() >= 10
    &&& year_text(d.take(d.len() - 6))
    &&& d[d.len() - 6] == '-'
    &&& two_digits(d.subrange(d.len() - 5, d.len() - 3))
    &&& d[d.len() - 3] == '-'
    &&& two_digits(d.subrange(d.len() - 2, d.len() as int))
}

/// `chrono::Utc::now()` formatted by `DateTime::format` with a fixed pattern and
/// written out; the current time itself stays inside this function, only its
/// text leaves it.  Nothing is claimed of which date it is, which depends on the
/// clock; claimed is what the patterns make of every date `Utc::now` can return
/// (from 1970 on, since it panics before): `%Y` is a `year_text`, and
/// `%Y-%m-%d` a `date_text`.  The requirement keeps to these two patterns.
#[verifier::external_body]
pub(crate) fn utc_now_formatted(pattern: &str) -> (r: String)
    requires
        pattern@ == "%Y"@ || pattern@ == "%Y-%m-%d"@,
    ensures
        pattern@ == "%Y"@ ==> year_text(r@),
        pattern@ == "%Y-%m-%d"@ ==> date_text(r@),
{
    chrono::Utc::now().format(pattern).to_string()
}

} // verus!
