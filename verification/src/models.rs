//! Core data types: calendar dates, document records, and the page models
//! handed to the template renderer; and the extraction of a date from a
//! source file path.
use vstd::prelude::*;

use crate::text::{
    digit_runs, digits_val, dec_digits, digit_run_len, is_digit_char,
    lemma_digit_run_len_char, lemma_digit_run_len_ge, lemma_digit_run_len_le, lemma_digits_val_take_le, push_char,
    push_u32_dec,
};

verus! {

/// A calendar date in the proleptic Gregorian calendar.
///
/// Dates are derived from source file paths, never from document contents.
#[derive(Clone, Copy, Debug, PartialEq, Eq, Structural)]
pub struct Date {
    pub year: u32,
    pub month: u32,
    pub day: u32,
}

/// A year has 366 days when it is divisible by 4, except century years
/// not divisible by 400.
pub open spec fn is_leap_year(y: int) -> bool {
    y % 4 == 0 && (y % 100 != 0 || y % 400 == 0)
}

/// The number of days of month `m` of year `y`, for `1 <= m <= 12`.
pub open spec fn days_in_month(y: int, m: int) -> int {
    if m == 2 {
        if is_leap_year(y) {
            29
        } else {
            28
        }
    } else if m == 4 || m == 6 || m == 9 || m == 11 {
        30
    } else {
        31
    }
}

impl Date {
    /// A well-formed date names a day that exists in the calendar.
    pub open spec fn wf(self) -> bool {
        &&& 1 <= self.month <= 12
        &&& 1 <= self.day <= days_in_month(self.year as int, self.month as int)
    }

    /// Builds a date after checking that the day exists in the calendar;
    /// a month or day out of range is rejected, never clamped.
    pub fn new(year: u32, month: u32, day: u32) -> (r: Option<Date>)
        ensures
            r is Some <==> ({
                &&& 1 <= month <= 12
                &&& 1 <= day <= days_in_month(year as int, month as int)
            }),
            r matches Some(d) ==> d == (Date { year, month, day }) && d.wf(),
    {
        if month < 1 || month > 12 {
            return None;
        }
        let max_day: u32 = if month == 2 {
            if (year % 4 == 0) && (year % 100 != 0 || year % 400 == 0) {
                29
            } else {
                28
            }
        } else if month == 4 || month == 6 || month == 9 || month == 11 {
            30
        } else {
            31
        };
        if day < 1 || day > max_day {
            return None;
        }
        Some(Date { year, month, day })
    }
}

/// A source file path, as text.
#[derive(Debug)]
pub struct MarkdownPath(pub String);

/// An HTML fragment converted from markdown.
#[derive(Clone, Debug)]
pub struct HtmlBody(pub String);

impl PartialEq for HtmlBody {
    fn eq(&self, other: &HtmlBody) -> bool {
        self.0 == other.0
    }
}

impl vstd::std_specs::cmp::PartialEqSpecImpl for HtmlBody {
    open spec fn obeys_eq_spec() -> bool {
        true
    }

    open spec fn eq_spec(&self, other: &HtmlBody) -> bool {
        self.0@ == other.0@
    }
}

impl Eq for HtmlBody {

}

/// A document title with the path separators removed.
#[derive(Debug)]
pub struct UpdatedTitle(pub String);

impl PartialEq for UpdatedTitle {
    fn eq(&self, other: &UpdatedTitle) -> bool {
        self.0 == other.0
    }
}

impl vstd::std_specs::cmp::PartialEqSpecImpl for UpdatedTitle {
    open spec fn obeys_eq_spec() -> bool {
        true
    }

    open spec fn eq_spec(&self, other: &UpdatedTitle) -> bool {
        self.0@ == other.0@
    }
}

impl Eq for UpdatedTitle {

}

/// One fully built document: identifier, title, rendered body, date, and
/// the name of the file it is written to.
#[derive(Clone, Debug)]
pub struct Article {
    pub id: String,
    pub title: String,
    pub body: HtmlBody,
    pub date: Date,
    pub path: String,
}

impl PartialEq for Article {
    fn eq(&self, other: &Article) -> bool {
        self.id == other.id && self.title == other.title && self.body == other.body && self.date
            == other.date && self.path == other.path
    }
}

impl vstd::std_specs::cmp::PartialEqSpecImpl for Article {
    open spec fn obeys_eq_spec() -> bool {
        true
    }

    open spec fn eq_spec(&self, other: &Article) -> bool {
        &&& self.id@ == other.id@
        &&& self.title@ == other.title@
        &&& self.body.0@ == other.body.0@
        &&& self.date == other.date
        &&& self.path@ == other.path@
    }
}

impl Eq for Article {

}

/// The model of the listing page: every document of one build.
pub struct TopPage {
    pub articles: Vec<Article>,
}

/// The decimal rendering of `n` padded with zeros to two places.
pub open spec fn two_dec(n: nat) -> Seq<char> {
    if n < 10 {
        seq!['0'] + dec_digits(n)
    } else {
        dec_digits(n)
    }
}

/// The decimal rendering of `n` padded with zeros to four places.
pub open spec fn four_dec(n: nat) -> Seq<char> {
    if n < 10 {
        seq!['0', '0', '0'] + dec_digits(n)
    } else if n < 100 {
        seq!['0', '0'] + dec_digits(n)
    } else if n < 1000 {
        seq!['0'] + dec_digits(n)
    } else {
        dec_digits(n)
    }
}

/// A date written `YYYY-MM-DD`.
pub open spec fn date_chars(d: Date) -> Seq<char> {
    four_dec(d.year as nat) + seq!['-'] + two_dec(d.month as nat) + seq!['-'] + two_dec(
        d.day as nat,
    )
}

impl Date {
    /// Writes the date as `YYYY-MM-DD`, each part zero-padded.
    pub fn format(&self) -> (r: String)
        ensures
            r@ == date_chars(*self),
    {
        let mut out = String::new();
        if self.year < 10 {
            push_char(&mut out, '0');
            push_char(&mut out, '0');
            push_char(&mut out, '0');
        } else if self.year < 100 {
            push_char(&mut out, '0');
            push_char(&mut out, '0');
        } else if self.year < 1000 {
            push_char(&mut out, '0');
        }
        push_u32_dec(&mut out, self.year);
        proof {
            assert(out@ =~= four_dec(self.year as nat));
        }
        push_char(&mut out, '-');
        if self.month < 10 {
            push_char(&mut out, '0');
        }
        push_u32_dec(&mut out, self.month);
        proof {
            assert(out@ =~= four_dec(self.year as nat) + seq!['-'] + two_dec(self.month as nat));
        }
        push_char(&mut out, '-');
        if self.day < 10 {
            push_char(&mut out, '0');
        }
        push_u32_dec(&mut out, self.day);
        proof {
            assert(out@ =~= date_chars(*self));
        }
        out
    }
}

/// Relies on chrono's Local::now and Datelike: the month of a civil date
/// starts at 1 and ends at 12, the day at 1 and 31.
#[verifier::external_body]
pub fn curent_datetime() -> (r: Date)
    ensures
        1 <= r.month <= 12,
        1 <= r.day <= 31,
{
    let now = chrono::Local::now().naive_local().date();
    let year = chrono::Datelike::year(&now);
    let month = chrono::Datelike::month(&now);
    let day = chrono::Datelike::day(&now);
    Date { year: year as u32, month, day }
}

/// Whether `c` is a decimal digit.
fn is_digit(c: char) -> (r: bool)
    ensures
        r == is_digit_char(c),
{
    let v = c as u32;
    48 <= v && v <= 57
}

/// The values of the digit groups of `path_str`, in order of appearance;
/// nothing when some group is too large for a signed 32-bit number.
pub fn extract_time(path_str: &str) -> (r: Option<Vec<i32>>)
    ensures
        r is Some <==> (forall|i: int|
            0 <= i < digit_runs(path_str@).len() ==> digits_val(
                #[trigger] digit_runs(path_str@)[i],
            ) <= i32::MAX),
        r matches Some(v) ==> {
            &&& v@.len() == digit_runs(path_str@).len()
            &&& forall|i: int|
                0 <= i < v@.len() ==> #[trigger] v@[i] == digits_val(
                    digit_runs(path_str@)[i],
                ) as i32
        },
{
    let n = path_str.unicode_len();
    let mut vals: Vec<i32> = Vec::new();
    let ghost mut done: Seq<Seq<char>> = Seq::empty();
    let mut i: usize = 0;
    proof {
        assert(path_str@.subrange(0, n as int) =~= path_str@);
        assert(done + digit_runs(path_str@) =~= digit_runs(path_str@));
    }
    while i < n
        invariant
            n == path_str@.len(),
            i <= n,
            digit_runs(path_str@) == done + digit_runs(path_str@.subrange(i as int, n as int)),
            vals@.len() == done.len(),
            forall|k: int|
                0 <= k < done.len() ==> digits_val(#[trigger] done[k]) <= i32::MAX && vals@[k]
                    == digits_val(done[k]) as i32,
        decreases n - i,
    {
        let ghost suffix = path_str@.subrange(i as int, n as int);
        let c = path_str.get_char(i);
        if !is_digit(c) {
            proof {
                assert(suffix.drop_first() =~= path_str@.subrange(i + 1, n as int));
            }
            i += 1;
        } else {
            let mut j = i;
            let mut acc: u64 = 0;
            while j < n && is_digit(path_str.get_char(j))
                invariant
                    n == path_str@.len(),
                    i <= j <= n,
                    suffix == path_str@.subrange(i as int, n as int),
                    digit_runs(path_str@) == done + digit_runs(suffix),
                    forall|k: int| i <= k < j ==> is_digit_char(path_str@[k]),
                    acc == digits_val(path_str@.subrange(i as int, j as int)),
                    acc <= i32::MAX,
                decreases n - j,
            {
                let d = path_str.get_char(j);
                proof {
                    assert(path_str@.subrange(i as int, j + 1).drop_last() =~= path_str@.subrange(
                        i as int,
                        j as int,
                    ));
                    assert(path_str@.subrange(i as int, j + 1).last() == path_str@[j as int]);
                }
                acc = acc * 10 + (d as u64 - 48);
                j += 1;
                if acc > i32::MAX as u64 {
                    proof {
                        lemma_digit_run_len_le(suffix);
                        let rl = digit_run_len(suffix) as int;
                        assert(is_digit_char(suffix[0]));
                        assert forall|k: int| 0 <= k < j - i implies is_digit_char(
                            suffix[k],
                        ) by {
                            assert(suffix[k] == path_str@[i + k]);
                        }
                        lemma_digit_run_len_ge(suffix, j - i);
                        let run = suffix.subrange(0, rl);
                        assert(run.take(j - i) =~= path_str@.subrange(i as int, j as int));
                        lemma_digits_val_take_le(run, j - i);
                        assert(digits_val(run) > i32::MAX);
                        assert(digit_runs(suffix) == seq![run] + digit_runs(
                            suffix.subrange(rl, suffix.len() as int),
                        ));
                        assert(digit_runs(suffix)[0] == run);
                        let w = done.len() as int;
                        assert(digit_runs(path_str@) == done + digit_runs(suffix));
                        assert(digit_runs(path_str@)[w] == digit_runs(suffix)[0]);
                        assert(0 <= w < digit_runs(path_str@).len());
                        assert(digits_val(digit_runs(path_str@)[w]) > i32::MAX);
                    }
                    return None;
                }
            }
            proof {
                assert(j == n || !is_digit_char(path_str@[j as int]));
                assert forall|k: int| 0 <= k < j - i implies is_digit_char(suffix[k]) by {
                    assert(suffix[k] == path_str@[i + k]);
                }
                lemma_digit_run_len_char(suffix, j - i);
                let run = suffix.subrange(0, j - i);
                assert(run =~= path_str@.subrange(i as int, j as int));
                assert(digit_runs(suffix) == seq![run] + digit_runs(
                    suffix.subrange(j - i, suffix.len() as int),
                ));
                assert(suffix.subrange(j - i, suffix.len() as int) =~= path_str@.subrange(
                    j as int,
                    n as int,
                ));
                assert(done + digit_runs(suffix) =~= done.push(run) + digit_runs(
                    path_str@.subrange(j as int, n as int),
                ));
            }
            vals.push(acc as i32);
            proof {
                done = done.push(path_str@.subrange(i as int, j as int));
            }
            i = j;
        }
    }
    proof {
        assert(path_str@.subrange(n as int, n as int) =~= Seq::<char>::empty());
        assert(digit_runs(path_str@) =~= done);
    }
    Some(vals)
}

/// The date named by the first three digit groups of `p`, when they form
/// a real calendar date.
pub open spec fn spec_created_date(p: Seq<char>) -> Option<Date> {
    let runs = digit_runs(p);
    if exists|i: int| 0 <= i < runs.len() && digits_val(#[trigger] runs[i]) > i32::MAX {
        None
    } else if runs.len() < 3 {
        None
    } else {
        let y = digits_val(runs[0]);
        let m = digits_val(runs[1]);
        let d = digits_val(runs[2]);
        if 1 <= m <= 12 && 1 <= d <= days_in_month(y as int, m as int) {
            Some(Date { year: y as u32, month: m as u32, day: d as u32 })
        } else {
            None
        }
    }
}

/// Date-extraction law: a path with at least three digit groups, whose
/// first three name a day that exists in the calendar (and whose groups
/// all fit in a signed 32-bit number), yields exactly the date made of
/// the first, second and third group as year, month and day.
pub proof fn lemma_date_from_digit_groups(p: Seq<char>)
    requires
        digit_runs(p).len() >= 3,
        forall|i: int|
            0 <= i < digit_runs(p).len() ==> digits_val(#[trigger] digit_runs(p)[i]) <= i32::MAX,
        1 <= digits_val(digit_runs(p)[1]) <= 12,
        1 <= digits_val(digit_runs(p)[2]) <= days_in_month(
            digits_val(digit_runs(p)[0]) as int,
            digits_val(digit_runs(p)[1]) as int,
        ),
    ensures
        spec_created_date(p) == Some(
            Date {
                year: digits_val(digit_runs(p)[0]) as u32,
                month: digits_val(digit_runs(p)[1]) as u32,
                day: digits_val(digit_runs(p)[2]) as u32,
            },
        ),
{
}

/// Derives the document date from the file path: the first three digit
/// groups are read as year, month and day. A path with fewer groups, or
/// groups that name no real date, yields nothing.
pub fn created_datetime(path: &str) -> (r: Option<Date>)
    ensures
        r == spec_created_date(path@),
{
    match extract_time(path) {
        None => None,
        Some(v) => {
            if v.len() < 3 {
                None
            } else {
                let y = v[0];
                let m = v[1];
                let d = v[2];
                Date::new(y as u32, m as u32, d as u32)
            }
        },
    }
}

} // verus!
