use vstd::prelude::*;
use crate::mtp_file::MtpFile;

verus! {

/// The first year that chrono's `NaiveDate` holds.
pub const MIN_YEAR: i32 = -262143;

/// The last year that chrono's `NaiveDate` holds.
pub const MAX_YEAR: i32 = 262142;

pub open spec fn is_leap_year(year: int) -> bool {
    year % 4 == 0 && (year % 100 != 0 || year % 400 == 0)
}

pub open spec fn days_in_month(year: int, month: int) -> int {
    if month == 2 {
        if is_leap_year(year) { 29 } else { 28 }
    } else if month == 4 || month == 6 || month == 9 || month == 11 {
        30
    } else {
        31
    }
}

/// A day of the proleptic Gregorian calendar within chrono's range of years.
pub open spec fn is_calendar_day(year: i32, month: u32, day: u32) -> bool {
    &&& MIN_YEAR <= year <= MAX_YEAR
    &&& 1 <= month <= 12
    &&& 1 <= day <= days_in_month(year as int, month as int)
}

pub open spec fn digit_char(d: int) -> char {
    if d == 0 { '0' }
    else if d == 1 { '1' }
    else if d == 2 { '2' }
    else if d == 3 { '3' }
    else if d == 4 { '4' }
    else if d == 5 { '5' }
    else if d == 6 { '6' }
    else if d == 7 { '7' }
    else if d == 8 { '8' }
    else { '9' }
}

/// A number below 100 in two decimal digits.
pub open spec fn two_digits(n: int) -> Seq<char> {
    seq![digit_char(n / 10), digit_char(n % 10)]
}

/// A number below 10000 in four decimal digits.
pub open spec fn four_digits(n: int) -> Seq<char> {
    seq![digit_char(n / 1000), digit_char(n / 100 % 10), digit_char(n / 10 % 10), digit_char(n % 10)]
}

/// What chrono's `%Y` writes for a year.
pub uninterp spec fn year_text(year: i32) -> Seq<char>;

/// Relies on chrono's `NaiveDate::from_ymd_opt`, which gives a date exactly
/// for the days of the proleptic Gregorian calendar in its range of years.
#[verifier::external_body]
fn date_exists(year: i32, month: u32, day: u32) -> (r: bool)
    ensures
        r == is_calendar_day(year, month, day),
{
    chrono::NaiveDate::from_ymd_opt(year, month, day).is_some()
}

/// Relies on chrono's `NaiveDate::format` with `%Y`: the year, in four
/// digits from 0 to 9999, with a sign outside that range.
#[verifier::external_body]
fn format_year(year: i32, month: u32, day: u32) -> (r: String)
    requires
        is_calendar_day(year, month, day),
    ensures
        r@ == year_text(year),
        0 <= year <= 9999 ==> r@ == four_digits(year as int),
{
    chrono::NaiveDate::from_ymd_opt(year, month, day).unwrap().format("%Y").to_string()
}

/// Relies on chrono's `NaiveDate::format` with `%Y-%m-%d`: the year as `%Y`
/// writes it, then the month and the day in two digits each, joined by `-`.
#[verifier::external_body]
fn format_iso_date(year: i32, month: u32, day: u32) -> (r: String)
    requires
        is_calendar_day(year, month, day),
    ensures
        r@ == year_text(year) + "-"@ + two_digits(month as int) + "-"@ + two_digits(day as int),
{
    chrono::NaiveDate::from_ymd_opt(year, month, day).unwrap().format("%Y-%m-%d").to_string()
}

/// The calendar day that names a run's album.
#[derive(Debug, Clone, Copy, PartialEq, Eq, Structural)]
pub struct RefDate {
    pub year: i32,
    pub month: u32,
    pub day: u32,
}

impl RefDate {
    pub open spec fn wf(self) -> bool {
        is_calendar_day(self.year, self.month, self.day)
    }

    /// The date of the given year, month and day, where that day exists.
    pub fn new(year: i32, month: u32, day: u32) -> (r: Option<RefDate>)
        ensures
            r is Some <==> is_calendar_day(year, month, day),
            r matches Some(d) ==> d.wf() && d.year == year && d.month == month && d.day == day,
    {
        if date_exists(year, month, day) {
            Some(RefDate { year, month, day })
        } else {
            None
        }
    }

    pub open spec fn spec_iso_text(self) -> Seq<char> {
        year_text(self.year) + "-"@ + two_digits(self.month as int) + "-"@ + two_digits(
            self.day as int,
        )
    }

    /// The date as `YYYY-MM-DD`.
    pub fn iso_text(&self) -> (r: String)
        requires
            self.wf(),
        ensures
            r@ == self.spec_iso_text(),
    {
        format_iso_date(self.year, self.month, self.day)
    }

    /// The year as a directory name.
    pub fn year_text(&self) -> (r: String)
        requires
            self.wf(),
        ensures
            r@ == year_text(self.year),
    {
        format_year(self.year, self.month, self.day)
    }
}

/// The album directory: the date, then a space and the album name where one
/// is given.
pub open spec fn album_segment(date_text: Seq<char>, album_name: Option<Seq<char>>) -> Seq<char> {
    match album_name {
        Some(a) => date_text + " "@ + a,
        None => date_text,
    }
}

/// The destination is a function of its parts alone, and the album name adds
/// exactly a space and itself after the date: without one, the album
/// directory is the date text and nothing more.
pub proof fn lemma_album_suffix(date_text: Seq<char>, album_name: Seq<char>)
    ensures
        album_segment(date_text, None) == date_text,
        album_segment(date_text, Some(album_name)) == date_text + seq![' '] + album_name,
        album_segment(date_text, Some(album_name)).len() == date_text.len() + 1 + album_name.len(),
{
    reveal_strlit(" ");
    assert(" "@ == seq![' ']);
}

/// `root/type_dir/year/album/name`.
pub open spec fn destination(
    root: Seq<char>,
    type_dir: Seq<char>,
    year: Seq<char>,
    album: Seq<char>,
    name: Seq<char>,
) -> Seq<char> {
    root + "/"@ + type_dir + "/"@ + year + "/"@ + album + "/"@ + name
}

pub open spec fn opt_view(s: Option<&str>) -> Option<Seq<char>> {
    match s {
        Some(a) => Some(a@),
        None => None,
    }
}

/// Joins the parts of a destination path from the formatted date texts.
pub fn join_destination(
    target_root: &str,
    type_dir: &str,
    year: &str,
    date_text: &str,
    album_name: Option<&str>,
    name: &str,
) -> (r: String)
    ensures
        r@ == destination(
            target_root@,
            type_dir@,
            year@,
            album_segment(date_text@, opt_view(album_name)),
            name@,
        ),
{
    let mut out = String::from_str(target_root);
    out.append("/");
    out.append(type_dir);
    out.append("/");
    out.append(year);
    out.append("/");
    out.append(date_text);
    match album_name {
        Some(a) => {
            out.append(" ");
            out.append(a);
        },
        None => {},
    }
    out.append("/");
    out.append(name);
    out
}

/// The path that a file is copied to:
/// `target_root/type_dir/year/YYYY-MM-DD[ album_name]/name`.
pub fn build_path(
    target_root: &str,
    file: &MtpFile,
    date: &RefDate,
    album_name: Option<&str>,
) -> (r: String)
    requires
        date.wf(),
    ensures
        r@ == destination(
            target_root@,
            file.file_type.spec_out_path_segment(),
            year_text(date.year),
            album_segment(date.spec_iso_text(), opt_view(album_name)),
            file.name@,
        ),
{
    let year = date.year_text();
    let date_text = date.iso_text();
    join_destination(
        target_root,
        file.file_type.out_path_segment(),
        year.as_str(),
        date_text.as_str(),
        album_name,
        file.name.as_str(),
    )
}

} // verus!
