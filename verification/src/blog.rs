//! The blog's directory layout (posts under `yyyy/mm/dd/`), read entry
//! by entry, and the parts a post is split into.

use vstd::prelude::*;
use vstd::string::*;

use crate::ahtml::allocator::{ASlice, AId, HtmlAllocator, Node};
use crate::ahtml::meta::{ElementMeta, str_eq};
use crate::ahtml::strutil::lemma_encode_utf8_concat;
use crate::auri::path::{base, extension_eq, path_extension, suffix_dot};
use crate::conslist::List;
use crate::easyfiletype::EasyFileType;

verus! {

/// A calendar date, as the directory names give it.
#[derive(Debug, Clone, Copy, PartialEq, Eq, Structural)]
pub struct Date {
    pub year: i32,
    pub month: u32,
    pub day: u32,
}

pub open spec fn is_leap_year(y: int) -> bool {
    (y % 4 == 0 && y % 100 != 0) || y % 400 == 0
}

pub open spec fn days_in_month(y: int, m: int) -> int {
    if m == 2 {
        if is_leap_year(y) {
            29
        } else {
            28
        }
    } else if m == 4 || m == 6 || m == 9 || m == 11 {
        30
    } else {
        31
    }
}

/// A date of the (proleptic) Gregorian calendar.
pub open spec fn valid_date(y: int, m: int, d: int) -> bool {
    1 <= m <= 12 && 1 <= d <= days_in_month(y, m)
}

/// `chrono::NaiveDate::from_ymd_opt(y, m, d).is_some()`: whether the
/// date exists (for the years chrono supports, which include these).
#[verifier::external_body]
fn date_exists(y: i32, m: u32, d: u32) -> (r: bool)
    requires
        1980 <= y <= 2150,
    ensures
        r == valid_date(y as int, m as int, d as int),
{
    chrono::NaiveDate::from_ymd_opt(y, m, d).is_some()
}

/// What a directory name parses to.
#[derive(Debug, Clone, Copy, PartialEq, Eq, Structural)]
pub enum ParsedDatePart {
    Integer(u16),
    Date(Date),
}

pub struct ParsedContextFrame<'f> {
    pub filename: &'f str,
    pub parseddatepart: ParsedDatePart,
}

pub open spec fn is_digit_byte(c: u8) -> bool {
    48 <= c <= 57
}

/// The value of the decimal digits `b`.
pub open spec fn digits_value(b: Seq<u8>) -> nat
    decreases b.len(),
{
    if b.len() == 0 {
        0
    } else {
        digits_value(b.drop_last()) * 10 + (b.last() - 48) as nat
    }
}

/// What `u16::from_str` gives for the bytes `b`: an optional '+', then
/// at least one digit and nothing else, with a value below 65536.
/// The bytes after an optional leading '+'.
pub open spec fn after_plus(b: Seq<u8>) -> Seq<u8> {
    if b.len() > 0 && b[0] == 43 {
        b.drop_first()
    } else {
        b
    }
}

pub open spec fn parse_u16_spec(b: Seq<u8>) -> Option<u16> {
    let d = after_plus(b);
    if d.len() > 0 && (forall|i: int| 0 <= i < d.len() ==> is_digit_byte(#[trigger] d[i]))
        && digits_value(d) < 65536 {
        Some(digits_value(d) as u16)
    } else {
        None
    }
}

/// Parses a decimal number as `u16::from_str` does.
pub fn parse_u16(s: &str) -> (r: Option<u16>)
    ensures
        r == parse_u16_spec(s.spec_bytes()),
{
    let b = s.as_bytes();
    let len = b.len();
    let start: usize = if len > 0 && b[0] == 43 {
        1
    } else {
        0
    };
    let ghost d = after_plus(b@);
    assert(d =~= b@.subrange(start as int, len as int));
    if start == len {
        assert(d.len() == 0);
        return None;
    }
    let mut v: u32 = 0;
    let mut i: usize = start;
    while i < len
        invariant
            start <= i <= len,
            len == b@.len(),
            d == b@.subrange(start as int, len as int),
            d == after_plus(b@),
            b@ == s.spec_bytes(),
            forall|k: int| start <= k < i ==> is_digit_byte(#[trigger] b@[k]),
            v == digits_value(b@.subrange(start as int, i as int)),
            v < 65536,
        decreases len - i,
    {
        let c = b[i];
        if !(48 <= c && c <= 57) {
            assert(d[i - start] == c);
            assert(!is_digit_byte(d[i - start]));
            return None;
        }
        assert(b@.subrange(start as int, i + 1).drop_last() =~= b@.subrange(start as int, i as int));
        let nv = v * 10 + (c - 48) as u32;
        if nv >= 65536 {
            proof {
                if forall|k: int| 0 <= k < d.len() ==> is_digit_byte(#[trigger] d[k]) {
                    assert(d.take(i + 1 - start) =~= b@.subrange(start as int, i + 1));
                    lemma_digits_prefix(d, i + 1 - start);
                }
            }
            return None;
        }
        v = nv;
        i = i + 1;
    }
    assert(forall|k: int| 0 <= k < d.len() ==> #[trigger] d[k] == b@[start + k]);
    assert(b@.subrange(start as int, i as int) == d);
    assert(forall|k: int| 0 <= k < d.len() ==> is_digit_byte(#[trigger] d[k]));
    assert(digits_value(d) == v);
    Some(v as u16)
}

/// A prefix of a run of digits has no larger value.
proof fn lemma_digits_prefix(b: Seq<u8>, k: int)
    requires
        forall|i: int| 0 <= i < b.len() ==> is_digit_byte(#[trigger] b[i]),
        0 <= k <= b.len(),
    ensures
        digits_value(b.take(k)) <= digits_value(b),
    decreases b.len(),
{
    if k == b.len() {
        assert(b.take(k) =~= b);
    } else {
        let c = b.drop_last();
        assert(forall|i: int| 0 <= i < c.len() ==> #[trigger] c[i] == b[i]);
        lemma_digits_prefix(c, k);
        assert(c.take(k) =~= b.take(k));
    }
}

/// The directory levels of the blog.
#[derive(Debug, Clone, Copy, PartialEq, Eq, Structural)]
pub enum ContextLevel {
    Year,
    Month,
    Day,
}

impl ContextLevel {
    /// What the directory name at this level must be.
    pub fn desc(self) -> (r: &'static str)
        ensures
            r@ == match self {
                ContextLevel::Year => "year"@,
                ContextLevel::Month => "month"@,
                ContextLevel::Day => "valid day value"@,
            },
    {
        match self {
            ContextLevel::Year => "year",
            ContextLevel::Month => "month",
            ContextLevel::Day => "valid day value",
        }
    }
}

/// The level of a directory below `depth` levels of parsed ones.
pub fn context_level(depth: usize) -> (r: Option<ContextLevel>)
    ensures
        r == if depth == 0 {
            Some(ContextLevel::Year)
        } else if depth == 1 {
            Some(ContextLevel::Month)
        } else if depth == 2 {
            Some(ContextLevel::Day)
        } else {
            None::<ContextLevel>
        },
{
    if depth == 0 {
        Some(ContextLevel::Year)
    } else if depth == 1 {
        Some(ContextLevel::Month)
    } else if depth == 2 {
        Some(ContextLevel::Day)
    } else {
        None
    }
}

/// A year directory: four characters, a number from 1980 to 2150.
pub open spec fn year_spec(b: Seq<u8>) -> Option<ParsedDatePart> {
    if b.len() != 4 {
        None
    } else {
        match parse_u16_spec(b) {
            Some(n) => if 1980 <= n <= 2150 {
                Some(ParsedDatePart::Integer(n))
            } else {
                None
            },
            None => None,
        }
    }
}

/// A month directory: two characters, a number from 1 to 12.
pub open spec fn month_spec(b: Seq<u8>) -> Option<ParsedDatePart> {
    if b.len() != 2 {
        None
    } else {
        match parse_u16_spec(b) {
            Some(n) => if 1 <= n <= 12 {
                Some(ParsedDatePart::Integer(n))
            } else {
                None
            },
            None => None,
        }
    }
}

/// The value of two decimal digits.
proof fn lemma_two_digits(d1: u8, d2: u8)
    requires
        is_digit_byte(d1),
        is_digit_byte(d2),
    ensures
        parse_u16_spec(seq![d1, d2]) == Some(((d1 - 48) * 10 + (d2 - 48)) as u16),
{
    let b = seq![d1, d2];
    assert(after_plus(b) == b);
    assert(b.drop_last() =~= seq![d1]);
    assert(seq![d1].drop_last() =~= Seq::<u8>::empty());
    assert(digits_value(Seq::<u8>::empty()) == 0);
    assert(seq![d1].last() == d1);
    assert(digits_value(seq![d1]) == digits_value(seq![d1].drop_last()) * 10 + (d1 - 48) as nat);
    assert(digits_value(seq![d1]) == d1 - 48);
    assert(digits_value(b) == (d1 - 48) * 10 + (d2 - 48));
}

/// A two-digit directory name is a month directory exactly when its
/// number is a month of the calendar (one that has a first day), and
/// then it stands for that number: "01" to "12" are the months, "00"
/// and "13" to "99" are not.
pub proof fn lemma_month_dirs(d1: u8, d2: u8, y: int)
    requires
        is_digit_byte(d1),
        is_digit_byte(d2),
    ensures
        ({
            let v = (d1 - 48) * 10 + (d2 - 48);
            month_spec(seq![d1, d2]) == if valid_date(y, v, 1) {
                Some(ParsedDatePart::Integer(v as u16))
            } else {
                None
            }
        }),
        1 <= (d1 - 48) * 10 + (d2 - 48) <= 12 ==> month_spec(seq![d1, d2]) == Some(
            ParsedDatePart::Integer(((d1 - 48) * 10 + (d2 - 48)) as u16),
        ),
{
    lemma_two_digits(d1, d2);
}

/// A day directory: two characters, a number from 1 to 31 that makes
/// an existing date with the year and month above it.
pub open spec fn day_spec(b: Seq<u8>, year: ParsedDatePart, month: ParsedDatePart) -> Option<ParsedDatePart> {
    if b.len() != 2 {
        None
    } else {
        match parse_u16_spec(b) {
            Some(n) => if 1 <= n <= 31 {
                match (year, month) {
                    (ParsedDatePart::Integer(y), ParsedDatePart::Integer(m)) => if valid_date(
                        y as int,
                        m as int,
                        n as int,
                    ) {
                        Some(ParsedDatePart::Date(Date { year: y as i32, month: m as u32, day: n as u32 }))
                    } else {
                        None
                    },
                    _ => None,
                }
            } else {
                None
            },
            None => None,
        }
    }
}

pub fn parse_year(s: &str) -> (r: Option<ParsedDatePart>)
    ensures
        r == year_spec(s.spec_bytes()),
{
    if s.as_bytes().len() != 4 {
        return None;
    }
    match parse_u16(s) {
        Some(n) => if 1980 <= n && n <= 2150 {
            Some(ParsedDatePart::Integer(n))
        } else {
            None
        },
        None => None,
    }
}

pub fn parse_month(s: &str) -> (r: Option<ParsedDatePart>)
    ensures
        r == month_spec(s.spec_bytes()),
{
    if s.as_bytes().len() != 2 {
        return None;
    }
    match parse_u16(s) {
        Some(n) => if 1 <= n && n <= 12 {
            Some(ParsedDatePart::Integer(n))
        } else {
            None
        },
        None => None,
    }
}

/// The year and month parts are the ones of the frames above: `prev`
/// holds the month first, then the year, as parsed by `parse_year` and
/// `parse_month`.
pub fn parse_day<'f>(s: &str, prev: &List<'f, ParsedContextFrame<'f>>) -> (r: Option<ParsedDatePart>)
    requires
        prev@.len() >= 2,
        prev@[1].parseddatepart matches ParsedDatePart::Integer(y) ==> 1980 <= y <= 2150,
    ensures
        r == day_spec(s.spec_bytes(), prev@[1].parseddatepart, prev@[0].parseddatepart),
{
    if s.as_bytes().len() != 2 {
        return None;
    }
    let n = match parse_u16(s) {
        Some(n) => n,
        None => {
            return None;
        },
    };
    if n < 1 || n > 31 {
        return None;
    }
    let month = prev.first().unwrap();
    let year = match prev.rest() {
        Some(l) => l.first().unwrap(),
        None => {
            return None;
        },
    };
    match (year.parseddatepart, month.parseddatepart) {
        (ParsedDatePart::Integer(y), ParsedDatePart::Integer(m)) => {
            if date_exists(y as i32, m as u32, n as u32) {
                Some(ParsedDatePart::Date(Date { year: y as i32, month: m as u32, day: n as u32 }))
            } else {
                None
            }
        },
        _ => None,
    }
}

/// The parsed directories above an entry, innermost first (day, month,
/// year), are as `parse_year`, `parse_month` and `parse_day` give them.
pub open spec fn context_ok(frames: Seq<ParsedContextFrame>) -> bool {
    &&& frames.len() <= 3
    &&& frames.len() >= 1 ==> (frames[frames.len() - 1].parseddatepart matches ParsedDatePart::Integer(
        y,
    ) && 1980 <= y <= 2150)
    &&& frames.len() >= 2 ==> (frames[frames.len() - 2].parseddatepart matches ParsedDatePart::Integer(
        m,
    ) && 1 <= m <= 12)
    &&& frames.len() == 3 ==> frames[0].parseddatepart is Date
}

/// What to do with a directory entry.
#[derive(Debug)]
pub enum EntryAction {
    /// Descend into the directory, which parsed to this part.
    Recurse(ParsedDatePart),
    /// A directory below the day level.
    TooDeep,
    /// A directory whose name is not what its level needs.
    InvalidDir(ContextLevel),
    /// A post, served under this file name.
    Post(String),
    /// Anything else (symlinks, other files) is left out.
    Skip,
}

/// What the name of a directory at level `level` parses to.
pub open spec fn level_parse(level: ContextLevel, b: Seq<u8>, frames: Seq<ParsedContextFrame>) -> Option<ParsedDatePart> {
    match level {
        ContextLevel::Year => year_spec(b),
        ContextLevel::Month => month_spec(b),
        ContextLevel::Day => day_spec(b, frames[1].parseddatepart, frames[0].parseddatepart),
    }
}

/// Decides about the entry `filename` (at `fspath`, of type `filetype`)
/// of a directory whose parsed context is `parsed`: a directory must
/// parse as the next date level; a Markdown file is a post served as
/// its base name with ".html"; everything else is skipped.
pub fn classify_entry<'f>(
    filename: &str,
    fspath: &str,
    filetype: EasyFileType,
    parsed: &List<'f, ParsedContextFrame<'f>>,
) -> (r: EntryAction)
    requires
        context_ok(parsed@),
    ensures
        filetype == EasyFileType::Dir ==> if parsed@.len() == 3 {
            r is TooDeep
        } else {
            let level = if parsed@.len() == 0 {
                ContextLevel::Year
            } else if parsed@.len() == 1 {
                ContextLevel::Month
            } else {
                ContextLevel::Day
            };
            match level_parse(level, filename.spec_bytes(), parsed@) {
                Some(p) => r == EntryAction::Recurse(p),
                None => r == EntryAction::InvalidDir(level),
            }
        },
        filetype == EasyFileType::File ==> if path_extension(fspath@) == Some("md"@) && suffix_dot(
            filename.spec_bytes(),
        ) is Some {
            r matches EntryAction::Post(n) && vstd::utf8::encode_utf8(n@) == filename.spec_bytes().subrange(
                0,
                suffix_dot(filename.spec_bytes())->0,
            ) + vstd::utf8::encode_utf8(".html"@)
        } else {
            r is Skip
        },
        filetype == EasyFileType::Symlink || filetype == EasyFileType::Other ==> r is Skip,
{
    let depth = parsed.len();
    match filetype {
        EasyFileType::Dir => {
            let level = match context_level(depth) {
                Some(l) => l,
                None => {
                    return EntryAction::TooDeep;
                },
            };
            let p = match level {
                ContextLevel::Year => parse_year(filename),
                ContextLevel::Month => parse_month(filename),
                ContextLevel::Day => parse_day(filename, parsed),
            };
            match p {
                Some(p) => EntryAction::Recurse(p),
                None => EntryAction::InvalidDir(level),
            }
        },
        EasyFileType::File => {
            if extension_eq(fspath, "md") {
                match base(filename) {
                    Some(b) => {
                        let mut n = b.to_owned();
                        n.append(".html");
                        proof {
                            lemma_encode_utf8_concat(b@, ".html"@);
                        }
                        EntryAction::Post(n)
                    },
                    None => EntryAction::Skip,
                }
            } else {
                EntryAction::Skip
            }
        },
        EasyFileType::Symlink => EntryAction::Skip,
        EasyFileType::Other => EntryAction::Skip,
    }
}

/// A directory that was descended into keeps the context good.
pub proof fn lemma_context_grows<'f>(
    frames: Seq<ParsedContextFrame<'f>>,
    frame: ParsedContextFrame<'f>,
    level: ContextLevel,
    b: Seq<u8>,
)
    requires
        context_ok(frames),
        frames.len() < 3,
        level == (if frames.len() == 0 {
            ContextLevel::Year
        } else if frames.len() == 1 {
            ContextLevel::Month
        } else {
            ContextLevel::Day
        }),
        level_parse(level, b, frames) == Some(frame.parseddatepart),
    ensures
        context_ok(seq![frame] + frames),
{
    let g = seq![frame] + frames;
    assert(g[g.len() - 1] == if frames.len() == 0 { frame } else { frames[frames.len() - 1] });
    if frames.len() >= 1 {
        assert(g[g.len() - 2] == if frames.len() == 1 { frame } else { frames[frames.len() - 2] });
    }
}

#[derive(Debug)]
pub enum BlogError {
    /// The post is not in a `yyyy/mm/dd` directory.
    MissingPublishDate,
    /// The post is in the blog's top directory.
    MissingContext,
}

/// The date a post in a directory with context `parsed` is published
/// on: the date its directories give.
pub fn publish_date<'f>(parsed: &List<'f, ParsedContextFrame<'f>>) -> (r: Result<Date, BlogError>)
    ensures
        parsed@.len() == 0 ==> r matches Err(BlogError::MissingContext),
        parsed@.len() > 0 ==> match parsed@[0].parseddatepart {
            ParsedDatePart::Date(d) => r == Ok::<Date, BlogError>(d),
            ParsedDatePart::Integer(_) => r matches Err(BlogError::MissingPublishDate),
        },
{
    match parsed.first() {
        Some(a) => match a.parseddatepart {
            ParsedDatePart::Integer(_) => Err(BlogError::MissingPublishDate),
            ParsedDatePart::Date(d) => Ok(d),
        },
        None => Err(BlogError::MissingContext),
    }
}

} // verus!
pub mod breadcrumb;
pub mod post;
