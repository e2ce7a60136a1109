//! Multilingual date formatting, in the style of the HTTP date format.

use vstd::prelude::*;

use chrono::{Datelike, Offset, TimeZone, Timelike};

use crate::ahtml::print::string_push;
use crate::lang::Lang;

verus! {

pub open spec fn months_short_spec(lang: Lang) -> Seq<Seq<char>> {
    match lang {
        Lang::En => seq![
            "Jan"@, "Feb"@, "Mar"@, "Apr"@, "May"@, "Jun"@, "Jul"@, "Aug"@, "Sep"@, "Oct"@, "Nov"@, "Dec"@,
        ],
        Lang::De => seq![
            "Jan"@, "Feb"@, "Mär"@, "Apr"@, "Mai"@, "Jun"@, "Jul"@, "Aug"@, "Sep"@, "Okt"@, "Nov"@, "Dez"@,
        ],
    }
}

pub open spec fn wdays_short_spec(lang: Lang) -> Seq<Seq<char>> {
    match lang {
        Lang::En => seq!["Mon"@, "Tue"@, "Wed"@, "Thu"@, "Fri"@, "Sat"@, "Sun"@],
        Lang::De => seq!["Mo"@, "Di"@, "Mi"@, "Do"@, "Fr"@, "Sa"@, "So"@],
    }
}

/// The short month names, January first.
pub fn months_short(lang: Lang) -> (r: &'static [&'static str; 12])
    ensures
        forall|i: int| 0 <= i < 12 ==> (#[trigger] r@[i])@ == months_short_spec(lang)[i],
{
    match lang {
        Lang::En => &["Jan", "Feb", "Mar", "Apr", "May", "Jun", "Jul", "Aug", "Sep", "Oct", "Nov", "Dec"],
        Lang::De => &["Jan", "Feb", "Mär", "Apr", "Mai", "Jun", "Jul", "Aug", "Sep", "Okt", "Nov", "Dez"],
    }
}

/// The short weekday names, Monday first.
pub fn wdays_short(lang: Lang) -> (r: &'static [&'static str; 7])
    ensures
        forall|i: int| 0 <= i < 7 ==> (#[trigger] r@[i])@ == wdays_short_spec(lang)[i],
{
    match lang {
        Lang::En => &["Mon", "Tue", "Wed", "Thu", "Fri", "Sat", "Sun"],
        Lang::De => &["Mo", "Di", "Mi", "Do", "Fr", "Sa", "So"],
    }
}

/// A moment as a clock in some time zone shows it.
pub struct LocalTime {
    /// Days since Monday (0 to 6).
    pub weekday0: u32,
    pub day: u32,
    /// Months since January (0 to 11).
    pub month0: u32,
    pub year: i32,
    pub hour: u32,
    pub minute: u32,
    pub second: u32,
    /// The zone's abbreviation for the offset in force ("CET", "CEST").
    pub offset_name: String,
}

impl View for LocalTime {
    type V = (u32, u32, u32, i32, u32, u32, u32, Seq<char>);

    open spec fn view(&self) -> Self::V {
        (
            self.weekday0,
            self.day,
            self.month0,
            self.year,
            self.hour,
            self.minute,
            self.second,
            self.offset_name@,
        )
    }
}

/// What the time zone database says of `unixtime` (seconds since the
/// epoch) in the zone named `zone_name`: the local time, or `None` when
/// the zone is unknown or the time out of range.
pub uninterp spec fn tz_local_time(zone_name: Seq<char>, unixtime: i64) -> Option<
    (u32, u32, u32, i32, u32, u32, u32, Seq<char>),
>;

/// `chrono_tz::Tz` parsed from `zone_name`, then `TimeZone::timestamp_opt`
/// (`LocalResult::earliest`: the earlier of two ambiguous results); the
/// local date and time are the UTC ones moved by the offset with
/// `NaiveDateTime::checked_add_offset` (`None` past chrono's range),
/// read out with chrono's `Datelike`/`Timelike` accessors, and the
/// offset's `Display`. Those accessors return values in their
/// documented ranges.
#[verifier::external_body]
pub(crate) fn local_time(zone_name: &str, unixtime: i64) -> (r: Option<LocalTime>)
    ensures
        r matches Some(lt) ==> tz_local_time(zone_name@, unixtime) == Some(lt@),
        r matches Some(lt) ==> lt.weekday0 < 7 && 1 <= lt.day <= 31 && lt.month0 < 12 && lt.hour
            < 24 && lt.minute < 60 && lt.second < 60,
        r is None ==> tz_local_time(zone_name@, unixtime) is None,
{
    let dt = zone_name.parse::<chrono_tz::Tz>().ok()?.timestamp_opt(unixtime, 0).earliest()?;
    let local = dt.naive_utc().checked_add_offset(dt.offset().fix())?;
    let (d, t) = (local.date(), local.time());
    Some(LocalTime {
        weekday0: d.weekday().num_days_from_monday(), day: d.day(), month0: d.month0(),
        year: d.year(), hour: t.hour(), minute: t.minute(), second: t.second(),
        offset_name: dt.offset().to_string(),
    })
}

pub open spec fn digit_char(d: nat) -> char {
    if d == 0 { '0' }
    else if d == 1 { '1' }
    else if d == 2 { '2' }
    else if d == 3 { '3' }
    else if d == 4 { '4' }
    else if d == 5 { '5' }
    else if d == 6 { '6' }
    else if d == 7 { '7' }
    else if d == 8 { '8' }
    else { '9' }
}

/// The decimal digits of `n`.
pub open spec fn decimal(n: nat) -> Seq<char>
    decreases n,
{
    if n < 10 {
        seq![digit_char(n)]
    } else {
        decimal(n / 10).push(digit_char(n % 10))
    }
}

/// `n` in decimal with at least two digits.
pub open spec fn decimal2(n: nat) -> Seq<char> {
    if n < 10 {
        seq!['0', digit_char(n)]
    } else {
        decimal(n)
    }
}

/// `n` in decimal, with a '-' when negative.
pub open spec fn decimal_signed(n: int) -> Seq<char> {
    if n < 0 {
        seq!['-'] + decimal((-n) as nat)
    } else {
        decimal(n as nat)
    }
}

fn digit(d: u32) -> (c: char)
    requires
        d < 10,
    ensures
        c == digit_char(d as nat),
{
    match d {
        0 => '0',
        1 => '1',
        2 => '2',
        3 => '3',
        4 => '4',
        5 => '5',
        6 => '6',
        7 => '7',
        8 => '8',
        _ => '9',
    }
}

/// Appends `n` in decimal.
pub fn push_decimal(out: &mut String, n: u32)
    ensures
        final(out)@ == old(out)@ + decimal(n as nat),
    decreases n,
{
    if n >= 10 {
        push_decimal(out, n / 10);
    }
    string_push(out, digit(n % 10));
    proof {
        if n >= 10 {
            assert(old(out)@ + decimal(n as nat) =~= old(out)@ + decimal((n / 10) as nat) + seq![digit_char((n % 10) as nat)]);
        } else {
            assert(old(out)@ + decimal(n as nat) =~= old(out)@.push(digit_char((n % 10) as nat)));
        }
    }
}

/// Appends `n` in decimal.
pub fn push_decimal_u64(out: &mut String, n: u64)
    ensures
        final(out)@ == old(out)@ + decimal(n as nat),
    decreases n,
{
    if n >= 10 {
        push_decimal_u64(out, n / 10);
    }
    string_push(out, digit((n % 10) as u32));
    proof {
        if n >= 10 {
            assert(old(out)@ + decimal(n as nat) =~= old(out)@ + decimal((n / 10) as nat) + seq![digit_char((n % 10) as nat)]);
        } else {
            assert(old(out)@ + decimal(n as nat) =~= old(out)@.push(digit_char((n % 10) as nat)));
        }
    }
}

/// Appends `n` in decimal, with at least two digits.
pub fn push_decimal2(out: &mut String, n: u32)
    ensures
        final(out)@ == old(out)@ + decimal2(n as nat),
{
    if n < 10 {
        string_push(out, '0');
        string_push(out, digit(n));
        assert(out@ =~= old(out)@ + decimal2(n as nat));
    } else {
        push_decimal(out, n);
    }
}

/// Appends `n` in decimal, with a '-' when negative.
pub fn push_decimal_signed(out: &mut String, n: i32)
    ensures
        final(out)@ == old(out)@ + decimal_signed(n as int),
{
    if n < 0 {
        string_push(out, '-');
        let m: u32 = if n == i32::MIN {
            2147483648u32
        } else {
            (-n) as u32
        };
        push_decimal(out, m);
        assert(out@ =~= old(out)@ + decimal_signed(n as int));
    } else {
        push_decimal(out, n as u32);
    }
}

/// The text for the local time `lt` (as a view) in language `lang`:
/// "Mon, 26 Feb 2024 18:03:33 CET" or "Mo, 26. Feb 2024 18:03:33 CET".
pub open spec fn httplike_spec(lt: (u32, u32, u32, i32, u32, u32, u32, Seq<char>), lang: Lang) -> Seq<char> {
    wdays_short_spec(lang)[lt.0 as int] + ", "@ + decimal(lt.1 as nat) + (match lang {
        Lang::En => " "@,
        Lang::De => ". "@,
    }) + months_short_spec(lang)[lt.2 as int] + " "@ + decimal_signed(lt.3 as int) + " "@ + decimal2(lt.4 as nat) + ":"@
        + decimal2(lt.5 as nat) + ":"@ + decimal2(lt.6 as nat) + " "@ + lt.7
}

/// Formats a local time in the style of the HTTP date format (always
/// 24-hour, with the zone's abbreviation).
pub fn format_httplike(lt: &LocalTime, lang: Lang) -> (r: String)
    requires
        lt.weekday0 < 7,
        lt.month0 < 12,
    ensures
        r@ == httplike_spec(lt@, lang),
{
    let wday = wdays_short(lang)[lt.weekday0 as usize];
    let month = months_short(lang)[lt.month0 as usize];
    let mut out = String::new();
    out.append(wday);
    out.append(", ");
    push_decimal(&mut out, lt.day);
    match lang {
        Lang::En => out.append(" "),
        Lang::De => out.append(". "),
    }
    out.append(month);
    out.append(" ");
    push_decimal_signed(&mut out, lt.year);
    out.append(" ");
    push_decimal2(&mut out, lt.hour);
    out.append(":");
    push_decimal2(&mut out, lt.minute);
    out.append(":");
    push_decimal2(&mut out, lt.second);
    out.append(" ");
    out.append(lt.offset_name.as_str());
    assert(out@ =~= httplike_spec(lt@, lang));
    out
}

/// The date of `unixtime` (seconds since the epoch) in zone
/// `zone_name`, formatted as `format_httplike` does; `None` when the
/// zone is unknown or the time out of its range.
pub fn date_format_httplike(unixtime: i64, zone_name: &str, lang: Lang) -> (r: Option<String>)
    ensures
        match tz_local_time(zone_name@, unixtime) {
            Some(lt) => r matches Some(s) && s@ == httplike_spec(lt, lang),
            None => r is None,
        },
{
    match local_time(zone_name, unixtime) {
        Some(lt) => Some(format_httplike(&lt, lang)),
        None => None,
    }
}

/// As `date_format_httplike`, in Swiss time, in the language named
/// `langname` (English unless it starts with the code of another).
pub fn date_format_httplike_switzerland(unixtime: i64, langname: &str) -> (r: Option<String>)
    ensures
        match tz_local_time("Europe/Zurich"@, unixtime) {
            Some(lt) => r matches Some(s) && s@ == httplike_spec(lt, Lang::spec_from(langname@)),
            None => r is None,
        },
{
    date_format_httplike(unixtime, "Europe/Zurich", Lang::from(langname))
}

/// `n` in decimal, padded with leading zeros to `w` characters.
pub open spec fn decimal_padded(n: nat, w: nat) -> Seq<char> {
    let d = decimal(n);
    if d.len() >= w {
        d
    } else {
        Seq::new((w - d.len()) as nat, |i: int| '0') + d
    }
}

proof fn lemma_decimal_len(n: nat)
    ensures
        decimal(n).len() >= 1,
        n < 10 ==> decimal(n).len() == 1,
        n < 100 ==> decimal(n).len() <= 2,
        n < 1000 ==> decimal(n).len() <= 3,
        n < 10000 ==> decimal(n).len() <= 4,
        n < 100000 ==> decimal(n).len() <= 5,
        n < 1000000 ==> decimal(n).len() <= 6,
        n < 10000000 ==> decimal(n).len() <= 7,
        n < 100000000 ==> decimal(n).len() <= 8,
        n < 1000000000 ==> decimal(n).len() <= 9,
        n < 10000000000 ==> decimal(n).len() <= 10,
    decreases n,
{
    if n >= 10 {
        lemma_decimal_len(n / 10);
    }
}

/// Appends `n` in decimal, padded with leading zeros to `w` characters.
pub fn push_decimal_padded(out: &mut String, n: u32, w: u32)
    ensures
        final(out)@ == old(out)@ + decimal_padded(n as nat, w as nat),
{
    let mut digits: u32 = 1;
    let mut m: u32 = n;
    proof {
        lemma_decimal_len(n as nat);
    }
    while m >= 10
        invariant
            1 <= digits,
            m <= n,
            decimal(n as nat).len() == decimal(m as nat).len() + digits - 1,
            decimal(n as nat).len() <= 10,
            decimal(m as nat).len() >= 1,
        decreases m,
    {
        proof {
            lemma_decimal_len((m / 10) as nat);
            assert(decimal(m as nat).len() == decimal((m / 10) as nat).len() + 1);
        }
        m = m / 10;
        digits = digits + 1;
    }
    let ghost before = out@;
    let mut k: u32 = digits;
    while k < w
        invariant
            digits <= k,
            k <= w || k == digits,
            out@ == before + Seq::new((k - digits) as nat, |i: int| '0'),
        decreases w - k,
    {
        string_push(out, '0');
        k = k + 1;
        assert(out@ =~= before + Seq::new((k - digits) as nat, |i: int| '0'));
    }
    let ghost zeros = out@;
    push_decimal(out, n);
    proof {
        if decimal(n as nat).len() >= w {
            assert(Seq::new((k - digits) as nat, |i: int| '0') =~= Seq::<char>::empty());
            assert(out@ =~= old(out)@ + decimal_padded(n as nat, w as nat));
        } else {
            assert(out@ =~= old(out)@ + decimal_padded(n as nat, w as nat));
        }
    }
}

/// Appends `n` in decimal, with its sign, padded (after the sign) with
/// zeros to `w` characters in all.
pub open spec fn decimal_signed_padded(n: int, w: nat) -> Seq<char> {
    if n < 0 {
        seq!['-'] + decimal_padded((-n) as nat, if w > 0 { (w - 1) as nat } else { 0 })
    } else {
        decimal_padded(n as nat, w)
    }
}

/// Day `i` of the week, counting from Monday as 0, is named in English
/// "Mon", "Tue", "Wed", "Thu", "Fri", "Sat", "Sun", and in German "Mo",
/// "Di", "Mi", "Do", "Fr", "Sa", "So"; so the name shown is that of the
/// weekday it stands for.
pub proof fn lemma_weekday_names(i: int)
    requires
        0 <= i < 7,
    ensures
        wdays_short_spec(Lang::En)[i] == seq![
            "Mon"@, "Tue"@, "Wed"@, "Thu"@, "Fri"@, "Sat"@, "Sun"@,
        ][i],
        wdays_short_spec(Lang::De)[i] == seq!["Mo"@, "Di"@, "Mi"@, "Do"@, "Fr"@, "Sa"@, "So"@][i],
        i == 1 ==> wdays_short_spec(Lang::En)[i] =~= seq!['T', 'u', 'e'],
        i == 2 ==> wdays_short_spec(Lang::En)[i] =~= seq!['W', 'e', 'd'],
{
    reveal_strlit("Tue");
    reveal_strlit("Wed");
}

/// Month `i`, counting from January as 0, is named in English "Jan",
/// "Feb", "Mar", "Apr", "May", "Jun", "Jul", "Aug", "Sep", "Oct", "Nov",
/// "Dec", and in German "Jan", "Feb", "Mär", "Apr", "Mai", "Jun", "Jul",
/// "Aug", "Sep", "Okt", "Nov", "Dez"; the English names have three
/// characters.
pub proof fn lemma_month_names(i: int)
    requires
        0 <= i < 12,
    ensures
        months_short_spec(Lang::En)[i] == seq![
            "Jan"@, "Feb"@, "Mar"@, "Apr"@, "May"@, "Jun"@, "Jul"@, "Aug"@, "Sep"@, "Oct"@, "Nov"@,
            "Dec"@,
        ][i],
        months_short_spec(Lang::De)[i] == seq![
            "Jan"@, "Feb"@, "Mär"@, "Apr"@, "Mai"@, "Jun"@, "Jul"@, "Aug"@, "Sep"@, "Okt"@, "Nov"@,
            "Dez"@,
        ][i],
        months_short_spec(Lang::En)[i].len() == 3,
{
    reveal_strlit("Jan");
    reveal_strlit("Feb");
    reveal_strlit("Mar");
    reveal_strlit("Apr");
    reveal_strlit("May");
    reveal_strlit("Jun");
    reveal_strlit("Jul");
    reveal_strlit("Aug");
    reveal_strlit("Sep");
    reveal_strlit("Oct");
    reveal_strlit("Nov");
    reveal_strlit("Dec");
}

/// The formatted date starts with the name of its weekday (counted
/// from Monday) and a comma: in English "Mon, " to "Sun, ", in German
/// "Mo, " to "So, ".
pub proof fn lemma_httplike_weekday(lt: (u32, u32, u32, i32, u32, u32, u32, Seq<char>), lang: Lang)
    requires
        lt.0 < 7,
    ensures
        ({
            let name = match lang {
                Lang::En => seq!["Mon"@, "Tue"@, "Wed"@, "Thu"@, "Fri"@, "Sat"@, "Sun"@][lt.0 as int],
                Lang::De => seq!["Mo"@, "Di"@, "Mi"@, "Do"@, "Fr"@, "Sa"@, "So"@][lt.0 as int],
            };
            httplike_spec(lt, lang).subrange(0, name.len() as int + 2) == name + ", "@
        }),
{
    lemma_weekday_names(lt.0 as int);
    reveal_strlit(", ");
    let name = wdays_short_spec(lang)[lt.0 as int];
    let pre = name + ", "@;
    let t = httplike_spec(lt, lang);
    lemma_prefix_chain(lt, lang);
    assert(t.subrange(0, name.len() as int + 2) =~= pre);
}

/// The text begins with the weekday name and ", ".
proof fn lemma_prefix_chain(lt: (u32, u32, u32, i32, u32, u32, u32, Seq<char>), lang: Lang)
    ensures
        (wdays_short_spec(lang)[lt.0 as int] + ", "@).is_prefix_of(httplike_spec(lt, lang)),
{
    let pre = wdays_short_spec(lang)[lt.0 as int] + ", "@;
    let a = pre + decimal(lt.1 as nat);
    let b = a + (match lang {
        Lang::En => " "@,
        Lang::De => ". "@,
    });
    let c = b + months_short_spec(lang)[lt.2 as int];
    let d = c + " "@;
    let e = d + decimal_signed(lt.3 as int);
    let f = e + " "@;
    let g = f + decimal2(lt.4 as nat);
    let h = g + ":"@;
    let i = h + decimal2(lt.5 as nat);
    let j = i + ":"@;
    let k = j + decimal2(lt.6 as nat);
    let l = k + " "@;
    let m = l + lt.7;
    assert(m == httplike_spec(lt, lang));
    assert forall|x: int| 0 <= x < pre.len() implies m[x] == pre[x] by {
        assert(a[x] == pre[x]);
        assert(b[x] == a[x]);
        assert(c[x] == b[x]);
        assert(d[x] == c[x]);
        assert(e[x] == d[x]);
        assert(f[x] == e[x]);
        assert(g[x] == f[x]);
        assert(h[x] == g[x]);
        assert(i[x] == h[x]);
        assert(j[x] == i[x]);
        assert(k[x] == j[x]);
        assert(l[x] == k[x]);
        assert(m[x] == l[x]);
    }
    assert(pre =~= m.subrange(0, pre.len() as int));
}

/// Ten to the power `w`.
pub open spec fn pow10(w: nat) -> nat
    decreases w,
{
    if w == 0 {
        1
    } else {
        10 * pow10((w - 1) as nat)
    }
}

/// The last `w` decimal digits of `n`, most significant first.
pub open spec fn digits_fixed(n: nat, w: nat) -> Seq<char>
    decreases w,
{
    if w == 0 {
        Seq::empty()
    } else {
        digits_fixed(n / 10, (w - 1) as nat).push(digit_char(n % 10))
    }
}

proof fn lemma_zero_digits(w: nat)
    ensures
        digits_fixed(0, w) =~= Seq::new(w, |i: int| '0'),
    decreases w,
{
    if w > 0 {
        lemma_zero_digits((w - 1) as nat);
    }
}

/// A number below `10^w` padded to `w` characters is its `w` decimal
/// digits.
pub proof fn lemma_decimal_padded_digits(n: nat, w: nat)
    requires
        1 <= w,
        n < pow10(w),
    ensures
        decimal_padded(n, w) == digits_fixed(n, w),
        decimal(n).len() <= w,
    decreases w,
{
    if n < 10 {
        lemma_zero_digits((w - 1) as nat);
        assert(decimal(n) =~= seq![digit_char(n)]);
        if w == 1 {
            assert(digits_fixed(n, w) =~= seq![digit_char(n)]);
        } else {
            assert(decimal_padded(n, w) =~= Seq::new((w - 1) as nat, |i: int| '0') + seq![digit_char(n)]);
            assert(digits_fixed(n, w) =~= digits_fixed(0, (w - 1) as nat).push(digit_char(n)));
        }
    } else {
        assert(w >= 2) by {
            if w == 1 {
                assert(pow10(1) == 10 * pow10(0));
            }
        }
        assert(n / 10 < pow10((w - 1) as nat));
        lemma_decimal_padded_digits(n / 10, (w - 1) as nat);
        let d = decimal(n / 10);
        assert(decimal(n) == d.push(digit_char(n % 10)));
        if d.len() >= (w - 1) as nat {
            assert(decimal_padded(n, w) =~= d.push(digit_char(n % 10)));
        } else {
            assert(decimal_padded(n, w) =~= Seq::new(((w - 1) - d.len()) as nat, |i: int| '0') + d.push(digit_char(n % 10)));
            assert(decimal_padded(n / 10, (w - 1) as nat) =~= Seq::new(((w - 1) - d.len()) as nat, |i: int| '0') + d);
            assert(decimal_padded(n, w) =~= decimal_padded(n / 10, (w - 1) as nat).push(digit_char(n % 10)));
        }
    }
}

pub fn push_decimal_signed_padded(out: &mut String, n: i32, w: u32)
    ensures
        final(out)@ == old(out)@ + decimal_signed_padded(n as int, w as nat),
{
    if n < 0 {
        string_push(out, '-');
        let m: u32 = if n == i32::MIN {
            2147483648u32
        } else {
            (-n) as u32
        };
        push_decimal_padded(out, m, if w > 0 { w - 1 } else { 0 });
        assert(out@ =~= old(out)@ + decimal_signed_padded(n as int, w as nat));
    } else {
        push_decimal_padded(out, n as u32, w);
    }
}

} // verus!
