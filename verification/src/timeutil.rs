//! UTC timestamps in RFC 3339 form (millisecond precision, `Z` suffix) and
//! the compact date forms derived from them.

use vstd::prelude::*;
use vstd::string::*;
use crate::text::{dec, dec_pad, push_dec_pad, zeros, all_digits, digits_val, lemma_dec_pad_val};

verus! {

/// Civil (proleptic Gregorian) date of day `z` counted from 1970-01-01,
/// by H. Hinnant's days-to-civil conversion.
pub open spec fn civil_spec(z: int) -> (int, int, int) {
    let z1 = z + 719468;
    let era = z1 / 146097;
    let doe = z1 % 146097;
    let yoe = (doe - doe / 1460 + doe / 36524 - doe / 146096) / 365;
    let y = yoe + era * 400;
    let doy = doe - (365 * yoe + yoe / 4 - yoe / 100);
    let mp = (5 * doy + 2) / 153;
    let d = doy - (153 * mp + 2) / 5 + 1;
    let m = if mp < 10 { mp + 3 } else { mp - 9 };
    (if m <= 2 { y + 1 } else { y }, m, d)
}

/// The RFC 3339 text of a Unix time in milliseconds.
pub open spec fn rfc3339_text(ms: nat) -> Seq<char> {
    let secs = ms / 1000;
    let millis = ms % 1000;
    let days = secs / 86400;
    let sod = secs % 86400;
    let (y, m, d) = civil_spec(days as int);
    dec_pad(y as nat, 4) + "-"@ + dec_pad(m as nat, 2) + "-"@ + dec_pad(d as nat, 2) + "T"@ + dec_pad(
        sod / 3600,
        2,
    ) + ":"@ + dec_pad((sod % 3600) / 60, 2) + ":"@ + dec_pad(sod % 60, 2) + "."@ + dec_pad(millis, 3)
        + "Z"@
}

proof fn lemma_civil_ranges(z: int)
    requires
        0 <= z,
    ensures
        civil_spec(z).0 >= 0,
        1 <= civil_spec(z).1 <= 12,
        1 <= civil_spec(z).2 <= 31,
{
    let z1 = z + 719468;
    let era = z1 / 146097;
    let doe = z1 % 146097;
    assert(0 <= doe < 146097);
    let yoe = (doe - doe / 1460 + doe / 36524 - doe / 146096) / 365;
    assert(0 <= yoe <= 399) by (nonlinear_arith)
        requires
            0 <= doe < 146097,
            yoe == (doe - doe / 1460 + doe / 36524 - doe / 146096) / 365,
    ;
    let doy = doe - (365 * yoe + yoe / 4 - yoe / 100);
    assert(0 <= doy <= 365) by (nonlinear_arith)
        requires
            0 <= doe < 146097,
            yoe == (doe - doe / 1460 + doe / 36524 - doe / 146096) / 365,
            doy == doe - (365 * yoe + yoe / 4 - yoe / 100),
    ;
    let mp = (5 * doy + 2) / 153;
    assert(0 <= mp <= 11);
    let d = doy - (153 * mp + 2) / 5 + 1;
    assert(1 <= d <= 31) by (nonlinear_arith)
        requires
            0 <= doy <= 365,
            mp == (5 * doy + 2) / 153,
            d == doy - (153 * mp + 2) / 5 + 1,
    ;
}

/// Civil date `(year, month, day)` of day `z` after 1970-01-01.
fn civil_from_days(z: u64) -> (r: (u64, u64, u64))
    requires
        z <= 0x1_0000_0000_0000,
    ensures
        (r.0 as int, r.1 as int, r.2 as int) == civil_spec(z as int),
        1 <= r.1 <= 12,
        1 <= r.2 <= 31,
{
    proof {
        lemma_civil_ranges(z as int);
    }
    let z1 = z + 719468;
    let era = z1 / 146097;
    let doe = z1 % 146097;
    let yoe = (doe - doe / 1460 + doe / 36524 - doe / 146096) / 365;
    assert(yoe <= 399) by (nonlinear_arith)
        requires
            0 <= doe < 146097,
            yoe == (doe - doe / 1460 + doe / 36524 - doe / 146096) / 365,
    ;
    assert(era <= 0x1_0000_0000_0000);
    let y = yoe + era * 400;
    let doy = doe - (365 * yoe + yoe / 4 - yoe / 100);
    let mp = (5 * doy + 2) / 153;
    let d = doy - (153 * mp + 2) / 5 + 1;
    let m = if mp < 10 { mp + 3 } else { mp - 9 };
    (if m <= 2 { y + 1 } else { y }, m, d)
}

/// Unix milliseconds as RFC 3339 UTC text, e.g. `2026-09-17T00:00:00.123Z`.
pub fn format_unix_ms(ms: u64) -> (r: String)
    ensures
        r@ == rfc3339_text(ms as nat),
{
    let secs = ms / 1000;
    let millis = ms % 1000;
    let days = secs / 86400;
    let sod = secs % 86400;
    assert(days <= 0x1_0000_0000_0000);
    let (y, m, d) = civil_from_days(days);
    let mut s = String::new();
    push_dec_pad(&mut s, y, 4);
    s.append("-");
    push_dec_pad(&mut s, m, 2);
    s.append("-");
    push_dec_pad(&mut s, d, 2);
    s.append("T");
    push_dec_pad(&mut s, sod / 3600, 2);
    s.append(":");
    push_dec_pad(&mut s, (sod % 3600) / 60, 2);
    s.append(":");
    push_dec_pad(&mut s, sod % 60, 2);
    s.append(".");
    push_dec_pad(&mut s, millis, 3);
    s.append("Z");
    assert(s@ =~= rfc3339_text(ms as nat));
    s
}

#[verifier::external_type_specification]
#[verifier::external_body]
pub struct ExSystemTime(std::time::SystemTime);

/// `SystemTime::now`: the current time of the system clock (nothing is
/// promised of the value).
#[verifier::external_body]
fn system_now() -> std::time::SystemTime {
    std::time::SystemTime::now()
}

/// `SystemTime::duration_since(UNIX_EPOCH)` in whole milliseconds; a clock
/// before the epoch reads as zero (`unwrap_or_default`). Nothing further is
/// promised of the value.
#[verifier::external_body]
fn millis_since_epoch(t: &std::time::SystemTime) -> u64 {
    t.duration_since(std::time::UNIX_EPOCH).unwrap_or_default().as_millis() as u64
}

/// The current time as RFC 3339 UTC text.
pub fn now_rfc3339() -> (r: String)
    ensures
        exists|ms: u64| r@ == rfc3339_text(ms as nat),
{
    let t = system_now();
    let ms = millis_since_epoch(&t);
    format_unix_ms(ms)
}

/// `s.take(n)` with every `drop` character removed.
pub open spec fn take_without(s: Seq<char>, from: int, to: int, drop: char) -> Seq<char>
    decreases to - from,
{
    if to <= from {
        Seq::empty()
    } else if s[to - 1] == drop {
        take_without(s, from, to - 1, drop)
    } else {
        take_without(s, from, to - 1, drop).push(s[to - 1])
    }
}

fn append_without(out: &mut String, s: &str, from: usize, to: usize, drop: char)
    requires
        from <= to <= s@.len(),
    ensures
        final(out)@ == old(out)@ + take_without(s@, from as int, to as int, drop),
{
    let ghost o0 = out@;
    let mut i = from;
    while i < to
        invariant
            from <= i <= to,
            to <= s@.len(),
            out@ == o0 + take_without(s@, from as int, i as int, drop),
        decreases to - i,
    {
        let c = s.get_char(i);
        if c != drop {
            out.append(s.substring_char(i, i + 1));
            assert(s@.subrange(i as int, i + 1) =~= seq![c]);
        }
        i += 1;
        assert(out@ =~= o0 + take_without(s@, from as int, i as int, drop));
    }
}

proof fn lemma_rfc3339_len(ms: nat)
    ensures
        rfc3339_text(ms).len() >= 24,
{
    let secs = ms / 1000;
    let sod = secs % 86400;
    let (y, m, d) = civil_spec((secs / 86400) as int);
    lemma_dec_pad_len(y as nat, 4);
    lemma_dec_pad_len(m as nat, 2);
    lemma_dec_pad_len(d as nat, 2);
    lemma_dec_pad_len(sod / 3600, 2);
    lemma_dec_pad_len((sod % 3600) / 60, 2);
    lemma_dec_pad_len(sod % 60, 2);
    lemma_dec_pad_len(ms % 1000, 3);
    reveal_strlit("-");
    reveal_strlit("T");
    reveal_strlit(":");
    reveal_strlit(".");
    reveal_strlit("Z");
}

proof fn lemma_zeros_len(k: int)
    ensures
        zeros(k).len() == if k <= 0 { 0 } else { k },
    decreases k,
{
    if k > 0 {
        lemma_zeros_len(k - 1);
    }
}

proof fn lemma_dec_pad_len(n: nat, w: nat)
    ensures
        dec_pad(n, w).len() >= w,
{
    lemma_zeros_len(w - dec(n).len());
}

/// Today's UTC date as `YYYYMMDD` (the first ten characters of the RFC 3339
/// text without `-`).
pub fn now_date_compact() -> (r: String)
    ensures
        exists|ms: u64| r@ == take_without(rfc3339_text(ms as nat), 0, 10, '-'),
{
    let s = now_rfc3339();
    let ghost ms = choose|ms: u64| s@ == rfc3339_text(ms as nat);
    proof {
        lemma_rfc3339_len(ms as nat);
    }
    let mut out = String::new();
    append_without(&mut out, s.as_str(), 0, 10, '-');
    assert(out@ =~= take_without(s@, 0, 10, '-'));
    out
}

/// The current UTC date and time as `YYYYMMDD-HHMMSS`.
pub fn now_datetime_compact() -> (r: String)
    ensures
        exists|ms: u64| r@ == compact_text(ms as nat),
{
    let s = now_rfc3339();
    let ghost ms = choose|ms: u64| s@ == rfc3339_text(ms as nat);
    proof {
        lemma_rfc3339_len(ms as nat);
    }
    let mut out = String::new();
    append_without(&mut out, s.as_str(), 0, 10, '-');
    out.append("-");
    append_without(&mut out, s.as_str(), 11, 19, ':');
    assert(out@ =~= take_without(s@, 0, 10, '-') + "-"@ + take_without(s@, 11, 19, ':'));
    assert(out@ == compact_text(ms as nat));
    out
}

} // verus!

verus! {

proof fn lemma_dec_short(n: nat, w: nat)
    requires
        1 <= w <= 4,
        n < if w == 1 { 10nat } else if w == 2 { 100nat } else if w == 3 { 1000nat } else { 10000nat },
    ensures
        dec(n).len() <= w,
    decreases n,
{
    if n >= 10 {
        lemma_dec_short(n / 10, (w - 1) as nat);
    }
}

proof fn lemma_dec_pad_exact(n: nat, w: nat)
    requires
        1 <= w <= 4,
        n < if w == 1 { 10nat } else if w == 2 { 100nat } else if w == 3 { 1000nat } else { 10000nat },
    ensures
        dec_pad(n, w).len() == w,
{
    lemma_dec_short(n, w);
    lemma_zeros_len(w - dec(n).len());
}

/// Days from 1970-01-01 to 10000-01-01.
pub open spec fn days_to_year_10000() -> int {
    2932897
}

proof fn lemma_civil_year_below_10000(z: int)
    requires
        0 <= z < days_to_year_10000(),
    ensures
        civil_spec(z).0 < 10000,
{
    let z1 = z + 719468;
    let era = z1 / 146097;
    let doe = z1 % 146097;
    assert(0 <= doe < 146097);
    assert(era <= 24);
    let yoe = (doe - doe / 1460 + doe / 36524 - doe / 146096) / 365;
    assert(0 <= yoe <= 399) by (nonlinear_arith)
        requires
            0 <= doe < 146097,
            yoe == (doe - doe / 1460 + doe / 36524 - doe / 146096) / 365,
    ;
    let doy = doe - (365 * yoe + yoe / 4 - yoe / 100);
    let mp = (5 * doy + 2) / 153;
    let m = if mp < 10 { mp + 3 } else { mp - 9 };
    if era == 24 && yoe == 399 {
        assert(doe == z1 - 24 * 146097);
        assert(doe <= 146036);
        assert(doy == doe - 145731);
        assert(doy <= 305);
        assert(mp <= 9) by (nonlinear_arith)
            requires
                doy <= 305,
                mp == (5 * doy + 2) / 153,
        ;
        assert(m >= 3);
    }
}

/// The fields of the RFC 3339 text of `ms` are digits that read back as
/// the civil date of its day, the time of day and the milliseconds.
pub open spec fn rfc3339_fields_read_back(ms: nat) -> bool {
    let t = rfc3339_text(ms);
    let secs = ms / 1000;
    let sod = secs % 86400;
    let (y, m, d) = civil_spec((secs / 86400) as int);
    &&& all_digits(t.subrange(0, 4)) && digits_val(t.subrange(0, 4)) == y
    &&& all_digits(t.subrange(5, 7)) && digits_val(t.subrange(5, 7)) == m
    &&& all_digits(t.subrange(8, 10)) && digits_val(t.subrange(8, 10)) == d
    &&& all_digits(t.subrange(11, 13)) && digits_val(t.subrange(11, 13)) == sod / 3600
    &&& all_digits(t.subrange(14, 16)) && digits_val(t.subrange(14, 16)) == (sod % 3600) / 60
    &&& all_digits(t.subrange(17, 19)) && digits_val(t.subrange(17, 19)) == sod % 60
    &&& all_digits(t.subrange(20, 23)) && digits_val(t.subrange(20, 23)) == ms % 1000
}

/// The RFC 3339 text of an instant before the year 10000 has the fixed
/// shape `YYYY-MM-DDTHH:MM:SS.mmmZ`: 24 characters with the separators at
/// their places, and fields that read back as the date, time and
/// milliseconds of the instant.
pub proof fn law_rfc3339_shape(ms: nat)
    requires
        ms < 253402300800000,
    ensures
        ({
            let t = rfc3339_text(ms);
            &&& t.len() == 24
            &&& t[4] == '-' && t[7] == '-' && t[10] == 'T' && t[13] == ':' && t[16] == ':' && t[19] == '.' && t[23]
                == 'Z'
            &&& rfc3339_fields_read_back(ms)
        }),
{
    let secs = ms / 1000;
    let sod = secs % 86400;
    let days = secs / 86400;
    assert(days < days_to_year_10000());
    lemma_civil_ranges(days as int);
    lemma_civil_year_below_10000(days as int);
    let (y, m, d) = civil_spec(days as int);
    lemma_dec_pad_exact(y as nat, 4);
    lemma_dec_pad_exact(m as nat, 2);
    lemma_dec_pad_exact(d as nat, 2);
    lemma_dec_pad_exact(sod / 3600, 2);
    lemma_dec_pad_exact((sod % 3600) / 60, 2);
    lemma_dec_pad_exact(sod % 60, 2);
    lemma_dec_pad_exact(ms % 1000, 3);
    reveal_strlit("-");
    reveal_strlit("T");
    reveal_strlit(":");
    reveal_strlit(".");
    reveal_strlit("Z");
    let t = rfc3339_text(ms);
    let p0 = dec_pad(y as nat, 4);
    let p1 = p0 + "-"@ + dec_pad(m as nat, 2);
    let p2 = p1 + "-"@ + dec_pad(d as nat, 2);
    let p3 = p2 + "T"@ + dec_pad(sod / 3600, 2);
    let p4 = p3 + ":"@ + dec_pad((sod % 3600) / 60, 2);
    let p5 = p4 + ":"@ + dec_pad(sod % 60, 2);
    let p6 = p5 + "."@ + dec_pad(ms % 1000, 3);
    assert(t == p6 + "Z"@);
    assert(t[4] == (p0 + "-"@)[4]);
    assert(t[7] == (p1 + "-"@)[7]);
    assert(t[10] == (p2 + "T"@)[10]);
    assert(t[13] == (p3 + ":"@)[13]);
    assert(t[16] == (p4 + ":"@)[16]);
    assert(t[19] == (p5 + "."@)[19]);
    lemma_dec_pad_val(y as nat, 4);
    lemma_dec_pad_val(m as nat, 2);
    lemma_dec_pad_val(d as nat, 2);
    lemma_dec_pad_val(sod / 3600, 2);
    lemma_dec_pad_val((sod % 3600) / 60, 2);
    lemma_dec_pad_val(sod % 60, 2);
    lemma_dec_pad_val(ms % 1000, 3);
    assert(t.subrange(0, 4) =~= p0);
    assert(t.subrange(5, 7) =~= dec_pad(m as nat, 2));
    assert(t.subrange(8, 10) =~= dec_pad(d as nat, 2));
    assert(t.subrange(11, 13) =~= dec_pad(sod / 3600, 2));
    assert(t.subrange(14, 16) =~= dec_pad((sod % 3600) / 60, 2));
    assert(t.subrange(17, 19) =~= dec_pad(sod % 60, 2));
    assert(t.subrange(20, 23) =~= dec_pad(ms % 1000, 3));
}

/// The compact `YYYYMMDD-HHMMSS` form of an instant: the date of its RFC
/// 3339 text without `-`, a `-`, and the time without `:`.
pub open spec fn compact_text(ms: nat) -> Seq<char> {
    take_without(rfc3339_text(ms), 0, 10, '-') + "-"@ + take_without(rfc3339_text(ms), 11, 19, ':')
}

proof fn lemma_take_date(t: Seq<char>)
    requires
        t.len() >= 24,
        t[4] == '-',
        t[7] == '-',
        t[0] != '-' && t[1] != '-' && t[2] != '-' && t[3] != '-' && t[5] != '-' && t[6] != '-' && t[8] != '-' && t[9]
            != '-',
    ensures
        take_without(t, 0, 10, '-') == t.subrange(0, 4) + t.subrange(5, 7) + t.subrange(8, 10),
{
    assert(take_without(t, 0, 0, '-') =~= Seq::<char>::empty());
    assert(take_without(t, 0, 1, '-') =~= t.subrange(0, 1));
    assert(take_without(t, 0, 2, '-') =~= t.subrange(0, 2));
    assert(take_without(t, 0, 3, '-') =~= t.subrange(0, 3));
    assert(take_without(t, 0, 4, '-') =~= t.subrange(0, 4));
    assert(take_without(t, 0, 5, '-') =~= t.subrange(0, 4));
    assert(take_without(t, 0, 6, '-') =~= t.subrange(0, 4) + t.subrange(5, 6));
    assert(take_without(t, 0, 7, '-') =~= t.subrange(0, 4) + t.subrange(5, 7));
    assert(take_without(t, 0, 8, '-') =~= t.subrange(0, 4) + t.subrange(5, 7));
    assert(take_without(t, 0, 9, '-') =~= t.subrange(0, 4) + t.subrange(5, 7) + t.subrange(8, 9));
    assert(take_without(t, 0, 10, '-') =~= t.subrange(0, 4) + t.subrange(5, 7) + t.subrange(8, 10));
}

proof fn lemma_take_time(t: Seq<char>)
    requires
        t.len() >= 24,
        t[13] == ':',
        t[16] == ':',
        t[11] != ':' && t[12] != ':' && t[14] != ':' && t[15] != ':' && t[17] != ':' && t[18] != ':',
    ensures
        take_without(t, 11, 19, ':') == t.subrange(11, 13) + t.subrange(14, 16) + t.subrange(17, 19),
{
    assert(take_without(t, 11, 11, ':') =~= Seq::<char>::empty());
    assert(take_without(t, 11, 12, ':') =~= t.subrange(11, 12));
    assert(take_without(t, 11, 13, ':') =~= t.subrange(11, 13));
    assert(take_without(t, 11, 14, ':') =~= t.subrange(11, 13));
    assert(take_without(t, 11, 15, ':') =~= t.subrange(11, 13) + t.subrange(14, 15));
    assert(take_without(t, 11, 16, ':') =~= t.subrange(11, 13) + t.subrange(14, 16));
    assert(take_without(t, 11, 17, ':') =~= t.subrange(11, 13) + t.subrange(14, 16));
    assert(take_without(t, 11, 18, ':') =~= t.subrange(11, 13) + t.subrange(14, 16) + t.subrange(17, 18));
    assert(take_without(t, 11, 19, ':') =~= t.subrange(11, 13) + t.subrange(14, 16) + t.subrange(17, 19));
}

proof fn lemma_digit_at(t: Seq<char>, lo: int, hi: int, i: int)
    requires
        0 <= lo <= i < hi <= t.len(),
        all_digits(t.subrange(lo, hi)),
    ensures
        '0' <= t[i] <= '9',
{
    assert(t.subrange(lo, hi)[i - lo] == t[i]);
}

/// For an instant before the year 10000 the compact form is the date
/// digits, a `-` and the time digits: 15 characters.
pub proof fn law_compact_shape(ms: nat)
    requires
        ms < 253402300800000,
    ensures
        ({
            let t = rfc3339_text(ms);
            &&& compact_text(ms) == t.subrange(0, 4) + t.subrange(5, 7) + t.subrange(8, 10) + "-"@ + t.subrange(11, 13)
                + t.subrange(14, 16) + t.subrange(17, 19)
            &&& compact_text(ms).len() == 15
        }),
{
    law_rfc3339_shape(ms);
    let t = rfc3339_text(ms);
    reveal_strlit("-");
    lemma_digit_at(t, 0, 4, 0);
    lemma_digit_at(t, 0, 4, 1);
    lemma_digit_at(t, 0, 4, 2);
    lemma_digit_at(t, 0, 4, 3);
    lemma_digit_at(t, 5, 7, 5);
    lemma_digit_at(t, 5, 7, 6);
    lemma_digit_at(t, 8, 10, 8);
    lemma_digit_at(t, 8, 10, 9);
    lemma_digit_at(t, 11, 13, 11);
    lemma_digit_at(t, 11, 13, 12);
    lemma_digit_at(t, 14, 16, 14);
    lemma_digit_at(t, 14, 16, 15);
    lemma_digit_at(t, 17, 19, 17);
    lemma_digit_at(t, 17, 19, 18);
    lemma_take_date(t);
    lemma_take_time(t);
}

} // verus!
