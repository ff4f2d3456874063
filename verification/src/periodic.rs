//! Periodic (cron) job configuration.
//!
//! A periodic job launches children on a cron schedule: five fields
//! separated by spaces, giving the minutes (0-59), hours (0-23), days of the
//! month (1-31), months (1-12) and days of the week (0-7, both 0 and 7 being
//! Sunday) at which it fires. Each field is a comma-separated list of items;
//! an item is `*`, a value `a` or a range `a-b`, optionally followed by a
//! step `/n`. When both the day-of-month and day-of-week fields are
//! restricted (do not start with `*`), a day matches if either does;
//! otherwise it must match both. Schedules are evaluated in UTC, on the
//! proleptic Gregorian calendar.
use crate::constraint::{all_digits, parse_nat, parse_u64};
use crate::error::{Error, Result};
use crate::text::{concat3, str_eq};
use vstd::prelude::*;

verus! {

/// A periodic launch schedule.
#[derive(Debug, Clone)]
pub struct PeriodicConfig {
    /// Cron spec, e.g. `"*/5 * * * *"`.
    pub spec: String,
    /// Time zone the spec is evaluated in: `UTC` (also written `Etc/UTC` or
    /// `GMT`); no other zone is known.
    pub time_zone: String,
    /// Skip a launch if the previous child is still running.
    pub prohibit_overlap: bool,
}

/// `s` cut at every `sep`, keeping empty pieces (as `str::split` does).
pub open spec fn split_on(s: Seq<char>, sep: char) -> Seq<Seq<char>>
    decreases s.len(),
{
    if s.len() == 0 {
        seq![Seq::<char>::empty()]
    } else {
        let prev = split_on(s.drop_last(), sep);
        if s.last() == sep {
            prev.push(Seq::<char>::empty())
        } else {
            prev.update(prev.len() - 1, prev.last().push(s.last()))
        }
    }
}

/// The non-empty pieces, in order.
pub open spec fn non_empty(ps: Seq<Seq<char>>) -> Seq<Seq<char>>
    decreases ps.len(),
{
    if ps.len() == 0 {
        Seq::empty()
    } else if ps.last().len() > 0 {
        non_empty(ps.drop_last()).push(ps.last())
    } else {
        non_empty(ps.drop_last())
    }
}

/// The words of a spec: its space-separated non-empty pieces.
pub open spec fn words(s: Seq<char>) -> Seq<Seq<char>> {
    non_empty(split_on(s, ' '))
}

/// Position of the first `c` in `s` from `k` on, or -1.
pub open spec fn first_at(s: Seq<char>, c: char, k: int) -> int
    decreases s.len() - k,
{
    if k < 0 || k >= s.len() {
        -1
    } else if s[k] == c {
        k
    } else {
        first_at(s, c, k + 1)
    }
}

/// The values `[a, b]` an item's base denotes within `[lo, hi]`: `*` is the
/// whole field, `a-b` a range, `a` a single value.
pub open spec fn range_of(base: Seq<char>, lo: int, hi: int) -> Option<(int, int)> {
    if base == seq!['*'] {
        Some((lo, hi))
    } else {
        let dash = first_at(base, '-', 0);
        if dash >= 0 {
            match (parse_nat(base.subrange(0, dash)), parse_nat(base.subrange(dash + 1, base.len() as int))) {
                (Some(a), Some(b)) => if lo <= a && a <= b && b <= hi {
                    Some((a as int, b as int))
                } else {
                    None
                },
                _ => None,
            }
        } else {
            match parse_nat(base) {
                Some(a) => if lo <= a && a <= hi {
                    Some((a as int, a as int))
                } else {
                    None
                },
                None => None,
            }
        }
    }
}

/// An item as (first, last, step), when it is well formed.
pub open spec fn item_bounds(item: Seq<char>, lo: int, hi: int) -> Option<(int, int, int)> {
    let slash = first_at(item, '/', 0);
    let base = if slash >= 0 { item.subrange(0, slash) } else { item };
    let step: Option<nat> = if slash >= 0 {
        parse_nat(item.subrange(slash + 1, item.len() as int))
    } else {
        Some(1)
    };
    match (range_of(base, lo, hi), step) {
        (Some(r), Some(n)) => if n > 0 {
            Some((r.0, r.1, n as int))
        } else {
            None
        },
        _ => None,
    }
}

/// Whether an item (first, last, step) covers `v`.
pub open spec fn covers(t: (int, int, int), v: int) -> bool {
    t.0 <= v && v <= t.1 && (v - t.0) % t.2 == 0
}

/// Whether every item of a field is well formed.
pub open spec fn field_ok(text: Seq<char>, lo: int, hi: int) -> bool {
    forall|i: int| 0 <= i < split_on(text, ',').len() ==> (#[trigger] item_bounds(split_on(text, ',')[i], lo, hi)) is Some
}

/// Whether some item of a field covers `v`.
pub open spec fn field_has(text: Seq<char>, lo: int, hi: int, v: int) -> bool {
    exists|i: int|
        0 <= i < split_on(text, ',').len() && (#[trigger] item_bounds(split_on(text, ',')[i], lo, hi) matches Some(t)
            && covers(t, v))
}

/// The values `0..=hi` a field allows.
pub open spec fn field_set(text: Seq<char>, lo: int, hi: int) -> Seq<bool> {
    Seq::new((hi + 1) as nat, |v: int| field_has(text, lo, hi, v))
}

/// A parsed schedule: the allowed values of each field, and whether the
/// day fields are unrestricted (start with `*`).
pub struct CronModel {
    /// Allowed minutes, indexed 0..60.
    pub minutes: Seq<bool>,
    /// Allowed hours, indexed 0..24.
    pub hours: Seq<bool>,
    /// Allowed days of the month, indexed 0..32.
    pub days: Seq<bool>,
    /// Allowed months, indexed 0..13.
    pub months: Seq<bool>,
    /// Allowed days of the week, indexed 0..8.
    pub weekdays: Seq<bool>,
    /// The day-of-month field starts with `*`.
    pub days_star: bool,
    /// The day-of-week field starts with `*`.
    pub weekdays_star: bool,
}

/// The schedule a cron spec denotes, if it is well formed.
pub open spec fn cron_model(s: Seq<char>) -> Option<CronModel> {
    let w = words(s);
    if w.len() == 5 && field_ok(w[0], 0, 59) && field_ok(w[1], 0, 23) && field_ok(w[2], 1, 31) && field_ok(w[3], 1, 12)
        && field_ok(w[4], 0, 7) {
        Some(
            CronModel {
                minutes: field_set(w[0], 0, 59),
                hours: field_set(w[1], 0, 23),
                days: field_set(w[2], 1, 31),
                months: field_set(w[3], 1, 12),
                weekdays: field_set(w[4], 0, 7),
                days_star: w[2].len() > 0 && w[2][0] == '*',
                weekdays_star: w[4].len() > 0 && w[4][0] == '*',
            },
        )
    } else {
        None
    }
}

/// Whether a time zone name is one this library knows (UTC only).
pub open spec fn known_zone(z: Seq<char>) -> bool {
    z == "UTC"@ || z == "Etc/UTC"@ || z == "GMT"@
}

/// Why a periodic configuration is invalid, if it is.
pub open spec fn periodic_problem(p: PeriodicConfig) -> Option<Seq<char>> {
    if cron_model(p.spec@) is None {
        Some("invalid cron spec '"@ + p.spec@ + "'"@)
    } else if !known_zone(p.time_zone@) {
        Some("unknown time zone '"@ + p.time_zone@ + "'"@)
    } else {
        None
    }
}


/// The pieces the ranges cut out of `s`.
pub open spec fn cut(s: Seq<char>, rs: Seq<(usize, usize)>) -> Seq<Seq<char>> {
    rs.map_values(|r: (usize, usize)| s.subrange(r.0 as int, r.1 as int))
}

/// The ranges of `s`'s pieces when cut at every `sep`.
fn split_ranges(s: &str, sep: char) -> (r: Vec<(usize, usize)>)
    ensures
        cut(s@, r@) == split_on(s@, sep),
        forall|i: int| 0 <= i < r@.len() ==> (#[trigger] r@[i]).0 <= r@[i].1 <= s@.len(),
{
    let n = s.unicode_len();
    let mut out: Vec<(usize, usize)> = Vec::new();
    let mut start: usize = 0;
    let mut i: usize = 0;
    assert(s@.subrange(0, 0) =~= Seq::<char>::empty());
    assert(cut(s@, out@).push(s@.subrange(0, 0)) =~= seq![Seq::<char>::empty()]);
    while i < n
        invariant
            n == s@.len(),
            start <= i <= n,
            split_on(s@.subrange(0, i as int), sep) == cut(s@, out@).push(s@.subrange(start as int, i as int)),
            forall|k: int| 0 <= k < out@.len() ==> (#[trigger] out@[k]).0 <= out@[k].1 <= s@.len(),
        decreases n - i,
    {
        let c = s.get_char(i);
        let ghost pre = s@.subrange(0, i + 1);
        assert(pre.drop_last() =~= s@.subrange(0, i as int));
        assert(pre.last() == c);
        if c == sep {
            let ghost before = out@;
            out.push((start, i));
            assert(cut(s@, out@) =~= cut(s@, before).push(s@.subrange(start as int, i as int)));
            start = i + 1;
            assert(s@.subrange(start as int, i + 1) =~= Seq::<char>::empty());
        } else {
            assert(s@.subrange(start as int, i + 1) =~= s@.subrange(start as int, i as int).push(c));
        }
        i = i + 1;
    }
    assert(s@.subrange(0, n as int) =~= s@);
    let ghost before = out@;
    out.push((start, n));
    assert(cut(s@, out@) =~= cut(s@, before).push(s@.subrange(start as int, n as int)));
    out
}

/// The ranges of `s`'s words.
fn word_ranges(s: &str) -> (r: Vec<(usize, usize)>)
    ensures
        cut(s@, r@) == words(s@),
        forall|i: int| 0 <= i < r@.len() ==> (#[trigger] r@[i]).0 <= r@[i].1 <= s@.len(),
{
    let pieces = split_ranges(s, ' ');
    let mut out: Vec<(usize, usize)> = Vec::new();
    let mut k: usize = 0;
    while k < pieces.len()
        invariant
            k <= pieces@.len(),
            cut(s@, pieces@) == split_on(s@, ' '),
            forall|i: int| 0 <= i < pieces@.len() ==> (#[trigger] pieces@[i]).0 <= pieces@[i].1 <= s@.len(),
            cut(s@, out@) == non_empty(cut(s@, pieces@).take(k as int)),
            forall|i: int| 0 <= i < out@.len() ==> (#[trigger] out@[i]).0 <= out@[i].1 <= s@.len(),
        decreases pieces@.len() - k,
    {
        let p = pieces[k];
        let ghost ps = cut(s@, pieces@);
        assert(ps.take(k + 1).drop_last() =~= ps.take(k as int));
        assert(ps.take(k + 1).last() == s@.subrange(p.0 as int, p.1 as int));
        if p.0 < p.1 {
            let ghost before = out@;
            out.push(p);
            assert(cut(s@, out@) =~= cut(s@, before).push(s@.subrange(p.0 as int, p.1 as int)));
        }
        k = k + 1;
    }
    assert(cut(s@, pieces@).take(k as int) =~= cut(s@, pieces@));
    out
}

/// Position of the first `c` in `s`.
fn find_char(s: &str, c: char) -> (r: Option<usize>)
    ensures
        match r {
            Some(i) => first_at(s@, c, 0) == i && i < s@.len(),
            None => first_at(s@, c, 0) == -1,
        },
{
    let n = s.unicode_len();
    let mut i: usize = 0;
    while i < n
        invariant
            n == s@.len(),
            i <= n,
            first_at(s@, c, 0) == first_at(s@, c, i as int),
        decreases n - i,
    {
        if s.get_char(i) == c {
            return Some(i);
        }
        i = i + 1;
    }
    None
}

/// Whether `s` is a non-empty run of decimal digits.
fn is_number(s: &str) -> (r: bool)
    ensures
        r == (parse_nat(s@) is Some),
{
    let n = s.unicode_len();
    if n == 0 {
        return false;
    }
    let mut i: usize = 0;
    while i < n
        invariant
            n == s@.len(),
            i <= n,
            forall|j: int| 0 <= j < i ==> crate::constraint::is_digit(#[trigger] s@[j]),
        decreases n - i,
    {
        let c = s.get_char(i);
        if !('0' <= c && c <= '9') {
            assert(!crate::constraint::is_digit(s@[i as int]));
            return false;
        }
        i = i + 1;
    }
    assert(all_digits(s@));
    true
}

/// The range a base denotes.
fn parse_range(base: &str, lo: u64, hi: u64) -> (r: Option<(u64, u64)>)
    ensures
        match r {
            Some(p) => range_of(base@, lo as int, hi as int) == Some((p.0 as int, p.1 as int)),
            None => range_of(base@, lo as int, hi as int) is None,
        },
{
    if base.unicode_len() == 1 && base.get_char(0) == '*' {
        assert(base@ =~= seq!['*']);
        return Some((lo, hi));
    }
    assert(base@ != seq!['*']);
    match find_char(base, '-') {
        Some(d) => {
            let n = base.unicode_len();
            let first = base.substring_char(0, d);
            let last = base.substring_char(d + 1, n);
            match (parse_u64(first), parse_u64(last)) {
                (Some(a), Some(b)) => {
                    if lo <= a && a <= b && b <= hi {
                        Some((a, b))
                    } else {
                        None
                    }
                },
                _ => None,
            }
        },
        None => match parse_u64(base) {
            Some(a) => {
                if lo <= a && a <= hi {
                    Some((a, a))
                } else {
                    None
                }
            },
            None => None,
        },
    }
}

/// A remainder smaller than the divisor is the number itself.
proof fn lemma_small_mod(k: int, n: int)
    requires
        0 <= k < n,
    ensures
        k % n == k,
{
    vstd::arithmetic::div_mod::lemma_small_mod(k as nat, n as nat);
}

/// The values `0..=hi` an item allows, when it is well formed.
fn item_allows(item: &str, lo: u64, hi: u64) -> (r: Option<Vec<bool>>)
    requires
        lo <= hi < 64,
    ensures
        match r {
            Some(v) => item_bounds(item@, lo as int, hi as int) matches Some(t) && v@.len() == hi + 1 && forall|x: int|
                0 <= x <= hi ==> v@[x] == covers(t, x),
            None => item_bounds(item@, lo as int, hi as int) is None,
        },
{
    let n = item.unicode_len();
    let slash = find_char(item, '/');
    let base = match slash {
        Some(k) => item.substring_char(0, k),
        None => item,
    };
    // The step: Some(Some(n)) for a number that fits, Some(None) for a larger one.
    let step: Option<Option<u64>> = match slash {
        Some(k) => {
            let text = item.substring_char(k + 1, n);
            if is_number(text) {
                Some(parse_u64(text))
            } else {
                None
            }
        },
        None => Some(Some(1)),
    };
    let range = parse_range(base, lo, hi);
    match (range, step) {
        (Some((a, b)), Some(st)) => {
            if st == Some(0u64) {
                return None;
            }
            let ghost t = item_bounds(item@, lo as int, hi as int)->Some_0;
            let mut out: Vec<bool> = Vec::new();
            let mut x: u64 = 0;
            while x <= hi
                invariant
                    hi < 64,
                    x <= hi + 1,
                    out@.len() == x,
                    t.0 == a,
                    t.1 == b,
                    t.2 > 0,
                    a <= b,
                    match st {
                        Some(m) => t.2 == m,
                        None => t.2 > u64::MAX,
                    },
                    forall|y: int| 0 <= y < x ==> out@[y] == covers(t, y),
                decreases hi + 1 - x,
            {
                let ok = match st {
                    Some(m) => a <= x && x <= b && (x - a) % m == 0,
                    None => {
                        proof {
                            if a <= x && x <= b {
                                lemma_small_mod(x - a, t.2);
                            }
                        }
                        x == a
                    },
                };
                assert(ok == covers(t, x as int));
                out.push(ok);
                x = x + 1;
            }
            Some(out)
        },
        _ => None,
    }
}


/// The values `0..=hi` a field allows, when every item is well formed.
fn parse_field(text: &str, lo: u64, hi: u64) -> (r: Option<Vec<bool>>)
    requires
        lo <= hi < 64,
    ensures
        match r {
            Some(v) => field_ok(text@, lo as int, hi as int) && v@ == field_set(text@, lo as int, hi as int),
            None => !field_ok(text@, lo as int, hi as int),
        },
{
    let ranges = split_ranges(text, ',');
    let ghost items = split_on(text@, ',');
    let mut acc: Vec<bool> = Vec::new();
    let mut x: u64 = 0;
    while x <= hi
        invariant
            hi < 64,
            x <= hi + 1,
            acc@.len() == x,
            forall|y: int| 0 <= y < x ==> !acc@[y],
        decreases hi + 1 - x,
    {
        acc.push(false);
        x = x + 1;
    }
    let mut k: usize = 0;
    while k < ranges.len()
        invariant
            lo <= hi < 64,
            items == split_on(text@, ','),
            cut(text@, ranges@) == items,
            forall|i: int| 0 <= i < ranges@.len() ==> (#[trigger] ranges@[i]).0 <= ranges@[i].1 <= text@.len(),
            k <= ranges@.len(),
            acc@.len() == hi + 1,
            forall|j: int| 0 <= j < k ==> (#[trigger] item_bounds(items[j], lo as int, hi as int)) is Some,
            forall|y: int|
                0 <= y <= hi ==> acc@[y] == exists|j: int|
                    0 <= j < k && (#[trigger] item_bounds(items[j], lo as int, hi as int) matches Some(t) && covers(t, y)),
        decreases ranges@.len() - k,
    {
        let (s, e) = ranges[k];
        let item = text.substring_char(s, e);
        assert(item@ == items[k as int]);
        match item_allows(item, lo, hi) {
            None => {
                assert(!field_ok(text@, lo as int, hi as int)) by {
                    assert(item_bounds(items[k as int], lo as int, hi as int) is None);
                }
                return None;
            },
            Some(allowed) => {
                let ghost t = item_bounds(items[k as int], lo as int, hi as int)->Some_0;
                let ghost prev = acc@;
                let mut y: u64 = 0;
                while y <= hi
                    invariant
                        hi < 64,
                        y <= hi + 1,
                        acc@.len() == hi + 1,
                        allowed@.len() == hi + 1,
                        forall|z: int| 0 <= z <= hi ==> allowed@[z] == covers(t, z),
                        forall|z: int| 0 <= z < y ==> acc@[z] == (prev[z] || covers(t, z)),
                        forall|z: int| y <= z <= hi ==> acc@[z] == prev[z],
                    decreases hi + 1 - y,
                {
                    if allowed[y as usize] {
                        acc.set(y as usize, true);
                    }
                    y = y + 1;
                }
                assert forall|z: int| 0 <= z <= hi implies acc@[z] == exists|j: int|
                    0 <= j < k + 1 && (#[trigger] item_bounds(items[j], lo as int, hi as int) matches Some(u) && covers(
                        u,
                        z,
                    )) by {
                    if covers(t, z) {
                        assert(item_bounds(items[k as int], lo as int, hi as int) matches Some(u) && covers(u, z));
                    }
                }
            },
        }
        k = k + 1;
    }
    assert(field_ok(text@, lo as int, hi as int));
    assert(acc@ =~= field_set(text@, lo as int, hi as int));
    Some(acc)
}

/// A parsed cron schedule.
#[derive(Debug, Clone)]
pub struct CronSchedule {
    /// Allowed minutes, indexed 0..60.
    pub minutes: Vec<bool>,
    /// Allowed hours, indexed 0..24.
    pub hours: Vec<bool>,
    /// Allowed days of the month, indexed 0..32.
    pub days: Vec<bool>,
    /// Allowed months, indexed 0..13.
    pub months: Vec<bool>,
    /// Allowed days of the week, indexed 0..8.
    pub weekdays: Vec<bool>,
    /// The day-of-month field starts with `*`.
    pub days_star: bool,
    /// The day-of-week field starts with `*`.
    pub weekdays_star: bool,
}

impl View for CronSchedule {
    type V = CronModel;

    open spec fn view(&self) -> CronModel {
        CronModel {
            minutes: self.minutes@,
            hours: self.hours@,
            days: self.days@,
            months: self.months@,
            weekdays: self.weekdays@,
            days_star: self.days_star,
            weekdays_star: self.weekdays_star,
        }
    }
}

/// Parse a cron spec.
pub fn parse_schedule(spec: &str) -> (r: Option<CronSchedule>)
    ensures
        match r {
            Some(c) => cron_model(spec@) == Some(c@),
            None => cron_model(spec@) is None,
        },
{
    let ws = word_ranges(spec);
    if ws.len() != 5 {
        return None;
    }
    let ghost w = words(spec@);
    let f0 = spec.substring_char(ws[0].0, ws[0].1);
    let f1 = spec.substring_char(ws[1].0, ws[1].1);
    let f2 = spec.substring_char(ws[2].0, ws[2].1);
    let f3 = spec.substring_char(ws[3].0, ws[3].1);
    let f4 = spec.substring_char(ws[4].0, ws[4].1);
    assert(f0@ == w[0] && f1@ == w[1] && f2@ == w[2] && f3@ == w[3] && f4@ == w[4]);
    let minutes = match parse_field(f0, 0, 59) {
        Some(v) => v,
        None => {
            return None;
        },
    };
    let hours = match parse_field(f1, 0, 23) {
        Some(v) => v,
        None => {
            return None;
        },
    };
    let days = match parse_field(f2, 1, 31) {
        Some(v) => v,
        None => {
            return None;
        },
    };
    let months = match parse_field(f3, 1, 12) {
        Some(v) => v,
        None => {
            return None;
        },
    };
    let weekdays = match parse_field(f4, 0, 7) {
        Some(v) => v,
        None => {
            return None;
        },
    };
    let days_star = f2.unicode_len() > 0 && f2.get_char(0) == '*';
    let weekdays_star = f4.unicode_len() > 0 && f4.get_char(0) == '*';
    Some(CronSchedule { minutes, hours, days, months, weekdays, days_star, weekdays_star })
}

/// Whether a time zone name is one this library knows.
fn is_known_zone(z: &str) -> (r: bool)
    ensures
        r == known_zone(z@),
{
    str_eq(z, "UTC") || str_eq(z, "Etc/UTC") || str_eq(z, "GMT")
}

impl PeriodicConfig {
    /// Validate the schedule.
    ///
    /// # Errors
    ///
    /// Returns [`Error::Config`] if the cron `spec` does not parse or the
    /// time zone is unknown.
    pub fn validate(&self) -> (r: Result<()>)
        ensures
            match periodic_problem(*self) {
                None => r is Ok,
                Some(msg) => r matches Err(e) && e.is_config(msg),
            },
    {
        if parse_schedule(self.spec.as_str()).is_none() {
            return Err(Error::Config(concat3("invalid cron spec '", self.spec.as_str(), "'")));
        }
        if !is_known_zone(self.time_zone.as_str()) {
            return Err(Error::Config(concat3("unknown time zone '", self.time_zone.as_str(), "'")));
        }
        Ok(())
    }
}

/// Month and day of month of the day `doe` days into a 400-year Gregorian
/// cycle that starts on a 1 March (the civil-from-days computation).
pub open spec fn month_day(doe: int) -> (int, int) {
    let yoe = (doe - doe / 1460 + doe / 36524 - doe / 146096) / 365;
    let doy = doe - (365 * yoe + yoe / 4 - yoe / 100);
    let mp = (5 * doy + 2) / 153;
    let d = doy - (153 * mp + 2) / 5 + 1;
    let m = if mp < 10 { mp + 3 } else { mp - 9 };
    (m, d)
}

/// Position of day `day` (days since 1970-01-01) in its 400-year cycle
/// counted from 0000-03-01.
pub open spec fn day_of_era(day: int) -> int {
    (day + 719468) % 146097
}

/// Day of the week of day `day`, Sunday being 0 (1970-01-01 was a Thursday).
pub open spec fn weekday(day: int) -> int {
    (day + 4) % 7
}

/// Days of the week follow the calendar: each day is the weekday after the
/// one before (Saturday, 6, being followed by Sunday, 0); day 0, which the
/// civil-date computation makes 1 January, is a Thursday (4); so the Mondays
/// are exactly the days a whole number of weeks from day 4, and 10 September
/// 2001 (day 11575) is one.
pub proof fn law_weekday_follows_calendar(d: int)
    ensures
        0 <= weekday(d) < 7,
        weekday(d + 1) == if weekday(d) == 6 { 0 } else { weekday(d) + 1 },
        month_day(day_of_era(0)) == (1int, 1int),
        weekday(0) == 4,
        weekday(d) == 1 <==> (d - 4) % 7 == 0,
        month_day(day_of_era(11575)) == (9int, 10int),
        weekday(11575) == 1,
{
    assert(day_of_era(0) == 135080);
    assert(month_day(135080) == (1int, 1int));
    assert(day_of_era(11575) == 558);
    assert(month_day(558) == (9int, 10int));
}

/// Whether value `i` is allowed by `s`.
pub open spec fn allowed(s: Seq<bool>, i: int) -> bool {
    0 <= i < s.len() && s[i]
}

/// Whether a schedule fires on day `day`.
#[verifier::opaque]
pub open spec fn day_fires(c: CronModel, day: int) -> bool {
    let md = month_day(day_of_era(day));
    let w = weekday(day);
    let dom = allowed(c.days, md.1);
    let dow = allowed(c.weekdays, w) || (w == 0 && allowed(c.weekdays, 7));
    allowed(c.months, md.0) && if c.days_star || c.weekdays_star {
        dom && dow
    } else {
        dom || dow
    }
}

/// Whether a schedule fires at minute `m` of hour `h` of day `day`.
pub open spec fn fires_at(c: CronModel, day: int, h: int, m: int) -> bool {
    0 <= h < 24 && 0 <= m < 60 && allowed(c.hours, h) && allowed(c.minutes, m) && day_fires(c, day)
}

/// Unix time of minute `m` of hour `h` of day `day`.
pub open spec fn minute_time(day: int, h: int, m: int) -> int {
    day * 86400 + h * 3600 + m * 60
}

/// How far ahead a next firing is looked for: 400 years, after which the
/// Gregorian calendar repeats.
pub const SEARCH_SECS: i64 = 12622780800;

/// The message when no firing time is found.
pub open spec fn never_fires_msg(spec: Seq<char>) -> Seq<char> {
    "cron spec '"@ + spec + "' has no firing time ahead"@
}

/// Month and day of month of day `doe` of the cycle.
fn month_day_exec(doe: i128) -> (r: (i128, i128))
    requires
        0 <= doe < 146097,
    ensures
        r.0 == month_day(doe as int).0,
        r.1 == month_day(doe as int).1,
{
    let yoe = (doe - doe / 1460 + doe / 36524 - doe / 146096) / 365;
    let doy = doe - (365 * yoe + yoe / 4 - yoe / 100);
    let mp = (5 * doy + 2) / 153;
    let d = doy - (153 * mp + 2) / 5 + 1;
    let m = if mp < 10 { mp + 3 } else { mp - 9 };
    (m, d)
}

/// Whether `v` allows `i`.
fn allows(v: &Vec<bool>, i: i128) -> (r: bool)
    ensures
        r == allowed(v@, i as int),
{
    0 <= i && i < v.len() as i128 && v[i as usize]
}

/// Whether the schedule fires on the day at `doe` in its cycle and `wd` in
/// its week.
fn day_fires_exec(c: &CronSchedule, doe: i128, wd: i128, Ghost(day): Ghost<int>) -> (r: bool)
    requires
        0 <= doe < 146097,
        doe == day_of_era(day),
        wd == weekday(day),
    ensures
        r == day_fires(c@, day),
{
    proof {
        reveal(day_fires);
    }
    let (m, d) = month_day_exec(doe);
    let dom = allows(&c.days, d);
    let dow = allows(&c.weekdays, wd) || (wd == 0 && allows(&c.weekdays, 7));
    allows(&c.months, m) && if c.days_star || c.weekdays_star {
        dom && dow
    } else {
        dom || dow
    }
}

/// The first minute of day `day` after `after` at which the schedule fires,
/// if any (the day itself is known to fire).
fn first_in_day(sched: &CronSchedule, day: i128, after: i64) -> (r: Option<i128>)
    requires
        day_fires(sched@, day as int),
        -200_000_000_000_000 < day < 200_000_000_000_000,
    ensures
        match r {
            Some(t) => t > after && (exists|h: int, m: int|
                t == minute_time(day as int, h, m) && #[trigger] fires_at(sched@, day as int, h, m)) && forall|h: int, m: int|
                after < minute_time(day as int, h, m) < t ==> !#[trigger] fires_at(sched@, day as int, h, m),
            None => forall|h: int, m: int| after < minute_time(day as int, h, m) ==> !#[trigger] fires_at(sched@, day as int, h, m),
        },
{
    let mut h: i128 = 0;
    while h < 24
        invariant
            day_fires(sched@, day as int),
            -200_000_000_000_000 < day < 200_000_000_000_000,
            0 <= h <= 24,
            forall|hh: int, m: int| 0 <= hh < h && after < minute_time(day as int, hh, m) ==> !#[trigger] fires_at(sched@, day as int, hh, m),
        decreases 24 - h,
    {
        if allows(&sched.hours, h) {
            let mut m: i128 = 0;
            while m < 60
                invariant
                    day_fires(sched@, day as int),
                    -200_000_000_000_000 < day < 200_000_000_000_000,
                    0 <= h < 24,
                    allowed(sched@.hours, h as int),
                    0 <= m <= 60,
                    forall|hh: int, mm: int|
                        0 <= hh < h && after < minute_time(day as int, hh, mm) ==> !#[trigger] fires_at(sched@, day as int, hh, mm),
                    forall|mm: int| 0 <= mm < m && after < minute_time(day as int, h as int, mm) ==> !#[trigger] fires_at(sched@, day as int, h as int, mm),
                decreases 60 - m,
            {
                if allows(&sched.minutes, m) {
                    let t: i128 = day * 86400 + h * 3600 + m * 60;
                    if t > after as i128 {
                        assert(fires_at(sched@, day as int, h as int, m as int));
                        assert forall|hh: int, mm: int| after < minute_time(day as int, hh, mm) < t implies !#[trigger] fires_at(
                            sched@,
                            day as int,
                            hh,
                            mm,
                        ) by {
                            if fires_at(sched@, day as int, hh, mm) {
                                if hh == h {
                                    assert(mm < m);
                                } else {
                                    assert(hh < h);
                                }
                            }
                        }
                        return Some(t);
                    }
                }
                m = m + 1;
            }
        }
        h = h + 1;
    }
    None
}

/// Combining the days before `day` with what was found on `day`.
proof fn lemma_found_first(c: CronModel, after: int, day: int, t: int)
    requires
        forall|d: int, hh: int, mm: int| d < day && after < minute_time(d, hh, mm) ==> !#[trigger] fires_at(c, d, hh, mm),
        forall|h: int, m: int| after < minute_time(day, h, m) < t ==> !#[trigger] fires_at(c, day, h, m),
        exists|h: int, m: int| t == minute_time(day, h, m) && #[trigger] fires_at(c, day, h, m),
    ensures
        forall|d: int, hh: int, mm: int| after < minute_time(d, hh, mm) < t ==> !#[trigger] fires_at(c, d, hh, mm),
        exists|d: int, h: int, m: int| t == minute_time(d, h, m) && #[trigger] fires_at(c, d, h, m),
{
    let (h0, m0) = choose|h: int, m: int| t == minute_time(day, h, m) && #[trigger] fires_at(c, day, h, m);
    assert(fires_at(c, day, h0, m0));
    assert forall|d: int, hh: int, mm: int| after < minute_time(d, hh, mm) < t implies !#[trigger] fires_at(c, d, hh, mm) by {
        if fires_at(c, d, hh, mm) && d > day {
            assert(minute_time(d, hh, mm) >= (day + 1) * 86400);
        }
    }
}

/// A day with no firing after `after` extends the days known to have none.
proof fn lemma_day_done(c: CronModel, after: int, day: int)
    requires
        forall|d: int, h: int, m: int| d < day && after < minute_time(d, h, m) ==> !#[trigger] fires_at(c, d, h, m),
        !day_fires(c, day) || forall|h: int, m: int| after < minute_time(day, h, m) ==> !#[trigger] fires_at(c, day, h, m),
    ensures
        forall|d: int, h: int, m: int| d < day + 1 && after < minute_time(d, h, m) ==> !#[trigger] fires_at(c, d, h, m),
{
    assert forall|d: int, h: int, m: int| d < day + 1 && after < minute_time(d, h, m) implies !#[trigger] fires_at(c, d, h, m) by {
        if d == day && fires_at(c, d, h, m) {
            assert(day_fires(c, day));
        }
    }
}

/// The cycle position and weekday of the next day.
proof fn lemma_next_day(day: int)
    ensures
        day_of_era(day + 1) == if day_of_era(day) + 1 == 146097 { 0 } else { day_of_era(day) + 1 },
        weekday(day + 1) == if weekday(day) + 1 == 7 { 0 } else { weekday(day) + 1 },
{
}

/// The first minute after `after` at which the schedule fires, looked for
/// over the 400 years that follow; `None` when there is none.
fn search_from(sched: &CronSchedule, after_unix: i64) -> (r: Option<i128>)
    ensures
        match r {
            Some(t) => {
                &&& t > after_unix
                &&& exists|d: int, h: int, m: int| t == minute_time(d, h, m) && #[trigger] fires_at(sched@, d, h, m)
                &&& forall|d: int, h: int, m: int| after_unix < minute_time(d, h, m) < t ==> !#[trigger] fires_at(sched@, d, h, m)
            },
            None => forall|d: int, h: int, m: int|
                after_unix < minute_time(d, h, m) <= after_unix + SEARCH_SECS ==> !#[trigger] fires_at(sched@, d, h, m),
        },
{
    let ghost c = sched@;
    let ghost after = after_unix as int;
    // Shift by a whole number of 400-year cycles and weeks so the day number
    // is found by division of a non-negative value.
    let off_days: i128 = 146097 * 7 * 110_000_000;
    let a: i128 = after_unix as i128 + off_days * 86400;
    let dp: i128 = a / 86400;
    let d0: i128 = dp - off_days;
    let mut doe: i128 = (dp + 719468) % 146097;
    let mut wd: i128 = (dp + 4) % 7;
    assert(d0 * 86400 <= after && after < d0 * 86400 + 86400);
    assert(doe == day_of_era(d0 as int));
    assert(wd == weekday(d0 as int));
    let mut k: i128 = 0;
    while k <= 146097
        invariant
            c == sched@,
            after == after_unix as int,
            d0 * 86400 <= after < d0 * 86400 + 86400,
            -200_000_000_000_000 < d0 < 200_000_000_000_000,
            0 <= k <= 146098,
            0 <= doe < 146097,
            0 <= wd < 7,
            doe == day_of_era(d0 + k),
            wd == weekday(d0 + k),
            forall|d: int, h: int, m: int| d < d0 + k && after < minute_time(d, h, m) ==> !#[trigger] fires_at(c, d, h, m),
        decreases 146098 - k,
    {
        let day = d0 + k;
        if day_fires_exec(sched, doe, wd, Ghost(day as int)) {
            match first_in_day(sched, day, after_unix) {
                Some(t) => {
                    proof {
                        lemma_found_first(c, after, day as int, t as int);
                    }
                    return Some(t);
                },
                None => {},
            }
        }
        proof {
            lemma_day_done(c, after, day as int);
            lemma_next_day(day as int);
        }
        doe = if doe + 1 == 146097 { 0 } else { doe + 1 };
        wd = if wd + 1 == 7 { 0 } else { wd + 1 };
        k = k + 1;
    }
    None
}

impl PeriodicConfig {
    /// The next launch time (Unix seconds, a whole minute) strictly after
    /// `after_unix`.
    ///
    /// # Errors
    ///
    /// Returns [`Error::Config`] if the configuration is invalid, or if the
    /// schedule does not fire in the 400 years after `after_unix` at a time
    /// an `i64` can hold.
    pub fn next(&self, after_unix: i64) -> (r: Result<i64>)
        ensures
            periodic_problem(*self) matches Some(msg) ==> (r matches Err(e) && e.is_config(msg)),
            periodic_problem(*self) is None ==> {
                let c = cron_model(self.spec@)->Some_0;
                &&& r matches Ok(t) ==> {
                    &&& t > after_unix
                    &&& exists|d: int, h: int, m: int| t == minute_time(d, h, m) && #[trigger] fires_at(c, d, h, m)
                    &&& forall|d: int, h: int, m: int|
                        after_unix < minute_time(d, h, m) < t ==> !#[trigger] fires_at(c, d, h, m)
                }
                &&& r matches Err(e) ==> {
                    &&& e.is_config(never_fires_msg(self.spec@))
                    &&& forall|d: int, h: int, m: int|
                        after_unix < minute_time(d, h, m) <= after_unix + SEARCH_SECS && minute_time(d, h, m) <= i64::MAX
                            ==> !#[trigger] fires_at(c, d, h, m)
                }
            },
    {
        let sched = match parse_schedule(self.spec.as_str()) {
            Some(s) => s,
            None => {
                return Err(Error::Config(concat3("invalid cron spec '", self.spec.as_str(), "'")));
            },
        };
        if !is_known_zone(self.time_zone.as_str()) {
            return Err(Error::Config(concat3("unknown time zone '", self.time_zone.as_str(), "'")));
        }
        match search_from(&sched, after_unix) {
            Some(t) => {
                if t <= i64::MAX as i128 {
                    let found = t as i64;
                    let ghost c = cron_model(self.spec@)->Some_0;
                    assert(c == sched@);
                    assert(found as int == t as int);
                    assert(exists|d: int, h: int, m: int| found == minute_time(d, h, m) && #[trigger] fires_at(c, d, h, m));
                    assert(forall|d: int, h: int, m: int|
                        after_unix < minute_time(d, h, m) < found ==> !#[trigger] fires_at(c, d, h, m));
                    return Ok(found);
                }
            },
            None => {},
        }
        Err(Error::Config(concat3("cron spec '", self.spec.as_str(), "' has no firing time ahead")))
    }
}

} // verus!
