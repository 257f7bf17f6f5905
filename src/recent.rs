//! The list of recently opened files: at most six, most recent first, each
//! path once, each with a decoration fixed when it is first recorded.

use std::time::{Duration, SystemTime, SystemTimeError, UNIX_EPOCH};
use vstd::prelude::*;
use vstd::utf8::encode_utf8;
use crate::bundler::{cache_dir_for, cache_dir_in, home_directory};
use crate::text::{join_path, joined, push_padded, same_text, zero_padded};

verus! {

/// The most entries the list keeps.
pub const MAX_RECENT: usize = 6;

/// How many decorations there are; a decoration is below this.
pub const DECORATIONS: u8 = 6;

/// One recently opened file.
#[derive(Debug, Clone, PartialEq, Eq)]
pub struct RecentFile {
    pub path: String,
    /// Decoration shown beside the entry, in `0..6`.
    pub plant: u8,
    /// When it was last opened, as `YYYY-MM-DDTHH:MM:SSZ`.
    pub opened_at: String,
}

/// A recent entry as plain values.
pub struct RecentEntry {
    pub path: Seq<char>,
    pub plant: u8,
    pub opened_at: Seq<char>,
}

impl View for RecentFile {
    type V = RecentEntry;

    open spec fn view(&self) -> RecentEntry {
        RecentEntry { path: self.path@, plant: self.plant, opened_at: self.opened_at@ }
    }
}

/// The entries of a list as plain values.
pub open spec fn entries(v: Seq<RecentFile>) -> Seq<RecentEntry> {
    v.map_values(|e: RecentFile| e@)
}

/// The paths of a list, in order.
pub open spec fn paths_of(l: Seq<RecentEntry>) -> Seq<Seq<char>> {
    l.map_values(|e: RecentEntry| e.path)
}

/// A polynomial hash of the bytes: each step multiplies by 31 and adds the
/// next byte, modulo 2^32.
pub open spec fn path_hash(b: Seq<u8>) -> u32
    decreases b.len(),
{
    if b.len() == 0 {
        0
    } else {
        path_hash(b.drop_last()).wrapping_mul(31).wrapping_add(b.last() as u32)
    }
}

/// The decoration of a path: the hash of its UTF-8 bytes modulo 6.
pub open spec fn decoration_of(path: Seq<char>) -> u8 {
    (path_hash(encode_utf8(path)) % 6) as u8
}

/// The decoration of a path; the same path always gets the same one.
pub fn plant_index(path: &str) -> (r: u8)
    ensures
        r == decoration_of(path@),
        r < DECORATIONS,
{
    let bytes = path.as_bytes();
    let mut hash: u32 = 0;
    let mut i: usize = 0;
    while i < bytes.len()
        invariant
            bytes@ == encode_utf8(path@),
            i <= bytes@.len(),
            hash == path_hash(bytes@.take(i as int)),
        decreases bytes@.len() - i,
    {
        assert(bytes@.take(i + 1).drop_last() =~= bytes@.take(i as int));
        hash = hash.wrapping_mul(31).wrapping_add(bytes[i] as u32);
        i = i + 1;
    }
    assert(bytes@.take(bytes@.len() as int) =~= bytes@);
    (hash % 6) as u8
}

/// Position of the first entry for `path` from `i` on, or -1.
pub open spec fn position_from(l: Seq<RecentEntry>, path: Seq<char>, i: int) -> int
    decreases l.len() - i,
{
    if i < 0 || i >= l.len() {
        -1
    } else if l[i].path == path {
        i
    } else {
        position_from(l, path, i + 1)
    }
}

/// Position of the first entry for `path`, or -1.
pub open spec fn position_of(l: Seq<RecentEntry>, path: Seq<char>) -> int {
    position_from(l, path, 0)
}

/// At most `MAX_RECENT` entries of `l`, from the front.
pub open spec fn capped<T>(l: Seq<T>) -> Seq<T> {
    if l.len() > MAX_RECENT {
        l.take(MAX_RECENT as int)
    } else {
        l
    }
}

/// The list after opening `path` at time `now`: an entry already there moves
/// to the front with its decoration and a fresh time; otherwise a new entry
/// goes to the front; the list is then cut to `MAX_RECENT`.
pub open spec fn recorded(l: Seq<RecentEntry>, path: Seq<char>, now: Seq<char>) -> Seq<RecentEntry> {
    let k = position_of(l, path);
    if k >= 0 {
        capped(seq![RecentEntry { opened_at: now, ..l[k] }] + l.remove(k))
    } else {
        capped(seq![RecentEntry { path, plant: decoration_of(path), opened_at: now }] + l)
    }
}

/// A list that the store keeps: at most `MAX_RECENT` entries, no path
/// twice, every decoration in range.
pub open spec fn well_formed(l: Seq<RecentEntry>) -> bool {
    &&& l.len() <= MAX_RECENT
    &&& forall|i: int, j: int| 0 <= i < j < l.len() ==> l[i].path != l[j].path
    &&& forall|i: int| 0 <= i < l.len() ==> #[trigger] l[i].plant < DECORATIONS
}

proof fn lemma_position(l: Seq<RecentEntry>, path: Seq<char>, i: int)
    requires
        0 <= i <= l.len(),
    ensures
        -1 <= position_from(l, path, i) < l.len(),
        position_from(l, path, i) >= 0 ==> i <= position_from(l, path, i) && l[position_from(
            l,
            path,
            i,
        )].path == path,
        forall|j: int|
            i <= j < l.len() && (position_from(l, path, i) < 0 || j < position_from(l, path, i))
                ==> l[j].path != path,
    decreases l.len() - i,
{
    if i < l.len() && l[i].path != path {
        lemma_position(l, path, i + 1);
    }
}

fn find_entry(list: &Vec<RecentFile>, path: &str) -> (r: Option<usize>)
    ensures
        match r {
            Some(k) => k as int == position_of(entries(list@), path@),
            None => position_of(entries(list@), path@) == -1,
        },
{
    let ghost l0 = entries(list@);
    let mut k: usize = 0;
    while k < list.len()
        invariant
            l0 == entries(list@),
            k <= list@.len(),
            position_of(l0, path@) == position_from(l0, path@, k as int),
        decreases list@.len() - k,
    {
        if same_text(list[k].path.as_str(), path) {
            return Some(k);
        }
        k = k + 1;
    }
    None
}

/// Records that `path` was opened at `now` (see `recorded`).
pub fn record_recent_in(list: Vec<RecentFile>, path: &str, now: String) -> (r: Vec<RecentFile>)
    ensures
        entries(r@) == recorded(entries(list@), path@, now@),
{
    let ghost l0 = entries(list@);
    let mut list = list;
    let pos = find_entry(&list, path);
    proof {
        lemma_position(l0, path@, 0);
    }
    let entry = if let Some(k) = pos {
        let mut e = list.remove(k);
        e.opened_at = now;
        assert(entries(list@) =~= l0.remove(k as int));
        e
    } else {
        RecentFile { path: String::from_str(path), plant: plant_index(path), opened_at: now }
    };
    let ghost rest = entries(list@);
    list.insert(0, entry);
    assert(entries(list@) =~= seq![entry@] + rest);
    if list.len() > MAX_RECENT {
        list.truncate(MAX_RECENT);
        assert(entries(list@) =~= (seq![entry@] + rest).take(MAX_RECENT as int));
    }
    list
}

/// Recording a path keeps a well-formed list well-formed and puts that path
/// in front; a path already present keeps its decoration and the other
/// entries keep their order.
pub proof fn lemma_record_keeps_shape(l: Seq<RecentEntry>, path: Seq<char>, now: Seq<char>)
    requires
        well_formed(l),
    ensures
        well_formed(recorded(l, path, now)),
        recorded(l, path, now)[0].path == path,
        recorded(l, path, now)[0].opened_at == now,
        position_of(l, path) >= 0 ==> recorded(l, path, now)[0].plant == l[position_of(
            l,
            path,
        )].plant && recorded(l, path, now) == seq![recorded(l, path, now)[0]] + l.remove(
            position_of(l, path),
        ),
        position_of(l, path) < 0 ==> recorded(l, path, now)[0].plant == decoration_of(path)
            && recorded(l, path, now) == capped(seq![recorded(l, path, now)[0]] + l),
{
    lemma_position(l, path, 0);
    let k = position_of(l, path);
    let r = recorded(l, path, now);
    if k >= 0 {
        let rest = l.remove(k);
        let full = seq![RecentEntry { opened_at: now, ..l[k] }] + rest;
        assert(full.len() <= MAX_RECENT);
        assert(r == full);
        assert forall|i: int, j: int| 0 <= i < j < r.len() implies r[i].path != r[j].path by {
            let j0 = if j - 1 < k { j - 1 } else { j };
            assert(r[j] == l[j0]);
            if i == 0 {
                assert(l[k].path == path);
                if j0 < k {
                    assert(l[j0].path != l[k].path);
                } else {
                    assert(l[k].path != l[j0].path);
                }
            } else {
                let i0 = if i - 1 < k { i - 1 } else { i };
                assert(r[i] == l[i0]);
                assert(i0 < j0);
            }
        }
        assert forall|i: int| 0 <= i < r.len() implies #[trigger] r[i].plant < DECORATIONS by {
            if i > 0 {
                let i0 = if i - 1 < k { i - 1 } else { i };
                assert(r[i] == l[i0]);
            } else {
                assert(l[k].plant < DECORATIONS);
            }
        }
        assert(r =~= seq![r[0]] + l.remove(k));
    } else {
        let full = seq![RecentEntry { path, plant: decoration_of(path), opened_at: now }] + l;
        assert(r == capped(full));
        assert forall|i: int, j: int| 0 <= i < j < r.len() implies r[i].path != r[j].path by {
            assert(r[j] == l[j - 1]);
            if i > 0 {
                assert(r[i] == l[i - 1]);
            }
        }
        assert forall|i: int| 0 <= i < r.len() implies #[trigger] r[i].plant < DECORATIONS by {
            if i > 0 {
                assert(r[i] == l[i - 1]);
            }
        }
        assert(r =~= capped(seq![r[0]] + l));
    }
}

/// The store after recording each of `paths` in turn, starting from `l`.
pub open spec fn record_all(l: Seq<RecentEntry>, paths: Seq<Seq<char>>, now: Seq<char>) -> Seq<
    RecentEntry,
>
    decreases paths.len(),
{
    if paths.len() == 0 {
        l
    } else {
        recorded(record_all(l, paths.drop_last(), now), paths.last(), now)
    }
}

/// The last `MAX_RECENT` of `paths`, most recent first.
pub open spec fn latest_first(paths: Seq<Seq<char>>) -> Seq<Seq<char>>
    decreases paths.len(),
{
    if paths.len() == 0 {
        Seq::empty()
    } else {
        capped(seq![paths.last()] + latest_first(paths.drop_last()))
    }
}

proof fn lemma_latest_from(paths: Seq<Seq<char>>)
    ensures
        forall|i: int|
            0 <= i < latest_first(paths).len() ==> paths.contains(#[trigger] latest_first(paths)[i]),
        latest_first(paths).len() <= MAX_RECENT,
    decreases paths.len(),
{
    if paths.len() > 0 {
        let prev = paths.drop_last();
        lemma_latest_from(prev);
        let full = seq![paths.last()] + latest_first(prev);
        assert forall|i: int|
            0 <= i < latest_first(paths).len() implies paths.contains(
            #[trigger] latest_first(paths)[i],
        ) by {
            if i == 0 {
                assert(paths[paths.len() - 1] == paths.last());
            } else {
                assert(latest_first(paths)[i] == full[i]);
                assert(full[i] == latest_first(prev)[i - 1]);
                let x = latest_first(prev)[i - 1];
                assert(prev.contains(x));
                let w = choose|w: int| 0 <= w < prev.len() && prev[w] == x;
                assert(paths[w] == x);
            }
        }
    }
}

/// Recording distinct paths one after another into an empty store leaves
/// the last six of them, most recent first: older ones are evicted.
pub proof fn lemma_record_distinct(paths: Seq<Seq<char>>, now: Seq<char>)
    requires
        forall|i: int, j: int| 0 <= i < j < paths.len() ==> paths[i] != paths[j],
    ensures
        paths_of(record_all(Seq::empty(), paths, now)) == latest_first(paths),
        well_formed(record_all(Seq::empty(), paths, now)),
    decreases paths.len(),
{
    if paths.len() == 0 {
        assert(paths_of(Seq::<RecentEntry>::empty()) =~= Seq::<Seq<char>>::empty());
    } else {
        let prev = paths.drop_last();
        let p = paths.last();
        lemma_record_distinct(prev, now);
        let l = record_all(Seq::empty(), prev, now);
        lemma_latest_from(prev);
        lemma_position(l, p, 0);
        assert(position_of(l, p) < 0) by {
            let k = position_of(l, p);
            if k >= 0 {
                assert(paths_of(l)[k] == p);
                assert(prev.contains(latest_first(prev)[k]));
                let w = choose|w: int| 0 <= w < prev.len() && prev[w] == p;
                assert(paths[w] == paths[paths.len() - 1]);
            }
        }
        lemma_record_keeps_shape(l, p, now);
        let r = recorded(l, p, now);
        let full = seq![r[0]] + l;
        assert(paths_of(full) =~= seq![p] + latest_first(prev));
        if full.len() > MAX_RECENT {
            assert(paths_of(full.take(MAX_RECENT as int)) =~= (seq![p] + latest_first(prev)).take(
                MAX_RECENT as int,
            ));
        }
    }
}

/// The day number of a date, counted from 1970-01-01, for the proleptic
/// Gregorian calendar; the year is counted from March so that the leap day
/// ends it.
pub open spec fn days_from_civil(y: int, m: int, d: int) -> int {
    let yy = if m <= 2 {
        y - 1
    } else {
        y
    };
    let era = yy / 400;
    let yoe = yy - era * 400;
    let mp = if m > 2 {
        m - 3
    } else {
        m + 9
    };
    let doy = (153 * mp + 2) / 5 + d - 1;
    let doe = yoe * 365 + yoe / 4 - yoe / 100 + doy;
    era * 146097 + doe - 719468
}

/// Gregorian leap years.
pub open spec fn is_leap_year(y: int) -> bool {
    y % 4 == 0 && (y % 100 != 0 || y % 400 == 0)
}

/// Number of days in month `m` of year `y`.
pub open spec fn month_length(y: int, m: int) -> int {
    if m == 2 {
        if is_leap_year(y) {
            29
        } else {
            28
        }
    } else if m == 4 || m == 6 || m == 9 || m == 11 {
        30
    } else {
        31
    }
}

/// The date of a day number: a valid year, month and day that
/// `days_from_civil` takes back to the day number.
pub open spec fn is_date_of(days: int, ymd: (u64, u64, u64)) -> bool {
    &&& 1 <= ymd.1 <= 12
    &&& 1 <= ymd.2 <= month_length(ymd.0 as int, ymd.1 as int)
    &&& days_from_civil(ymd.0 as int, ymd.1 as int, ymd.2 as int) == days
}

proof fn lemma_year_of_era(doe: int)
    requires
        0 <= doe < 146097,
    ensures
        ({
            let yoe = (doe - doe / 1460 + doe / 36524 - doe / 146096) / 365;
            &&& 0 <= yoe < 400
            &&& 365 * yoe + yoe / 4 - yoe / 100 <= doe
            &&& doe - (365 * yoe + yoe / 4 - yoe / 100) <= 365
            &&& doe - (365 * yoe + yoe / 4 - yoe / 100) == 365 ==> (yoe + 1) % 4 == 0 && ((yoe
                + 1) % 100 != 0 || yoe == 399)
        }),
{
}

proof fn lemma_month_of_year(doy: int)
    requires
        0 <= doy <= 365,
    ensures
        ({
            let mp = (5 * doy + 2) / 153;
            &&& 0 <= mp < 12
            &&& (153 * mp + 2) / 5 <= doy
            &&& doy - (153 * mp + 2) / 5 <= 30
            &&& (mp == 1 || mp == 3 || mp == 6 || mp == 8) ==> doy - (153 * mp + 2) / 5 <= 29
            &&& mp == 11 ==> doy - (153 * mp + 2) / 5 <= 27 || (doy == 365 && doy - (153 * mp
                + 2) / 5 == 28)
        }),
{
}

proof fn lemma_leap_in_era(era: int, k: int)
    requires
        0 <= era,
        1 <= k <= 400,
    ensures
        is_leap_year(era * 400 + k) == (k % 4 == 0 && (k % 100 != 0 || k == 400)),
{
    assert(era * 400 + k == 4 * (era * 100) + k && era * 400 + k == 100 * (era * 4) + k)
        by (nonlinear_arith);
    vstd::arithmetic::div_mod::lemma_mod_multiples_vanish(era * 100, k, 4);
    vstd::arithmetic::div_mod::lemma_mod_multiples_vanish(era * 4, k, 100);
    vstd::arithmetic::div_mod::lemma_mod_multiples_vanish(era, k, 400);
    assert(era * 400 == 400 * era) by (nonlinear_arith);
}

proof fn lemma_civil_round_trip(era: int, yoe: int, doy: int, mp: int, d: int)
    requires
        0 <= era,
        0 <= yoe < 400,
        0 <= mp < 12,
        d == doy - (153 * mp + 2) / 5 + 1,
    ensures
        ({
            let m = if mp < 10 {
                mp + 3
            } else {
                mp - 9
            };
            let y = if m <= 2 {
                yoe + era * 400 + 1
            } else {
                yoe + era * 400
            };
            days_from_civil(y, m, d) == era * 146097 + (365 * yoe + yoe / 4 - yoe / 100 + doy)
                - 719468
        }),
{
    let yy = yoe + era * 400;
    assert(yy / 400 == era && yy - (yy / 400) * 400 == yoe) by {
        vstd::arithmetic::div_mod::lemma_fundamental_div_mod_converse(yy, 400, era, yoe);
    }
}

/// Converts a day number, counted from 1970-01-01, into year, month and day.
pub fn days_to_ymd(days: u64) -> (r: (u64, u64, u64))
    requires
        days <= u64::MAX - 719468,
    ensures
        is_date_of(days as int, r),
{
    let z = days + 719468;
    let era = z / 146097;
    let doe = z % 146097;
    proof {
        vstd::arithmetic::div_mod::lemma_fundamental_div_mod(z as int, 146097);
        lemma_year_of_era(doe as int);
    }
    let yoe = (doe - doe / 1460 + doe / 36524 - doe / 146096) / 365;
    assert(era * 400 <= u64::MAX - 400) by (nonlinear_arith)
        requires
            era == z / 146097,
    ;
    let y = yoe + era * 400;
    let doy = doe - (365 * yoe + yoe / 4 - yoe / 100);
    proof {
        lemma_month_of_year(doy as int);
    }
    let mp = (5 * doy + 2) / 153;
    let d = doy - (153 * mp + 2) / 5 + 1;
    let m = if mp < 10 {
        mp + 3
    } else {
        mp - 9
    };
    let y = if m <= 2 {
        y + 1
    } else {
        y
    };
    proof {
        lemma_civil_round_trip(era as int, yoe as int, doy as int, mp as int, d as int);
        lemma_leap_in_era(era as int, yoe + 1);
    }
    (y, m, d)
}

/// The timestamp text `YYYY-MM-DDTHH:MM:SSZ` for a date and a time of day.
pub open spec fn iso_text(ymd: (u64, u64, u64), h: nat, mi: nat, s: nat) -> Seq<char> {
    zero_padded(ymd.0 as nat, 4) + seq!['-'] + zero_padded(ymd.1 as nat, 2) + seq!['-']
        + zero_padded(ymd.2 as nat, 2) + seq!['T'] + zero_padded(h, 2) + seq![':'] + zero_padded(
        mi,
        2,
    ) + seq![':'] + zero_padded(s, 2) + seq!['Z']
}

/// `t` is the UTC timestamp text `YYYY-MM-DDTHH:MM:SSZ` of `secs` seconds
/// after the Unix epoch.
pub open spec fn is_timestamp_of(secs: u64, t: Seq<char>) -> bool {
    exists|ymd: (u64, u64, u64)|
        is_date_of((secs / 86400) as int, ymd) && t == #[trigger] iso_text(
            ymd,
            ((secs % 86400) / 3600) as nat,
            ((secs % 3600) / 60) as nat,
            (secs % 60) as nat,
        )
}

/// The UTC timestamp text of `secs` seconds after the Unix epoch.
pub fn iso_timestamp_at(secs: u64) -> (r: String)
    ensures
        is_timestamp_of(secs, r@),
{
    let days = secs / 86400;
    let tod = secs % 86400;
    let hours = tod / 3600;
    let minutes = (tod % 3600) / 60;
    let seconds = tod % 60;
    assert(tod % 3600 == secs % 3600 && tod % 60 == secs % 60) by (nonlinear_arith)
        requires
            tod == secs % 86400,
    ;
    let ymd = days_to_ymd(days);
    let (year, month, day) = ymd;
    let mut s = String::new();
    push_padded(&mut s, year, 4);
    s.append("-");
    push_padded(&mut s, month, 2);
    s.append("-");
    push_padded(&mut s, day, 2);
    s.append("T");
    push_padded(&mut s, hours, 2);
    s.append(":");
    push_padded(&mut s, minutes, 2);
    s.append(":");
    push_padded(&mut s, seconds, 2);
    s.append("Z");
    proof {
        reveal_strlit("-");
        reveal_strlit("T");
        reveal_strlit(":");
        reveal_strlit("Z");
        assert(s@ =~= iso_text(ymd, hours as nat, minutes as nat, seconds as nat));
    }
    s
}

#[verifier::external_type_specification]
#[verifier::external_body]
pub struct ExSystemTime(SystemTime);

#[verifier::external_type_specification]
#[verifier::external_body]
pub struct ExSystemTimeError(SystemTimeError);

/// Relies on `SystemTime::now`: the system clock's reading, which nothing
/// here can know beforehand.
#[verifier::external_body]
fn system_now() -> (r: SystemTime) {
    SystemTime::now()
}

/// Relies on `SystemTime::duration_since`: the time from the Unix epoch to
/// `t`, or an error for a reading before it. Both are opaque here.
#[verifier::external_body]
fn since_epoch(t: &SystemTime) -> (r: Result<Duration, SystemTimeError>) {
    t.duration_since(UNIX_EPOCH)
}

/// `Duration::as_secs`: the whole seconds of a duration. The duration is
/// opaque here, so nothing is stated of it.
pub assume_specification[ Duration::as_secs ](d: &Duration) -> u64;

/// Seconds since the Unix epoch by the system clock; 0 for a clock set
/// before it.
fn clock_seconds() -> u64 {
    match since_epoch(&system_now()) {
        Ok(d) => d.as_secs(),
        Err(_) => 0,
    }
}

/// The current UTC time as `YYYY-MM-DDTHH:MM:SSZ`.
pub fn iso_timestamp() -> (r: String)
    ensures
        exists|secs: u64| #[trigger] is_timestamp_of(secs, r@),
{
    let secs = clock_seconds();
    iso_timestamp_at(secs)
}

/// Records `path` as opened now (see `record_recent_in`): the entry's time
/// is the timestamp text of the clock's reading.
pub fn record_recent(list: Vec<RecentFile>, path: &str) -> (r: Vec<RecentFile>)
    ensures
        exists|secs: u64, now: Seq<char>|
            #[trigger] is_timestamp_of(secs, now) && entries(r@) == recorded(
                entries(list@),
                path@,
                now,
            ),
{
    let secs = clock_seconds();
    let now = iso_timestamp_at(secs);
    let ghost t = now@;
    let r = record_recent_in(list, path, now);
    assert(is_timestamp_of(secs, t) && entries(r@) == recorded(entries(list@), path@, t));
    r
}

/// Where the recent-files list is stored, under a cache directory.
pub fn recent_file_path_in(cache_dir: &str) -> (r: String)
    ensures
        r@ == joined(cache_dir@, "recent-files.json"@),
{
    join_path(cache_dir, "recent-files.json")
}

/// Where the recent-files list is stored, under the current user's cache
/// directory.
pub fn recent_file_path() -> (r: String)
    ensures
        exists|h: Option<Seq<char>>| r@ == joined(#[trigger] cache_dir_for(h), "recent-files.json"@),
{
    let home = home_directory();
    let h = match &home {
        Some(h) => Some(h.as_str()),
        None => None,
    };
    let cache = cache_dir_in(h);
    let r = recent_file_path_in(cache.as_str());
    proof {
        let w = match home {
            Some(x) => Some(x@),
            None => None,
        };
        assert(cache@ == cache_dir_for(w));
    }
    r
}

} // verus!
