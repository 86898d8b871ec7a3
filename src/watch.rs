//! The snapshot rules of the watch command: save dates, how often a snapshot
//! is taken, and the decisions of the watch loop.

use vstd::prelude::*;

use vstd::utf8::encode_utf8;

use crate::options::{ParseError, lower_of, lowercase, same_text};

verus! {

/// How often snapshots are taken.
#[derive(Clone, Copy, Debug, PartialEq, Eq)]
pub enum SnapshotFrequency {
    /// On any date change.
    Daily,
    /// When the month changes.
    Monthly,
    /// When the quarter of the year changes.
    Quarterly,
    /// When the year changes.
    Yearly,
    /// When the decade changes.
    Decade,
}

pub open spec fn frequency_named(l: Seq<char>) -> Option<SnapshotFrequency> {
    if l == "daily"@ || l == "day"@ {
        Some(SnapshotFrequency::Daily)
    } else if l == "monthly"@ || l == "month"@ {
        Some(SnapshotFrequency::Monthly)
    } else if l == "quarterly"@ || l == "quarter"@ {
        Some(SnapshotFrequency::Quarterly)
    } else if l == "year"@ || l == "yearly"@ {
        Some(SnapshotFrequency::Yearly)
    } else if l == "decade"@ {
        Some(SnapshotFrequency::Decade)
    } else {
        None
    }
}

impl SnapshotFrequency {
    /// A frequency by name, in any case.
    pub fn from_str(s: &str) -> (r: Result<SnapshotFrequency, ParseError>)
        ensures
            r == match frequency_named(lower_of(s@)) {
                Some(f) => Ok(f),
                None => Err(ParseError::Frequency),
            },
    {
        let l = lowercase(s);
        if same_text(&l, "daily") || same_text(&l, "day") {
            Ok(SnapshotFrequency::Daily)
        } else if same_text(&l, "monthly") || same_text(&l, "month") {
            Ok(SnapshotFrequency::Monthly)
        } else if same_text(&l, "quarterly") || same_text(&l, "quarter") {
            Ok(SnapshotFrequency::Quarterly)
        } else if same_text(&l, "year") || same_text(&l, "yearly") {
            Ok(SnapshotFrequency::Yearly)
        } else if same_text(&l, "decade") {
            Ok(SnapshotFrequency::Decade)
        } else {
            Err(ParseError::Frequency)
        }
    }
}

/// The games whose saves can be watched.
#[derive(Clone, Copy, Debug, PartialEq, Eq)]
pub enum GameType {
    Eu4,
    Eu5,
    Ck3,
    Imperator,
    Vic3,
    Hoi4,
}

pub open spec fn game_named(l: Seq<char>) -> Option<GameType> {
    if l == "eu4"@ {
        Some(GameType::Eu4)
    } else if l == "eu5"@ {
        Some(GameType::Eu5)
    } else if l == "ck3"@ {
        Some(GameType::Ck3)
    } else if l == "rome"@ {
        Some(GameType::Imperator)
    } else if l == "hoi4"@ {
        Some(GameType::Hoi4)
    } else if l == "v3"@ {
        Some(GameType::Vic3)
    } else {
        None
    }
}

impl GameType {
    /// A game by its save extension, in any case.
    pub fn from_str(s: &str) -> (r: Result<GameType, ParseError>)
        ensures
            r == match game_named(lower_of(s@)) {
                Some(g) => Ok(g),
                None => Err(ParseError::GameType),
            },
    {
        let l = lowercase(s);
        if same_text(&l, "eu4") {
            Ok(GameType::Eu4)
        } else if same_text(&l, "eu5") {
            Ok(GameType::Eu5)
        } else if same_text(&l, "ck3") {
            Ok(GameType::Ck3)
        } else if same_text(&l, "rome") {
            Ok(GameType::Imperator)
        } else if same_text(&l, "hoi4") {
            Ok(GameType::Hoi4)
        } else if same_text(&l, "v3") {
            Ok(GameType::Vic3)
        } else {
            Err(ParseError::GameType)
        }
    }

    /// Yearly for most games, quarterly for Victoria 3, monthly for Hearts of Iron IV.
    pub fn default_frequency(&self) -> (r: SnapshotFrequency)
        ensures
            r == match *self {
                GameType::Vic3 => SnapshotFrequency::Quarterly,
                GameType::Hoi4 => SnapshotFrequency::Monthly,
                _ => SnapshotFrequency::Yearly,
            },
    {
        match self {
            GameType::Eu4 => SnapshotFrequency::Yearly,
            GameType::Eu5 => SnapshotFrequency::Yearly,
            GameType::Ck3 => SnapshotFrequency::Yearly,
            GameType::Imperator => SnapshotFrequency::Yearly,
            GameType::Vic3 => SnapshotFrequency::Quarterly,
            GameType::Hoi4 => SnapshotFrequency::Monthly,
        }
    }
}

/// Why the game of a watched file could not be told.
#[derive(Clone, Copy, Debug, PartialEq, Eq)]
pub enum GameTypeError {
    /// The format option names no known game.
    Format(ParseError),
    /// There is no format option and the file has no extension.
    NoExtension,
    /// There is no format option and the extension names no known game.
    UnknownExtension,
}

/// The game of a watched file: the format option if given, else the file's
/// extension.
pub fn determine_game_type(format: Option<&str>, extension: Option<&str>) -> (r: Result<
    GameType,
    GameTypeError,
>)
    ensures
        r == match format {
            Some(f) => match game_named(lower_of(f@)) {
                Some(g) => Ok(g),
                None => Err(GameTypeError::Format(ParseError::GameType)),
            },
            None => match extension {
                None => Err(GameTypeError::NoExtension),
                Some(e) => match game_named(lower_of(e@)) {
                    Some(g) => Ok(g),
                    None => Err(GameTypeError::UnknownExtension),
                },
            },
        },
{
    match format {
        Some(f) => match GameType::from_str(f) {
            Ok(g) => Ok(g),
            Err(e) => Err(GameTypeError::Format(e)),
        },
        None => match extension {
            None => Err(GameTypeError::NoExtension),
            Some(e) => match GameType::from_str(e) {
                Ok(g) => Ok(g),
                Err(_) => Err(GameTypeError::UnknownExtension),
            },
        },
    }
}

/// A date of a save.
#[derive(Clone, Copy, Debug, PartialEq, Eq, PartialOrd, Ord, Hash)]
pub struct GameDate {
    pub year: i16,
    pub month: u8,
    pub day: u8,
}

/// Division that rounds toward zero, as Rust's `/` on integers does.
pub open spec fn div_toward_zero(a: int, b: int) -> int {
    if a >= 0 {
        a / b
    } else {
        -((-a) / b)
    }
}

pub open spec fn spec_decade(year: i16) -> int {
    div_toward_zero(year as int, 10) * 10
}

pub open spec fn spec_quarter(month: u8) -> int {
    (month - 1) / 3 + 1
}

/// Whether `d` is earlier than `e`, year first.
pub open spec fn date_before(d: GameDate, e: GameDate) -> bool {
    d.year < e.year || (d.year == e.year && (d.month < e.month || (d.month == e.month && d.day
        < e.day)))
}

pub open spec fn digit_char(d: int) -> char {
    if d == 0 {
        '0'
    } else if d == 1 {
        '1'
    } else if d == 2 {
        '2'
    } else if d == 3 {
        '3'
    } else if d == 4 {
        '4'
    } else if d == 5 {
        '5'
    } else if d == 6 {
        '6'
    } else if d == 7 {
        '7'
    } else if d == 8 {
        '8'
    } else {
        '9'
    }
}

/// The decimal digits of `n`, without leading zeros.
pub open spec fn decimal_text(n: nat) -> Seq<char>
    decreases n,
{
    if n < 10 {
        seq![digit_char(n as int)]
    } else {
        decimal_text(n / 10).push(digit_char((n % 10) as int))
    }
}

/// At least two digits, a leading zero added where there is one.
pub open spec fn two_digits(n: nat) -> Seq<char> {
    if n < 10 {
        seq!['0'].add(decimal_text(n))
    } else {
        decimal_text(n)
    }
}

pub open spec fn signed_text(y: int) -> Seq<char> {
    if y < 0 {
        seq!['-'].add(decimal_text((-y) as nat))
    } else {
        decimal_text(y as nat)
    }
}

/// `year-MM-DD`: the year in decimal, month and day with at least two digits.
pub open spec fn date_text(year: int, month: nat, day: nat) -> Seq<char> {
    signed_text(year) + seq!['-'] + two_digits(month) + seq!['-'] + two_digits(day)
}

impl GameDate {
    /// The year with its last digit set to zero.
    pub fn decade(&self) -> (r: i16)
        ensures
            r == spec_decade(self.year),
    {
        let y = self.year as i32;
        let d = if y >= 0 {
            (y / 10) * 10
        } else {
            -(((-y) / 10) * 10)
        };
        d as i16
    }

    /// 1 to 4 for months 1 to 12.
    pub fn quarter(&self) -> (r: u8)
        requires
            self.month >= 1,
        ensures
            r == spec_quarter(self.month),
    {
        (self.month - 1) / 3 + 1
    }

    /// Whether a save of this date gets a snapshot, after the last one at
    /// `last_snapshot`.
    pub fn should_snapshot(&self, last_snapshot: Option<&GameDate>, frequency: SnapshotFrequency) -> (r:
        bool)
        requires
            frequency == SnapshotFrequency::Quarterly ==> self.month >= 1 && (last_snapshot is Some
                ==> last_snapshot->0.month >= 1),
        ensures
            r == match last_snapshot {
                None => true,
                Some(last) => match frequency {
                    SnapshotFrequency::Daily => true,
                    SnapshotFrequency::Monthly => self.year != last.year || self.month != last.month,
                    SnapshotFrequency::Quarterly => self.year != last.year || spec_quarter(
                        self.month,
                    ) != spec_quarter(last.month),
                    SnapshotFrequency::Yearly => self.year != last.year,
                    SnapshotFrequency::Decade => spec_decade(self.year) != spec_decade(last.year),
                },
            },
    {
        match last_snapshot {
            None => true,
            Some(last) => match frequency {
                SnapshotFrequency::Daily => true,
                SnapshotFrequency::Monthly => self.year != last.year || self.month != last.month,
                SnapshotFrequency::Quarterly => self.year != last.year || self.quarter()
                    != last.quarter(),
                SnapshotFrequency::Yearly => self.year != last.year,
                SnapshotFrequency::Decade => self.decade() != last.decade(),
            },
        }
    }

    /// `year-MM-DD`, month and day with at least two digits.
    pub fn to_text(&self) -> (r: String)
        ensures
            r@ == date_text(self.year as int, self.month as nat, self.day as nat),
    {
        let mut s = String::new();
        if self.year < 0 {
            s.append(dash());
            push_decimal(&mut s, (-(self.year as i32)) as u32);
        } else {
            push_decimal(&mut s, self.year as u32);
        }
        s.append(dash());
        push_two_digits(&mut s, self.month as u32);
        s.append(dash());
        push_two_digits(&mut s, self.day as u32);
        proof {
            assert(s@ =~= date_text(self.year as int, self.month as nat, self.day as nat));
        }
        s
    }
}

fn dash() -> (r: &'static str)
    ensures
        r@ == seq!['-'],
{
    proof {
        reveal_strlit("-");
    }
    "-"
}

fn digit_text(d: u32) -> (r: &'static str)
    requires
        d < 10,
    ensures
        r@ == seq![digit_char(d as int)],
{
    proof {
        reveal_strlit("0");
        reveal_strlit("1");
        reveal_strlit("2");
        reveal_strlit("3");
        reveal_strlit("4");
        reveal_strlit("5");
        reveal_strlit("6");
        reveal_strlit("7");
        reveal_strlit("8");
        reveal_strlit("9");
    }
    if d == 0 {
        "0"
    } else if d == 1 {
        "1"
    } else if d == 2 {
        "2"
    } else if d == 3 {
        "3"
    } else if d == 4 {
        "4"
    } else if d == 5 {
        "5"
    } else if d == 6 {
        "6"
    } else if d == 7 {
        "7"
    } else if d == 8 {
        "8"
    } else {
        "9"
    }
}

fn push_decimal(s: &mut String, n: u32)
    ensures
        final(s)@ == old(s)@ + decimal_text(n as nat),
    decreases n,
{
    if n >= 10 {
        push_decimal(s, n / 10);
    }
    s.append(digit_text(n % 10));
    proof {
        if n >= 10 {
            assert(final(s)@ =~= old(s)@ + decimal_text(n as nat));
        } else {
            assert(final(s)@ =~= old(s)@ + decimal_text(n as nat));
        }
    }
}

fn push_two_digits(s: &mut String, n: u32)
    ensures
        final(s)@ == old(s)@ + two_digits(n as nat),
{
    if n < 10 {
        proof {
            reveal_strlit("0");
        }
        s.append("0");
    }
    push_decimal(s, n);
    proof {
        assert(final(s)@ =~= old(s)@ + two_digits(n as nat));
    }
}

/// The latest of the dates, or `None` when there are none.
pub fn find_latest_snapshot(dates: &Vec<GameDate>) -> (r: Option<GameDate>)
    ensures
        r is None <==> dates@.len() == 0,
        r is Some ==> dates@.contains(r->0),
        r is Some ==> forall|i: int| 0 <= i < dates@.len() ==> !date_before(r->0, #[trigger] dates@[i]),
{
    if dates.len() == 0 {
        return None;
    }
    let mut best = dates[0];
    let mut k: usize = 1;
    assert(dates@.subrange(0, 1)[0] == best);
    while k < dates.len()
        invariant
            1 <= k <= dates@.len(),
            dates@.subrange(0, k as int).contains(best),
            forall|i: int| 0 <= i < k ==> !date_before(best, #[trigger] dates@[i]),
        decreases dates@.len() - k,
    {
        let d = dates[k];
        if d.year > best.year || (d.year == best.year && (d.month > best.month || (d.month == best.month && d.day > best.day))) {
            best = d;
        }
        assert(dates@.subrange(0, k + 1).contains(best)) by {
            if best == d {
                assert(dates@.subrange(0, k + 1)[k as int] == d);
            } else {
                let j = choose|j: int| 0 <= j < k && dates@.subrange(0, k as int)[j] == best;
                assert(dates@.subrange(0, k + 1)[j] == best);
            }
        }
        k += 1;
    }
    assert(dates@.subrange(0, dates@.len() as int) =~= dates@);
    Some(best)
}

/// The decisions of the watch loop: what the watcher's events lead to.
#[derive(Clone, Copy, Debug)]
pub struct WatchState {
    /// The date of the last snapshot taken.
    pub last_snapshot: Option<GameDate>,
    /// The next modification is the loop's own copy, not the game's.
    pub ignore_next: bool,
    /// A modification is waiting for the watcher to go quiet.
    pub pending: bool,
}

impl WatchState {
    pub fn new(last_snapshot: Option<GameDate>) -> (r: WatchState)
        ensures
            r.last_snapshot == last_snapshot,
            !r.ignore_next,
            !r.pending,
    {
        WatchState { last_snapshot, ignore_next: false, pending: false }
    }

    /// The watched file was modified.
    pub fn on_modified(&mut self)
        ensures
            final(self).last_snapshot == old(self).last_snapshot,
            old(self).ignore_next ==> !final(self).ignore_next && final(self).pending == old(
                self,
            ).pending,
            !old(self).ignore_next ==> !final(self).ignore_next && final(self).pending,
    {
        if self.ignore_next {
            self.ignore_next = false;
        } else {
            self.pending = true;
        }
    }

    /// The watcher stayed quiet for a while: whether the save is read now.
    pub fn on_quiet(&mut self) -> (r: bool)
        ensures
            r == old(self).pending,
            !final(self).pending,
            final(self).last_snapshot == old(self).last_snapshot,
            final(self).ignore_next == old(self).ignore_next,
    {
        let r = self.pending;
        self.pending = false;
        r
    }

    /// A snapshot of the save dated `date` was written.
    pub fn on_copied(&mut self, date: GameDate)
        ensures
            final(self).last_snapshot == Some(date),
            final(self).ignore_next,
            final(self).pending == old(self).pending,
    {
        self.ignore_next = true;
        self.last_snapshot = Some(date);
    }
}

/// The value of the decimal digits `s[lo..hi]`.
pub open spec fn digits_value(s: Seq<u8>, lo: int, hi: int) -> int
    decreases hi - lo,
{
    if hi <= lo {
        0
    } else {
        digits_value(s, lo, hi - 1) * 10 + (s[hi - 1] - 48)
    }
}

pub open spec fn all_digits(s: Seq<u8>, lo: int, hi: int) -> bool {
    forall|q: int| lo <= q < hi ==> 48 <= #[trigger] s[q] <= 57
}

/// What `str::parse` reads in `s[lo..hi]`, a part without `-`, as an integer
/// no greater than `max`: an optional `+`, then one or more digits.
pub open spec fn parsed_number(s: Seq<u8>, lo: int, hi: int, max: int) -> Option<int> {
    let start = if lo < hi && s[lo] == 43 {
        lo + 1
    } else {
        lo
    };
    if start < hi && all_digits(s, start, hi) && digits_value(s, start, hi) <= max {
        Some(digits_value(s, start, hi))
    } else {
        None
    }
}

/// The first `-` at or after `i`, or the end.
pub open spec fn next_dash(s: Seq<u8>, i: int) -> int
    decreases s.len() - i,
{
    if i < 0 || i >= s.len() {
        s.len() as int
    } else if s[i] == 45 {
        i
    } else {
        next_dash(s, i + 1)
    }
}

/// The date in a snapshot's file stem `{base}_{year}-{month}-{day}`: the
/// first three `-`-separated parts after the `_`, anything after them ignored.
pub open spec fn snapshot_date(base: Seq<u8>, name: Seq<u8>) -> Option<GameDate> {
    let r = base.len() as int + 1;
    let d1 = next_dash(name, r);
    let d2 = next_dash(name, d1 + 1);
    let d3 = next_dash(name, d2 + 1);
    if !(name.len() >= r && name.take(base.len() as int) == base && name[r - 1] == 95) {
        None
    } else if d1 >= name.len() || d2 >= name.len() {
        None
    } else {
        match (
            parsed_number(name, r, d1, 32767),
            parsed_number(name, d1 + 1, d2, 255),
            parsed_number(name, d2 + 1, d3, 255),
        ) {
            (Some(y), Some(m), Some(d)) => Some(
                GameDate { year: y as i16, month: m as u8, day: d as u8 },
            ),
            _ => None,
        }
    }
}

proof fn lemma_digits_nonneg(s: Seq<u8>, lo: int, hi: int)
    requires
        all_digits(s, lo, hi),
    ensures
        digits_value(s, lo, hi) >= 0,
    decreases hi - lo,
{
    if hi > lo {
        lemma_digits_nonneg(s, lo, hi - 1);
    }
}

fn dash_from(s: &[u8], i: usize) -> (r: usize)
    requires
        i <= s@.len(),
    ensures
        r as int == next_dash(s@, i as int),
        i <= r <= s@.len(),
{
    let mut j = i;
    while j < s.len() && s[j] != 45
        invariant
            i <= j <= s@.len(),
            next_dash(s@, i as int) == next_dash(s@, j as int),
        decreases s@.len() - j,
    {
        j += 1;
    }
    j
}

fn number_in(s: &[u8], lo: usize, hi: usize, max: u64) -> (r: Option<u64>)
    requires
        lo <= hi <= s@.len(),
        max <= 65535,
    ensures
        r is Some ==> parsed_number(s@, lo as int, hi as int, max as int) == Some(r->0 as int),
        r is None ==> parsed_number(s@, lo as int, hi as int, max as int) is None,
{
    let start = if lo < hi && s[lo] == 43 {
        lo + 1
    } else {
        lo
    };
    if start >= hi {
        return None;
    }
    let mut v: u64 = 0;
    let mut big = false;
    let mut q = start;
    while q < hi
        invariant
            start <= q <= hi <= s@.len(),
            lo <= hi,
            start as int == (if lo < hi && s@[lo as int] == 43 {
                lo + 1
            } else {
                lo as int
            }),
            max <= 65535,
            all_digits(s@, start as int, q as int),
            !big ==> v == digits_value(s@, start as int, q as int) && v <= max,
            big ==> digits_value(s@, start as int, q as int) > max,
        decreases hi - q,
    {
        let c = s[q];
        if c < 48 || c > 57 {
            assert(!(48 <= s@[q as int] <= 57));
            assert(!all_digits(s@, start as int, hi as int));
            return None;
        }
        proof {
            lemma_digits_nonneg(s@, start as int, q as int);
        }
        if !big {
            let w = v * 10 + (c - 48) as u64;
            if w > max {
                big = true;
            } else {
                v = w;
            }
        } else {
            assert(digits_value(s@, start as int, q + 1) >= digits_value(s@, start as int, q as int))
                by (nonlinear_arith)
                requires
                    digits_value(s@, start as int, q + 1) == digits_value(s@, start as int, q as int)
                        * 10 + (c - 48),
                    digits_value(s@, start as int, q as int) >= 0,
                    c >= 48,
            ;
        }
        q += 1;
    }
    if big {
        None
    } else {
        Some(v)
    }
}

/// The date in a snapshot's file stem, if it is `{base}_{year}-{month}-{day}`.
pub fn parse_snapshot_name(base: &str, name: &str) -> (r: Option<GameDate>)
    ensures
        r == snapshot_date(encode_utf8(base@), encode_utf8(name@)),
{
    let b = base.as_bytes();
    let s = name.as_bytes();
    if b.len() >= s.len() {
        return None;
    }
    let r = b.len() + 1;
    if !(s.len() >= r && s[r - 1] == 95 && crate::expr::same_bytes(s, 0, b.len(), b, 0, b.len())) {
        proof {
            assert(b@.subrange(0, b@.len() as int) =~= b@);
        }
        return None;
    }
    proof {
        assert(b@.subrange(0, b@.len() as int) =~= b@);
        assert(s@.take(b@.len() as int) =~= s@.subrange(0, b@.len() as int));
    }
    let d1 = dash_from(s, r);
    if d1 >= s.len() {
        return None;
    }
    let d2 = dash_from(s, d1 + 1);
    if d2 >= s.len() {
        return None;
    }
    let d3 = dash_from(s, d2 + 1);
    match (number_in(s, r, d1, 32767), number_in(s, d1 + 1, d2, 255), number_in(s, d2 + 1, d3, 255)) {
        (Some(y), Some(m), Some(d)) => Some(GameDate { year: y as i16, month: m as u8, day: d as u8 }),
        _ => None,
    }
}

} // verus!
