//! Wire-line decoder.
//!
//! A raw protocol line is matched against four rules in fixed priority
//! order — function, velocity, direction, clock — and the first rule whose
//! pattern occurs anywhere in the line wins. Each rule finds its leftmost
//! occurrence, exactly as the original line-matching patterns did.

use vstd::prelude::*;
use crate::dcc::{Direction, TimeScale};
use crate::numfmt::{all_digits, digit_of, digit_val, digits_val, is_digit};

verus! {

/// A decoded protocol message: the single currency exchanged between the
/// codec, the state store and the gateway.
pub enum Update {
    Function { num: u8, is_on: bool },
    Velocity(i16),
    Direction(Direction),
    Time { timestamp: u64, scale: TimeScale },
}

/// Mathematical value of an [`Update`].
pub enum UpdateView {
    Function { num: u8, is_on: bool },
    Velocity(i16),
    Direction(Direction),
    Time { timestamp: u64, scale: Seq<char> },
}

impl View for Update {
    type V = UpdateView;

    open spec fn view(&self) -> UpdateView {
        match self {
            Update::Function { num, is_on } => UpdateView::Function {
                num: *num,
                is_on: *is_on,
            },
            Update::Velocity(v) => UpdateView::Velocity(*v),
            Update::Direction(d) => UpdateView::Direction(*d),
            Update::Time { timestamp, scale } => UpdateView::Time {
                timestamp: *timestamp,
                scale: scale@,
            },
        }
    }
}

/// Error for a line that a caller insisted on reading as one message kind.
pub struct ParseError {
    message: String,
}

impl View for ParseError {
    type V = Seq<char>;

    closed spec fn view(&self) -> Seq<char> {
        self.message@
    }
}

impl ParseError {
    pub fn new(message: String) -> (e: ParseError)
        ensures
            e@ == message@,
    {
        ParseError { message }
    }

    pub fn message(&self) -> (m: &str)
        ensures
            m@ == self@,
    {
        self.message.as_str()
    }
}

// ---------------------------------------------------------------------------
// Function rule: `F`, one of `0`/`1`, then one or two digits.
// ---------------------------------------------------------------------------

pub open spec fn fn_match_at(s: Seq<char>, i: int) -> bool {
    &&& 0 <= i
    &&& i + 3 <= s.len()
    &&& s[i] == 'F'
    &&& (s[i + 1] == '0' || s[i + 1] == '1')
    &&& is_digit(s[i + 2])
}

/// The function number at a match: two digits when a second one follows
/// (the pattern is greedy), else one.
pub open spec fn fn_num_at(s: Seq<char>, i: int) -> nat {
    if i + 3 < s.len() && is_digit(s[i + 3]) {
        digit_val(s[i + 2]) * 10 + digit_val(s[i + 3])
    } else {
        digit_val(s[i + 2])
    }
}

pub open spec fn fn_first_from(s: Seq<char>, i: int) -> Option<int>
    decreases s.len() - i,
{
    if i < 0 || i >= s.len() {
        None
    } else if fn_match_at(s, i) {
        Some(i)
    } else {
        fn_first_from(s, i + 1)
    }
}

/// Leftmost occurrence of the function pattern.
pub open spec fn fn_first(s: Seq<char>) -> Option<int> {
    fn_first_from(s, 0)
}

// ---------------------------------------------------------------------------
// Velocity rule: `V`, an optional minus sign, then one to three digits.
// ---------------------------------------------------------------------------

pub open spec fn vel_match_at(s: Seq<char>, i: int) -> bool {
    &&& 0 <= i
    &&& i < s.len()
    &&& s[i] == 'V'
    &&& ((i + 1 < s.len() && is_digit(s[i + 1])) || (i + 2 < s.len() && s[i + 1] == '-'
        && is_digit(s[i + 2])))
}

/// Length of the digit run from `start`, capped at `max` (the pattern is
/// greedy but takes at most three digits).
pub open spec fn run_len_max(s: Seq<char>, start: int, max: int) -> int
    decreases max,
{
    if max <= 0 || start < 0 || start >= s.len() || !is_digit(s[start]) {
        0
    } else {
        1 + run_len_max(s, start + 1, max - 1)
    }
}

pub open spec fn vel_val_at(s: Seq<char>, i: int) -> int {
    let neg = i + 1 < s.len() && s[i + 1] == '-';
    let ds = if neg {
        i + 2
    } else {
        i + 1
    };
    let l = run_len_max(s, ds, 3);
    let m = digits_val(s.subrange(ds, ds + l)) as int;
    if neg {
        -m
    } else {
        m
    }
}

pub open spec fn vel_first_from(s: Seq<char>, i: int) -> Option<int>
    decreases s.len() - i,
{
    if i < 0 || i >= s.len() {
        None
    } else if vel_match_at(s, i) {
        Some(i)
    } else {
        vel_first_from(s, i + 1)
    }
}

pub open spec fn vel_first(s: Seq<char>) -> Option<int> {
    vel_first_from(s, 0)
}

// ---------------------------------------------------------------------------
// Direction rule: `R0` or `R1`.
// ---------------------------------------------------------------------------

pub open spec fn dir_match_at(s: Seq<char>, i: int) -> bool {
    &&& 0 <= i
    &&& i + 2 <= s.len()
    &&& s[i] == 'R'
    &&& (s[i + 1] == '0' || s[i + 1] == '1')
}

pub open spec fn dir_at(s: Seq<char>, i: int) -> Direction {
    if s[i + 1] == '0' {
        Direction::Reverse
    } else {
        Direction::Forward
    }
}

pub open spec fn dir_first_from(s: Seq<char>, i: int) -> Option<int>
    decreases s.len() - i,
{
    if i < 0 || i >= s.len() {
        None
    } else if dir_match_at(s, i) {
        Some(i)
    } else {
        dir_first_from(s, i + 1)
    }
}

pub open spec fn dir_first(s: Seq<char>) -> Option<int> {
    dir_first_from(s, 0)
}

// ---------------------------------------------------------------------------
// Clock rule: `PFT`, digits, the `<;>` separator, digits with an optional
// fraction.
// ---------------------------------------------------------------------------

/// End of the maximal digit run starting at `i`.
pub open spec fn run_end(s: Seq<char>, i: int) -> int
    decreases s.len() - i,
{
    if 0 <= i && i < s.len() && is_digit(s[i]) {
        run_end(s, i + 1)
    } else {
        i
    }
}

pub open spec fn clock_match_at(s: Seq<char>, i: int) -> bool {
    let t0 = i + 3;
    let t1 = run_end(s, t0);
    let s0 = t1 + 3;
    let s1 = run_end(s, s0);
    &&& 0 <= i
    &&& i + 3 <= s.len()
    &&& s[i] == 'P' && s[i + 1] == 'F' && s[i + 2] == 'T'
    &&& t1 > t0
    &&& t1 + 3 <= s.len() && s[t1] == '<' && s[t1 + 1] == ';' && s[t1 + 2] == '>'
    &&& s1 > s0
}

pub open spec fn clock_time_digits(s: Seq<char>, i: int) -> Seq<char> {
    s.subrange(i + 3, run_end(s, i + 3))
}

/// Whether the scale at a clock match carries a fraction.
pub open spec fn clock_has_frac(s: Seq<char>, i: int) -> bool {
    let s0 = run_end(s, i + 3) + 3;
    let s1 = run_end(s, s0);
    s1 + 1 < s.len() && s[s1] == '.' && is_digit(s[s1 + 1])
}

/// The integer digits of the scale at a clock match.
pub open spec fn clock_scale_int(s: Seq<char>, i: int) -> Seq<char> {
    let s0 = run_end(s, i + 3) + 3;
    s.subrange(s0, run_end(s, s0))
}

/// The fraction of the scale, dot included, or empty when there is none.
pub open spec fn clock_scale_frac(s: Seq<char>, i: int) -> Seq<char> {
    let s0 = run_end(s, i + 3) + 3;
    let s1 = run_end(s, s0);
    if clock_has_frac(s, i) {
        s.subrange(s1, run_end(s, s1 + 1))
    } else {
        Seq::<char>::empty()
    }
}

/// Leading zeros stripped from a digit run (a lone `0` stays).
pub open spec fn strip_zeros(d: Seq<char>) -> Seq<char>
    decreases d.len(),
{
    if d.len() > 1 && d[0] == '0' {
        strip_zeros(d.drop_first())
    } else {
        d
    }
}

/// The scale text stored for a clock match: integer digits with leading
/// zeros stripped, then the fraction verbatim. This canonical form is a
/// valid JSON number, which the raw run (which may carry leading zeros)
/// need not be.
pub open spec fn clock_scale_text(s: Seq<char>, i: int) -> Seq<char> {
    strip_zeros(clock_scale_int(s, i)) + clock_scale_frac(s, i)
}

pub open spec fn clock_first_from(s: Seq<char>, i: int) -> Option<int>
    decreases s.len() - i,
{
    if i < 0 || i >= s.len() {
        None
    } else if clock_match_at(s, i) {
        Some(i)
    } else {
        clock_first_from(s, i + 1)
    }
}

pub open spec fn clock_first(s: Seq<char>) -> Option<int> {
    clock_first_from(s, 0)
}

// ---------------------------------------------------------------------------
// The decoder.
// ---------------------------------------------------------------------------

/// What decoding a line yields: the first rule in priority order whose
/// pattern occurs in the line, or nothing. A clock line whose timestamp
/// digits exceed the 64-bit range yields nothing.
pub open spec fn wire_decode(s: Seq<char>) -> Option<UpdateView> {
    match fn_first(s) {
        Some(i) => Some(
            UpdateView::Function { num: fn_num_at(s, i) as u8, is_on: s[i + 1] == '1' },
        ),
        None => match vel_first(s) {
            Some(i) => Some(UpdateView::Velocity(vel_val_at(s, i) as i16)),
            None => match dir_first(s) {
                Some(i) => Some(UpdateView::Direction(dir_at(s, i))),
                None => match clock_first(s) {
                    Some(i) => if digits_val(clock_time_digits(s, i)) <= u64::MAX as nat {
                        Some(
                            UpdateView::Time {
                                timestamp: digits_val(clock_time_digits(s, i)) as u64,
                                scale: clock_scale_text(s, i),
                            },
                        )
                    } else {
                        None
                    },
                    None => None,
                },
            },
        },
    }
}

/// A found leftmost occurrence lies in the line and satisfies its rule.
proof fn lemma_fn_first_props(s: Seq<char>, i: int)
    requires
        fn_first_from(s, i) is Some,
    ensures
        i <= fn_first_from(s, i)->Some_0 < s.len(),
        fn_match_at(s, fn_first_from(s, i)->Some_0),
    decreases s.len() - i,
{
    if !(i < 0 || i >= s.len()) && !fn_match_at(s, i) {
        lemma_fn_first_props(s, i + 1);
    }
}

/// A digit run stays inside the line and never moves backwards.
pub(crate) proof fn lemma_run_end_bounds(s: Seq<char>, i: int)
    requires
        0 <= i <= s.len(),
    ensures
        i <= run_end(s, i) <= s.len(),
    decreases s.len() - i,
{
    if i < s.len() && is_digit(s[i]) {
        lemma_run_end_bounds(s, i + 1);
    }
}

/// A found leftmost clock occurrence lies in the line and satisfies its
/// rule.
pub(crate) proof fn lemma_clock_first_props(s: Seq<char>, i: int)
    requires
        clock_first_from(s, i) is Some,
    ensures
        i <= clock_first_from(s, i)->Some_0 < s.len(),
        clock_match_at(s, clock_first_from(s, i)->Some_0),
    decreases s.len() - i,
{
    if !(i < 0 || i >= s.len()) && !clock_match_at(s, i) {
        lemma_clock_first_props(s, i + 1);
    }
}

/// The function rule takes priority: whenever its pattern occurs in a
/// line, the line decodes by that rule alone, whatever else would match.
pub proof fn lemma_function_rule_precedence(s: Seq<char>)
    requires
        fn_first(s) is Some,
    ensures
        wire_decode(s) matches Some(u) && u matches UpdateView::Function { num, is_on }
            && num as nat == fn_num_at(s, fn_first(s)->Some_0)
            && is_on == (s[fn_first(s)->Some_0 + 1] == '1'),
{
    lemma_fn_first_props(s, 0);
    let i = fn_first(s)->Some_0;
    assert(digit_val(s[i + 2]) <= 9);
    if i + 3 < s.len() && is_digit(s[i + 3]) {
        assert(digit_val(s[i + 3]) <= 9);
    }
    assert(fn_num_at(s, i) <= 99);
}

fn is_digit_c(c: char) -> (b: bool)
    ensures
        b == is_digit(c),
{
    '0' <= c && c <= '9'
}

fn find_function(s: &str) -> (r: Option<(u8, bool)>)
    ensures
        match (r, fn_first(s@)) {
            (Some((num, on)), Some(i)) => num as nat == fn_num_at(s@, i) && on == (s@[i + 1]
                == '1'),
            (None, None) => true,
            _ => false,
        },
{
    let n = s.unicode_len();
    let mut i: usize = 0;
    while i < n
        invariant
            n == s@.len(),
            i <= n,
            fn_first(s@) == fn_first_from(s@, i as int),
        decreases n - i,
    {
        let matched: bool = if s.get_char(i) == 'F' && n - i >= 3 {
            let c1 = s.get_char(i + 1);
            if c1 == '0' || c1 == '1' {
                is_digit_c(s.get_char(i + 2))
            } else {
                false
            }
        } else {
            false
        };
        assert(matched == fn_match_at(s@, i as int));
        if matched {
            let on = s.get_char(i + 1) == '1';
            let mut num: u8 = digit_of(s.get_char(i + 2));
            if n - i >= 4 {
                let c3 = s.get_char(i + 3);
                if is_digit_c(c3) {
                    num = num * 10 + digit_of(c3);
                }
            }
            assert(fn_first_from(s@, i as int) == Some(i as int));
            assert(num as nat == fn_num_at(s@, i as int));
            return Some((num, on));
        }
        i += 1;
    }
    assert(fn_first_from(s@, n as int) is None);
    None
}

pub(crate) fn find_velocity(s: &str) -> (r: Option<i16>)
    ensures
        match (r, vel_first(s@)) {
            (Some(v), Some(i)) => v as int == vel_val_at(s@, i),
            (None, None) => true,
            _ => false,
        },
{
    let n = s.unicode_len();
    let mut i: usize = 0;
    while i < n
        invariant
            n == s@.len(),
            i <= n,
            vel_first(s@) == vel_first_from(s@, i as int),
        decreases n - i,
    {
        let matched: bool = if s.get_char(i) == 'V' {
            if n - i >= 2 && is_digit_c(s.get_char(i + 1)) {
                true
            } else if n - i >= 3 && s.get_char(i + 1) == '-' && is_digit_c(s.get_char(i + 2)) {
                true
            } else {
                false
            }
        } else {
            false
        };
        assert(matched == vel_match_at(s@, i as int));
        if matched {
            let neg = s.get_char(i + 1) == '-';
            let ds: usize = if neg {
                i + 2
            } else {
                i + 1
            };
            let mut val: i16 = digit_of(s.get_char(ds)) as i16;
            let ghost gds = ds as int;
            let mut l: usize = 1;
            if n - ds >= 2 && is_digit_c(s.get_char(ds + 1)) {
                val = val * 10 + digit_of(s.get_char(ds + 1)) as i16;
                l = 2;
                if n - ds >= 3 && is_digit_c(s.get_char(ds + 2)) {
                    val = val * 10 + digit_of(s.get_char(ds + 2)) as i16;
                    l = 3;
                }
            }
            proof {
                reveal_with_fuel(run_len_max, 4);
                reveal_with_fuel(digits_val, 4);
                assert(run_len_max(s@, gds, 3) == l as int);
                let d = s@.subrange(gds, gds + l);
                if l == 1 {
                    assert(digits_val(d) == digit_val(s@[gds])) by {
                        assert(d.drop_last() =~= Seq::<char>::empty());
                    }
                } else if l == 2 {
                    assert(d.drop_last() =~= s@.subrange(gds, gds + 1));
                    assert(d.drop_last().drop_last() =~= Seq::<char>::empty());
                    assert(digits_val(d) == digit_val(s@[gds]) * 10 + digit_val(s@[gds + 1]));
                } else {
                    assert(d.drop_last() =~= s@.subrange(gds, gds + 2));
                    assert(d.drop_last().drop_last() =~= s@.subrange(gds, gds + 1));
                    assert(d.drop_last().drop_last().drop_last() =~= Seq::<char>::empty());
                    assert(digits_val(d) == (digit_val(s@[gds]) * 10 + digit_val(
                        s@[gds + 1],
                    )) * 10 + digit_val(s@[gds + 2]));
                }
                assert(vel_first_from(s@, i as int) == Some(i as int));
            }
            if neg {
                return Some(-val);
            } else {
                return Some(val);
            }
        }
        i += 1;
    }
    assert(vel_first_from(s@, n as int) is None);
    None
}

fn find_direction(s: &str) -> (r: Option<Direction>)
    ensures
        match (r, dir_first(s@)) {
            (Some(d), Some(i)) => d == dir_at(s@, i),
            (None, None) => true,
            _ => false,
        },
{
    let n = s.unicode_len();
    let mut i: usize = 0;
    while i < n
        invariant
            n == s@.len(),
            i <= n,
            dir_first(s@) == dir_first_from(s@, i as int),
        decreases n - i,
    {
        let matched: bool = if s.get_char(i) == 'R' && n - i >= 2 {
            let c1 = s.get_char(i + 1);
            c1 == '0' || c1 == '1'
        } else {
            false
        };
        assert(matched == dir_match_at(s@, i as int));
        if matched {
            assert(dir_first_from(s@, i as int) == Some(i as int));
            if s.get_char(i + 1) == '0' {
                return Some(Direction::Reverse);
            } else {
                return Some(Direction::Forward);
            }
        }
        i += 1;
    }
    assert(dir_first_from(s@, n as int) is None);
    None
}

/// Scans to the end of the maximal digit run starting at `start`.
pub(crate) fn digit_run_to(s: &str, n: usize, start: usize) -> (e: usize)
    requires
        n == s@.len(),
        start <= n,
    ensures
        e as int == run_end(s@, start as int),
        start <= e <= n,
{
    let mut j = start;
    while j < n && is_digit_c(s.get_char(j))
        invariant
            n == s@.len(),
            start <= j <= n,
            run_end(s@, start as int) == run_end(s@, j as int),
        decreases n - j,
    {
        j += 1;
    }
    j
}

proof fn lemma_digits_val_prefix(s: Seq<char>, k: int)
    requires
        0 <= k <= s.len(),
    ensures
        digits_val(s.take(k)) <= digits_val(s),
    decreases s.len() - k,
{
    if k == s.len() {
        assert(s.take(k) =~= s);
    } else {
        lemma_digits_val_prefix(s.drop_last(), k);
        assert(s.drop_last().take(k) =~= s.take(k));
    }
}

/// Reads the value of the digit run `s[start..end)`, or reports that it
/// exceeds the 64-bit range.
pub(crate) fn digits_to_u64(s: &str, n: usize, start: usize, end: usize) -> (r: Option<u64>)
    requires
        n == s@.len(),
        start <= end <= n,
        all_digits(s@.subrange(start as int, end as int)),
    ensures
        match r {
            Some(v) => v as nat == digits_val(s@.subrange(start as int, end as int))
                && digits_val(s@.subrange(start as int, end as int)) <= u64::MAX as nat,
            None => digits_val(s@.subrange(start as int, end as int)) > u64::MAX as nat,
        },
{
    let ghost whole = s@.subrange(start as int, end as int);
    let mut acc: u64 = 0;
    let mut j = start;
    while j < end
        invariant
            n == s@.len(),
            start <= j <= end <= n,
            whole == s@.subrange(start as int, end as int),
            all_digits(whole),
            acc as nat == digits_val(s@.subrange(start as int, j as int)),
        decreases end - j,
    {
        let c = s.get_char(j);
        assert(is_digit(c)) by {
            assert(whole[j - start] == s@[j as int]);
        }
        let d = digit_of(c);
        let ghost pre = s@.subrange(start as int, j as int);
        let ghost ext = s@.subrange(start as int, j as int + 1);
        proof {
            assert(ext.drop_last() =~= pre);
            assert(ext.last() == s@[j as int]);
        }
        if acc > (u64::MAX - d as u64) / 10 {
            proof {
                assert(digits_val(ext) == digits_val(pre) * 10 + digit_val(c));
                assert(digits_val(ext) > u64::MAX as nat);
                assert(whole.take(j as int + 1 - start) =~= ext);
                lemma_digits_val_prefix(whole, j as int + 1 - start);
            }
            return None;
        }
        acc = acc * 10 + d as u64;
        j += 1;
    }
    proof {
        assert(s@.subrange(start as int, end as int) =~= whole);
    }
    Some(acc)
}

/// Strips leading zeros from the digit run `s[start..end)`, keeping a lone
/// final zero, and returns the new start.
fn strip_zeros_from(s: &str, n: usize, start: usize, end: usize) -> (ns: usize)
    requires
        n == s@.len(),
        start < end <= n,
    ensures
        start <= ns < end,
        s@.subrange(ns as int, end as int) == strip_zeros(
            s@.subrange(start as int, end as int),
        ),
{
    let mut j = start;
    while j + 1 < end && s.get_char(j) == '0'
        invariant
            n == s@.len(),
            start <= j < end <= n,
            strip_zeros(s@.subrange(start as int, end as int)) == strip_zeros(
                s@.subrange(j as int, end as int),
            ),
        decreases end - j,
    {
        proof {
            let cur = s@.subrange(j as int, end as int);
            let nxt = s@.subrange(j as int + 1, end as int);
            assert(cur.drop_first() =~= nxt);
        }
        j += 1;
    }
    proof {
        let cur = s@.subrange(j as int, end as int);
        if cur.len() > 1 && cur[0] == '0' {
            assert(false);
        }
        assert(strip_zeros(cur) == cur);
    }
    j
}

/// Copies the characters `s[start..end)` into a fresh string.
fn copy_range(s: &str, n: usize, start: usize, end: usize) -> (r: String)
    requires
        n == s@.len(),
        start <= end <= n,
    ensures
        r@ == s@.subrange(start as int, end as int),
{
    let sub = s.substring_char(start, end);
    sub.to_owned()
}

fn find_clock(s: &str) -> (r: Option<(u64, String)>)
    ensures
        match (r, clock_first(s@)) {
            (Some((t, sc)), Some(i)) => t as nat == digits_val(clock_time_digits(s@, i))
                && digits_val(clock_time_digits(s@, i)) <= u64::MAX as nat && sc@
                == clock_scale_text(s@, i),
            (None, Some(i)) => digits_val(clock_time_digits(s@, i)) > u64::MAX as nat,
            (None, None) => true,
            _ => false,
        },
{
    let n = s.unicode_len();
    let mut i: usize = 0;
    while i < n
        invariant
            n == s@.len(),
            i <= n,
            clock_first(s@) == clock_first_from(s@, i as int),
        decreases n - i,
    {
        let mut matched = false;
        let mut t1: usize = 0;
        let mut s1: usize = 0;
        if s.get_char(i) == 'P' && n - i >= 3 && s.get_char(i + 1) == 'F' && s.get_char(i + 2)
            == 'T' {
            let te = digit_run_to(s, n, i + 3);
            if te > i + 3 && n - te >= 3 && s.get_char(te) == '<' && s.get_char(te + 1) == ';'
                && s.get_char(te + 2) == '>' {
                let se = digit_run_to(s, n, te + 3);
                if se > te + 3 {
                    matched = true;
                    t1 = te;
                    s1 = se;
                }
            }
        }
        assert(matched == clock_match_at(s@, i as int));
        if matched {
            assert(clock_first_from(s@, i as int) == Some(i as int));
            // Timestamp value.
            proof {
                assert(all_digits(s@.subrange(i + 3, t1 as int))) by {
                    assert(forall|k: int| i + 3 <= k < t1 as int ==> is_digit(#[trigger] s@[k]))
                        by {
                        lemma_run_digits(s@, i + 3, t1 as int);
                    }
                    assert(forall|k: int|
                        0 <= k < t1 - (i + 3) ==> is_digit(
                            #[trigger] s@.subrange(i + 3, t1 as int)[k],
                        ));
                }
            }
            let timestamp = match digits_to_u64(s, n, i + 3, t1) {
                Some(t) => t,
                None => {
                    return None;
                },
            };
            // Scale text: integer digits (leading zeros stripped) plus an
            // optional fraction.
            let s0 = t1 + 3;
            let ns = strip_zeros_from(s, n, s0, s1);
            let has_frac = n - s1 >= 2 && s.get_char(s1) == '.' && is_digit_c(
                s.get_char(s1 + 1),
            );
            assert(has_frac == clock_has_frac(s@, i as int));
            let scale: String;
            if has_frac {
                let fe = digit_run_to(s, n, s1 + 1);
                let mut sc = copy_range(s, n, ns, s1);
                sc.append(copy_range(s, n, s1, fe).as_str());
                proof {
                    assert(sc@ =~= clock_scale_text(s@, i as int));
                }
                scale = sc;
            } else {
                let sc = copy_range(s, n, ns, s1);
                proof {
                    assert(sc@ =~= clock_scale_text(s@, i as int));
                }
                scale = sc;
            }
            return Some((timestamp, scale));
        }
        i += 1;
    }
    assert(clock_first_from(s@, n as int) is None);
    None
}

/// All characters of a maximal digit run are digits.
pub(crate) proof fn lemma_run_digits(s: Seq<char>, start: int, end: int)
    requires
        0 <= start,
        end == run_end(s, start),
    ensures
        forall|k: int| start <= k < end ==> is_digit(#[trigger] s[k]),
    decreases s.len() - start,
{
    if 0 <= start && start < s.len() && is_digit(s[start]) {
        lemma_run_digits(s, start + 1, end);
    }
}

/// Decodes one raw protocol line into an update, or nothing when no rule
/// matches. The four rules apply in fixed priority order; each matches
/// anywhere in the line, at its leftmost occurrence.
pub fn parse(msg: &str) -> (r: Option<Update>)
    ensures
        match r {
            Some(u) => wire_decode(msg@) == Some(u@),
            None => wire_decode(msg@) is None,
        },
{
    if let Some((num, is_on)) = find_function(msg) {
        return Some(Update::Function { num, is_on });
    }
    if let Some(v) = find_velocity(msg) {
        return Some(Update::Velocity(v));
    }
    if let Some(d) = find_direction(msg) {
        return Some(Update::Direction(d));
    }
    if let Some((timestamp, scale)) = find_clock(msg) {
        return Some(Update::Time { timestamp, scale });
    }
    None
}

} // verus!
