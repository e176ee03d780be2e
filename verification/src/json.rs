//! JSON codec for the gateway protocol: an update or a throttle snapshot
//! rendered as a JSON document, and a JSON document read back as an
//! update.
//!
//! The reader accepts the documents this schema produces — the four
//! single-key objects — with arbitrary whitespace between tokens and the
//! two-field objects in either field order. Numbers follow the JSON
//! grammar (no leading zeros); exponent forms are not accepted.

use vstd::prelude::*;
use crate::dcc::{Direction, Throttle};
use crate::numfmt::{dec_digits, digit_char, digit_val, digits_val, int_text, is_digit};
use crate::parse::{digit_run_to, digits_to_u64, lemma_run_digits, run_end, Update, UpdateView};

verus! {

// ---------------------------------------------------------------------------
// Rendering.
// ---------------------------------------------------------------------------

pub open spec fn bool_text(b: bool) -> Seq<char> {
    if b {
        "true"@
    } else {
        "false"@
    }
}

/// The serialized name of a direction.
pub open spec fn direction_name(d: Direction) -> Seq<char> {
    match d {
        Direction::Forward => "Forward"@,
        Direction::Reverse => "Reverse"@,
    }
}

/// The JSON document of one update. A `Time` update's scale text is
/// embedded verbatim as the number.
pub open spec fn json_of_update(u: UpdateView) -> Seq<char> {
    match u {
        UpdateView::Function { num, is_on } => "{\"Function\":{\"num\":"@ + dec_digits(num as nat)
            + ",\"is_on\":"@ + bool_text(is_on) + "}}"@,
        UpdateView::Velocity(v) => "{\"Velocity\":"@ + int_text(v as int) + "}"@,
        UpdateView::Direction(d) => "{\"Direction\":\""@ + direction_name(d) + "\"}"@,
        UpdateView::Time { timestamp, scale } => "{\"Time\":{\"timestamp\":"@ + dec_digits(
            timestamp as nat,
        ) + ",\"scale\":"@ + scale + "}}"@,
    }
}

fn direction_name_x(d: &Direction) -> (r: &'static str)
    ensures
        r@ == direction_name(*d),
{
    match d {
        Direction::Forward => "Forward",
        Direction::Reverse => "Reverse",
    }
}

/// Serializes one update as its JSON document.
pub fn update_to_json(u: &Update) -> (r: String)
    ensures
        r@ == json_of_update(u@),
{
    match u {
        Update::Function { num, is_on } => {
            let mut s = String::from_str("{\"Function\":{\"num\":");
            s.append(crate::numfmt::u8_text(*num).as_str());
            s.append(",\"is_on\":");
            s.append(if *is_on {
                "true"
            } else {
                "false"
            });
            s.append("}}");
            proof {
                assert(s@ =~= json_of_update(u@));
            }
            s
        },
        Update::Velocity(v) => {
            let mut s = String::from_str("{\"Velocity\":");
            s.append(crate::numfmt::i16_text(*v).as_str());
            s.append("}");
            proof {
                assert(s@ =~= json_of_update(u@));
            }
            s
        },
        Update::Direction(d) => {
            let mut s = String::from_str("{\"Direction\":\"");
            s.append(direction_name_x(d));
            s.append("\"}");
            proof {
                assert(s@ =~= json_of_update(u@));
            }
            s
        },
        Update::Time { timestamp, scale } => {
            let mut s = String::from_str("{\"Time\":{\"timestamp\":");
            s.append(crate::numfmt::u64_text(*timestamp).as_str());
            s.append(",\"scale\":");
            s.append(scale.as_str());
            s.append("}}");
            proof {
                assert(s@ =~= json_of_update(u@));
            }
            s
        },
    }
}

/// The comma-joined decimal list of the active function numbers.
pub open spec fn json_u8_list(fs: Seq<u8>) -> Seq<char>
    decreases fs.len(),
{
    if fs.len() == 0 {
        Seq::<char>::empty()
    } else if fs.len() == 1 {
        dec_digits(fs[0] as nat)
    } else {
        json_u8_list(fs.drop_last()) + ","@ + dec_digits(fs.last() as nat)
    }
}

/// The JSON document of one throttle snapshot. The address is embedded
/// verbatim, so the document is well-formed JSON exactly when the address
/// needs no escaping (the store only holds such addresses).
pub open spec fn json_of_throttle(t: crate::dcc::ThrottleView) -> Seq<char> {
    "{\"address\":\""@ + t.address + "\",\"velocity\":{\"value\":"@ + int_text(t.velocity)
        + "},\"direction\":\""@ + direction_name(t.direction) + "\",\"functions\":["@
        + json_u8_list(t.functions) + "]}"@
}

/// Serializes one throttle snapshot as its JSON document.
pub fn throttle_to_json(t: &Throttle) -> (r: String)
    ensures
        r@ == json_of_throttle(t@),
{
    let mut s = String::from_str("{\"address\":\"");
    s.append(t.address());
    s.append("\",\"velocity\":{\"value\":");
    s.append(crate::numfmt::i16_text(t.get_vel()).as_str());
    s.append("},\"direction\":\"");
    s.append(direction_name_x(t.get_dir()));
    s.append("\",\"functions\":[");
    let fs = t.function_list();
    let m = fs.len();
    let mut list = String::new();
    let mut k: usize = 0;
    while k < m
        invariant
            m == fs@.len(),
            k <= m,
            list@ == json_u8_list(fs@.take(k as int)),
        decreases m - k,
    {
        if k > 0 {
            list.append(",");
        }
        list.append(crate::numfmt::u8_text(fs[k]).as_str());
        proof {
            let pre = fs@.take(k as int);
            let nxt = fs@.take(k as int + 1);
            assert(nxt.drop_last() =~= pre);
            assert(nxt.last() == fs@[k as int]);
            if k == 0 {
                assert(list@ =~= json_u8_list(nxt));
            } else {
                assert(list@ =~= json_u8_list(nxt));
            }
        }
        k += 1;
    }
    proof {
        assert(fs@.take(m as int) =~= fs@);
    }
    s.append(list.as_str());
    s.append("]}");
    proof {
        assert(s@ =~= json_of_throttle(t@));
    }
    s
}

// ---------------------------------------------------------------------------
// Reading: the accepted grammar.
// ---------------------------------------------------------------------------

/// JSON insignificant whitespace.
pub open spec fn jws(c: char) -> bool {
    c == ' ' || c == '\t' || c == '\n' || c == '\r'
}

pub open spec fn skip_ws(s: Seq<char>, i: int) -> int
    decreases s.len() - i,
{
    if 0 <= i && i < s.len() && jws(s[i]) {
        skip_ws(s, i + 1)
    } else {
        i
    }
}

pub open spec fn at_char(s: Seq<char>, i: int, c: char) -> bool {
    0 <= i < s.len() && s[i] == c
}

pub open spec fn at_lit(s: Seq<char>, i: int, lit: Seq<char>) -> bool {
    0 <= i && i + lit.len() <= s.len() && s.subrange(i, i + lit.len()) == lit
}

/// A JSON natural-number token: a digit run, no leading zero.
pub open spec fn json_nat_ok(s: Seq<char>, i: int) -> bool {
    run_end(s, i) > i && (run_end(s, i) == i + 1 || s[i] != '0')
}

pub open spec fn json_nat_val(s: Seq<char>, i: int) -> nat {
    digits_val(s.subrange(i, run_end(s, i)))
}

pub open spec fn json_int_ok(s: Seq<char>, i: int) -> bool {
    if at_char(s, i, '-') {
        json_nat_ok(s, i + 1)
    } else {
        json_nat_ok(s, i)
    }
}

pub open spec fn json_int_end(s: Seq<char>, i: int) -> int {
    if at_char(s, i, '-') {
        run_end(s, i + 1)
    } else {
        run_end(s, i)
    }
}

pub open spec fn json_int_val(s: Seq<char>, i: int) -> int {
    if at_char(s, i, '-') {
        -(json_nat_val(s, i + 1) as int)
    } else {
        json_nat_val(s, i) as int
    }
}

/// End of a JSON number with an optional fraction (no exponent).
pub open spec fn json_num_end(s: Seq<char>, i: int) -> int {
    let e = json_int_end(s, i);
    if at_char(s, e, '.') && run_end(s, e + 1) > e + 1 {
        run_end(s, e + 1)
    } else {
        e
    }
}

pub open spec fn json_num_text(s: Seq<char>, i: int) -> Seq<char> {
    s.subrange(i, json_num_end(s, i))
}

pub open spec fn json_bool_at(s: Seq<char>, i: int) -> Option<(bool, int)> {
    if at_lit(s, i, "true"@) {
        Some((true, i + 4))
    } else if at_lit(s, i, "false"@) {
        Some((false, i + 5))
    } else {
        None
    }
}

/// `}` then whitespace to the end of the document.
pub open spec fn object_closes(s: Seq<char>, i: int) -> bool {
    at_char(s, i, '}') && skip_ws(s, i + 1) == s.len()
}

/// `}`, whitespace, `}`, whitespace to the end.
pub open spec fn objects_close(s: Seq<char>, i: int) -> bool {
    at_char(s, i, '}') && object_closes(s, skip_ws(s, i + 1))
}

/// The `num` field then the `is_on` field, from the position of the first
/// key.
pub open spec fn fn_num_first(s: Seq<char>, b: int) -> Option<UpdateView> {
    let c = skip_ws(s, b + 5);
    if !at_char(s, c, ':') {
        None
    } else {
        let d = skip_ws(s, c + 1);
        if !(json_nat_ok(s, d) && json_nat_val(s, d) <= u8::MAX as nat) {
            None
        } else {
            let e = skip_ws(s, run_end(s, d));
            if !at_char(s, e, ',') {
                None
            } else {
                let f = skip_ws(s, e + 1);
                if !at_lit(s, f, "\"is_on\""@) {
                    None
                } else {
                    let g = skip_ws(s, f + 7);
                    if !at_char(s, g, ':') {
                        None
                    } else {
                        match json_bool_at(s, skip_ws(s, g + 1)) {
                            Some((on, he)) => if objects_close(s, skip_ws(s, he)) {
                                Some(
                                    UpdateView::Function {
                                        num: json_nat_val(s, d) as u8,
                                        is_on: on,
                                    },
                                )
                            } else {
                                None
                            },
                            None => None,
                        }
                    }
                }
            }
        }
    }
}

/// The `is_on` field then the `num` field, from the position of the first
/// key.
pub open spec fn fn_is_on_first(s: Seq<char>, b: int) -> Option<UpdateView> {
    let c = skip_ws(s, b + 7);
    if !at_char(s, c, ':') {
        None
    } else {
        match json_bool_at(s, skip_ws(s, c + 1)) {
            Some((on, he)) => {
                let e = skip_ws(s, he);
                if !at_char(s, e, ',') {
                    None
                } else {
                    let f = skip_ws(s, e + 1);
                    if !at_lit(s, f, "\"num\""@) {
                        None
                    } else {
                        let g = skip_ws(s, f + 5);
                        if !at_char(s, g, ':') {
                            None
                        } else {
                            let d = skip_ws(s, g + 1);
                            if !(json_nat_ok(s, d) && json_nat_val(s, d) <= u8::MAX as nat) {
                                None
                            } else if objects_close(s, skip_ws(s, run_end(s, d))) {
                                Some(
                                    UpdateView::Function {
                                        num: json_nat_val(s, d) as u8,
                                        is_on: on,
                                    },
                                )
                            } else {
                                None
                            }
                        }
                    }
                }
            },
            None => None,
        }
    }
}

/// A `Function` payload, from the position after its key.
pub open spec fn json_function_at(s: Seq<char>, i: int) -> Option<UpdateView> {
    if !at_char(s, i, ':') {
        None
    } else {
        let a = skip_ws(s, i + 1);
        if !at_char(s, a, '{') {
            None
        } else {
            let b = skip_ws(s, a + 1);
            if at_lit(s, b, "\"num\""@) {
                fn_num_first(s, b)
            } else if at_lit(s, b, "\"is_on\""@) {
                fn_is_on_first(s, b)
            } else {
                None
            }
        }
    }
}

/// A `Velocity` payload, from the position after its key.
pub open spec fn json_velocity_at(s: Seq<char>, i: int) -> Option<UpdateView> {
    if !at_char(s, i, ':') {
        None
    } else {
        let d = skip_ws(s, i + 1);
        if !(json_int_ok(s, d) && i16::MIN as int <= json_int_val(s, d) <= i16::MAX as int) {
            None
        } else if object_closes(s, skip_ws(s, json_int_end(s, d))) {
            Some(UpdateView::Velocity(json_int_val(s, d) as i16))
        } else {
            None
        }
    }
}

/// A `Direction` payload, from the position after its key.
pub open spec fn json_direction_at(s: Seq<char>, i: int) -> Option<UpdateView> {
    if !at_char(s, i, ':') {
        None
    } else {
        let d = skip_ws(s, i + 1);
        if at_lit(s, d, "\"Forward\""@) {
            if object_closes(s, skip_ws(s, d + 9)) {
                Some(UpdateView::Direction(Direction::Forward))
            } else {
                None
            }
        } else if at_lit(s, d, "\"Reverse\""@) {
            if object_closes(s, skip_ws(s, d + 9)) {
                Some(UpdateView::Direction(Direction::Reverse))
            } else {
                None
            }
        } else {
            None
        }
    }
}

/// The `timestamp` field then the `scale` field.
pub open spec fn time_ts_first(s: Seq<char>, b: int) -> Option<UpdateView> {
    let c = skip_ws(s, b + 11);
    if !at_char(s, c, ':') {
        None
    } else {
        let d = skip_ws(s, c + 1);
        if !(json_nat_ok(s, d) && json_nat_val(s, d) <= u64::MAX as nat) {
            None
        } else {
            let e = skip_ws(s, run_end(s, d));
            if !at_char(s, e, ',') {
                None
            } else {
                let f = skip_ws(s, e + 1);
                if !at_lit(s, f, "\"scale\""@) {
                    None
                } else {
                    let g = skip_ws(s, f + 7);
                    if !at_char(s, g, ':') {
                        None
                    } else {
                        let h = skip_ws(s, g + 1);
                        if !json_int_ok(s, h) {
                            None
                        } else if objects_close(s, skip_ws(s, json_num_end(s, h))) {
                            Some(
                                UpdateView::Time {
                                    timestamp: json_nat_val(s, d) as u64,
                                    scale: json_num_text(s, h),
                                },
                            )
                        } else {
                            None
                        }
                    }
                }
            }
        }
    }
}

/// The `scale` field then the `timestamp` field.
pub open spec fn time_scale_first(s: Seq<char>, b: int) -> Option<UpdateView> {
    let c = skip_ws(s, b + 7);
    if !at_char(s, c, ':') {
        None
    } else {
        let h = skip_ws(s, c + 1);
        if !json_int_ok(s, h) {
            None
        } else {
            let e = skip_ws(s, json_num_end(s, h));
            if !at_char(s, e, ',') {
                None
            } else {
                let f = skip_ws(s, e + 1);
                if !at_lit(s, f, "\"timestamp\""@) {
                    None
                } else {
                    let g = skip_ws(s, f + 11);
                    if !at_char(s, g, ':') {
                        None
                    } else {
                        let d = skip_ws(s, g + 1);
                        if !(json_nat_ok(s, d) && json_nat_val(s, d) <= u64::MAX as nat) {
                            None
                        } else if objects_close(s, skip_ws(s, run_end(s, d))) {
                            Some(
                                UpdateView::Time {
                                    timestamp: json_nat_val(s, d) as u64,
                                    scale: json_num_text(s, h),
                                },
                            )
                        } else {
                            None
                        }
                    }
                }
            }
        }
    }
}

/// A `Time` payload, from the position after its key.
pub open spec fn json_time_at(s: Seq<char>, i: int) -> Option<UpdateView> {
    if !at_char(s, i, ':') {
        None
    } else {
        let a = skip_ws(s, i + 1);
        if !at_char(s, a, '{') {
            None
        } else {
            let b = skip_ws(s, a + 1);
            if at_lit(s, b, "\"timestamp\""@) {
                time_ts_first(s, b)
            } else if at_lit(s, b, "\"scale\""@) {
                time_scale_first(s, b)
            } else {
                None
            }
        }
    }
}

/// What reading a document yields: the update of the single-key object
/// the text spells, or nothing.
pub open spec fn json_decode(s: Seq<char>) -> Option<UpdateView> {
    let i0 = skip_ws(s, 0);
    if !at_char(s, i0, '{') {
        None
    } else {
        let i1 = skip_ws(s, i0 + 1);
        if at_lit(s, i1, "\"Function\""@) {
            json_function_at(s, skip_ws(s, i1 + 10))
        } else if at_lit(s, i1, "\"Velocity\""@) {
            json_velocity_at(s, skip_ws(s, i1 + 10))
        } else if at_lit(s, i1, "\"Direction\""@) {
            json_direction_at(s, skip_ws(s, i1 + 11))
        } else if at_lit(s, i1, "\"Time\""@) {
            json_time_at(s, skip_ws(s, i1 + 6))
        } else {
            None
        }
    }
}

// ---------------------------------------------------------------------------
// Reading: the parser.
// ---------------------------------------------------------------------------

fn jws_c(c: char) -> (b: bool)
    ensures
        b == jws(c),
{
    c == ' ' || c == '\t' || c == '\n' || c == '\r'
}

fn skip_ws_x(s: &str, n: usize, i: usize) -> (j: usize)
    requires
        n == s@.len(),
        i <= n,
    ensures
        j as int == skip_ws(s@, i as int),
        i <= j <= n,
{
    let mut j = i;
    while j < n && jws_c(s.get_char(j))
        invariant
            n == s@.len(),
            i <= j <= n,
            skip_ws(s@, i as int) == skip_ws(s@, j as int),
        decreases n - j,
    {
        j += 1;
    }
    j
}

fn at_char_x(s: &str, n: usize, i: usize, c: char) -> (b: bool)
    requires
        n == s@.len(),
        i <= n,
    ensures
        b == at_char(s@, i as int, c),
{
    i < n && s.get_char(i) == c
}

/// Matches `lit` at position `i`, returning the position after it.
fn at_lit_x(s: &str, n: usize, i: usize, lit: &str) -> (r: Option<usize>)
    requires
        n == s@.len(),
        i <= n,
    ensures
        match r {
            Some(j) => at_lit(s@, i as int, lit@) && j as int == i + lit@.len() && j <= n,
            None => !at_lit(s@, i as int, lit@),
        },
{
    let m = lit.unicode_len();
    if n - i < m {
        return None;
    }
    let mut k: usize = 0;
    while k < m
        invariant
            n == s@.len(),
            m == lit@.len(),
            i + m <= n,
            k <= m,
            forall|j: int| 0 <= j < k ==> s@[i + j] == lit@[j],
        decreases m - k,
    {
        if s.get_char(i + k) != lit.get_char(k) {
            proof {
                let sub = s@.subrange(i as int, i + m);
                assert(sub[k as int] != lit@[k as int]);
            }
            return None;
        }
        k += 1;
    }
    proof {
        assert(s@.subrange(i as int, i + m) =~= lit@);
    }
    Some(i + m)
}

/// Reads a `true` or `false` token.
fn parse_bool_x(s: &str, n: usize, i: usize) -> (r: Option<(bool, usize)>)
    requires
        n == s@.len(),
        i <= n,
    ensures
        match (r, json_bool_at(s@, i as int)) {
            (Some((b, e)), Some((sb, se))) => b == sb && e as int == se && e <= n,
            (None, None) => true,
            _ => false,
        },
{
    proof {
        reveal_strlit("true");
        reveal_strlit("false");
    }
    if let Some(j) = at_lit_x(s, n, i, "true") {
        Some((true, j))
    } else if let Some(j) = at_lit_x(s, n, i, "false") {
        Some((false, j))
    } else {
        None
    }
}

/// Finds a JSON natural-number token at `i`, returning its end, without
/// reading its value.
fn nat_token_x(s: &str, n: usize, i: usize) -> (r: Option<usize>)
    requires
        n == s@.len(),
        i <= n,
    ensures
        match r {
            Some(e) => json_nat_ok(s@, i as int) && e as int == run_end(s@, i as int) && i < e
                <= n,
            None => !json_nat_ok(s@, i as int),
        },
{
    let e = digit_run_to(s, n, i);
    if e == i {
        return None;
    }
    if e > i + 1 && s.get_char(i) == '0' {
        return None;
    }
    Some(e)
}

/// Reads a JSON natural-number token and its value.
fn parse_nat_x(s: &str, n: usize, i: usize) -> (r: Option<(u64, usize)>)
    requires
        n == s@.len(),
        i <= n,
    ensures
        match r {
            Some((v, e)) => json_nat_ok(s@, i as int) && v as nat == json_nat_val(s@, i as int)
                && json_nat_val(s@, i as int) <= u64::MAX as nat && e as int == run_end(
                s@,
                i as int,
            ) && i < e <= n,
            None => !(json_nat_ok(s@, i as int) && json_nat_val(s@, i as int)
                <= u64::MAX as nat),
        },
{
    let e = match nat_token_x(s, n, i) {
        Some(e) => e,
        None => {
            return None;
        },
    };
    proof {
        lemma_run_digits(s@, i as int, e as int);
        assert(forall|k: int|
            0 <= k < e - i ==> is_digit(#[trigger] s@.subrange(i as int, e as int)[k]));
    }
    match digits_to_u64(s, n, i, e) {
        Some(v) => Some((v, e)),
        None => None,
    }
}

/// Reads a `Function` payload after its key.
fn parse_function_x(s: &str, n: usize, i: usize) -> (r: Option<Update>)
    requires
        n == s@.len(),
        i <= n,
    ensures
        match (r, json_function_at(s@, i as int)) {
            (Some(u), Some(v)) => u@ == v,
            (None, None) => true,
            _ => false,
        },
{
    proof {
        reveal_strlit("\"num\"");
        reveal_strlit("\"is_on\"");
    }
    if !at_char_x(s, n, i, ':') {
        return None;
    }
    let a = skip_ws_x(s, n, i + 1);
    if !at_char_x(s, n, a, '{') {
        return None;
    }
    let b = skip_ws_x(s, n, a + 1);
    if let Some(bn) = at_lit_x(s, n, b, "\"num\"") {
        // num first
        let c = skip_ws_x(s, n, bn);
        if !at_char_x(s, n, c, ':') {
            return None;
        }
        let d = skip_ws_x(s, n, c + 1);
        let (v, de) = match parse_nat_x(s, n, d) {
            Some(p) => p,
            None => {
                return None;
            },
        };
        if v > u8::MAX as u64 {
            return None;
        }
        let num: u8 = v as u8;
        let e = skip_ws_x(s, n, de);
        if !at_char_x(s, n, e, ',') {
            return None;
        }
        let f = skip_ws_x(s, n, e + 1);
        let fn_ = match at_lit_x(s, n, f, "\"is_on\"") {
            Some(j) => j,
            None => {
                return None;
            },
        };
        let g = skip_ws_x(s, n, fn_);
        if !at_char_x(s, n, g, ':') {
            return None;
        }
        let h = skip_ws_x(s, n, g + 1);
        let (on, he) = match parse_bool_x(s, n, h) {
            Some(p) => p,
            None => {
                return None;
            },
        };
        let z = skip_ws_x(s, n, he);
        if !at_char_x(s, n, z, '}') {
            return None;
        }
        let y = skip_ws_x(s, n, z + 1);
        if !at_char_x(s, n, y, '}') {
            return None;
        }
        if skip_ws_x(s, n, y + 1) != n {
            return None;
        }
        Some(Update::Function { num, is_on: on })
    } else if let Some(bo) = at_lit_x(s, n, b, "\"is_on\"") {
        // is_on first
        let c = skip_ws_x(s, n, bo);
        if !at_char_x(s, n, c, ':') {
            return None;
        }
        let h = skip_ws_x(s, n, c + 1);
        let (on, he) = match parse_bool_x(s, n, h) {
            Some(p) => p,
            None => {
                return None;
            },
        };
        let e = skip_ws_x(s, n, he);
        if !at_char_x(s, n, e, ',') {
            return None;
        }
        let f = skip_ws_x(s, n, e + 1);
        let fn_ = match at_lit_x(s, n, f, "\"num\"") {
            Some(j) => j,
            None => {
                return None;
            },
        };
        let g = skip_ws_x(s, n, fn_);
        if !at_char_x(s, n, g, ':') {
            return None;
        }
        let d = skip_ws_x(s, n, g + 1);
        let (v, de) = match parse_nat_x(s, n, d) {
            Some(p) => p,
            None => {
                return None;
            },
        };
        if v > u8::MAX as u64 {
            return None;
        }
        let num: u8 = v as u8;
        let z = skip_ws_x(s, n, de);
        if !at_char_x(s, n, z, '}') {
            return None;
        }
        let y = skip_ws_x(s, n, z + 1);
        if !at_char_x(s, n, y, '}') {
            return None;
        }
        if skip_ws_x(s, n, y + 1) != n {
            return None;
        }
        Some(Update::Function { num, is_on: on })
    } else {
        None
    }
}

/// Reads a `Velocity` payload after its key.
fn parse_velocity_x(s: &str, n: usize, i: usize) -> (r: Option<Update>)
    requires
        n == s@.len(),
        i <= n,
    ensures
        match (r, json_velocity_at(s@, i as int)) {
            (Some(u), Some(v)) => u@ == v,
            (None, None) => true,
            _ => false,
        },
{
    if !at_char_x(s, n, i, ':') {
        return None;
    }
    let d = skip_ws_x(s, n, i + 1);
    let neg = at_char_x(s, n, d, '-');
    let ds = if neg {
        d + 1
    } else {
        d
    };
    let (v, de) = match parse_nat_x(s, n, ds) {
        Some(p) => p,
        None => {
            return None;
        },
    };
    let value: i16;
    if neg {
        if v > 32768 {
            return None;
        }
        value = if v == 32768 {
            i16::MIN
        } else {
            -(v as i16)
        };
    } else {
        if v > 32767 {
            return None;
        }
        value = v as i16;
    }
    let z = skip_ws_x(s, n, de);
    if !at_char_x(s, n, z, '}') {
        return None;
    }
    if skip_ws_x(s, n, z + 1) != n {
        return None;
    }
    Some(Update::Velocity(value))
}

/// Reads a `Direction` payload after its key.
fn parse_direction_x(s: &str, n: usize, i: usize) -> (r: Option<Update>)
    requires
        n == s@.len(),
        i <= n,
    ensures
        match (r, json_direction_at(s@, i as int)) {
            (Some(u), Some(v)) => u@ == v,
            (None, None) => true,
            _ => false,
        },
{
    proof {
        reveal_strlit("\"Forward\"");
        reveal_strlit("\"Reverse\"");
    }
    if !at_char_x(s, n, i, ':') {
        return None;
    }
    let d = skip_ws_x(s, n, i + 1);
    let dir: Direction;
    let de: usize;
    if let Some(j) = at_lit_x(s, n, d, "\"Forward\"") {
        dir = Direction::Forward;
        de = j;
    } else if let Some(j) = at_lit_x(s, n, d, "\"Reverse\"") {
        dir = Direction::Reverse;
        de = j;
    } else {
        return None;
    }
    let z = skip_ws_x(s, n, de);
    if !at_char_x(s, n, z, '}') {
        return None;
    }
    if skip_ws_x(s, n, z + 1) != n {
        return None;
    }
    Some(Update::Direction(dir))
}

/// Reads a number with an optional fraction, returning its text and end.
fn parse_num_text_x(s: &str, n: usize, i: usize) -> (r: Option<(String, usize)>)
    requires
        n == s@.len(),
        i <= n,
    ensures
        match r {
            Some((t, e)) => json_int_ok(s@, i as int) && t@ == json_num_text(s@, i as int)
                && e as int == json_num_end(s@, i as int) && i <= e <= n,
            None => !json_int_ok(s@, i as int),
        },
{
    let neg = at_char_x(s, n, i, '-');
    let ds = if neg {
        i + 1
    } else {
        i
    };
    let ie = match nat_token_x(s, n, ds) {
        Some(e) => e,
        None => {
            return None;
        },
    };
    let mut end = ie;
    if n - ie >= 2 && s.get_char(ie) == '.' {
        let fe = digit_run_to(s, n, ie + 1);
        if fe > ie + 1 {
            end = fe;
        }
    }
    proof {
        assert(end as int == json_num_end(s@, i as int));
    }
    let t = s.substring_char(i, end).to_owned();
    Some((t, end))
}

/// Reads a `Time` payload after its key.
fn parse_time_x(s: &str, n: usize, i: usize) -> (r: Option<Update>)
    requires
        n == s@.len(),
        i <= n,
    ensures
        match (r, json_time_at(s@, i as int)) {
            (Some(u), Some(v)) => u@ == v,
            (None, None) => true,
            _ => false,
        },
{
    proof {
        reveal_strlit("\"timestamp\"");
        reveal_strlit("\"scale\"");
    }
    if !at_char_x(s, n, i, ':') {
        return None;
    }
    let a = skip_ws_x(s, n, i + 1);
    if !at_char_x(s, n, a, '{') {
        return None;
    }
    let b = skip_ws_x(s, n, a + 1);
    if let Some(bt) = at_lit_x(s, n, b, "\"timestamp\"") {
        // timestamp first
        let c = skip_ws_x(s, n, bt);
        if !at_char_x(s, n, c, ':') {
            return None;
        }
        let d = skip_ws_x(s, n, c + 1);
        let (ts, de) = match parse_nat_x(s, n, d) {
            Some(p) => p,
            None => {
                return None;
            },
        };
        let e = skip_ws_x(s, n, de);
        if !at_char_x(s, n, e, ',') {
            return None;
        }
        let f = skip_ws_x(s, n, e + 1);
        let fs = match at_lit_x(s, n, f, "\"scale\"") {
            Some(j) => j,
            None => {
                return None;
            },
        };
        let g = skip_ws_x(s, n, fs);
        if !at_char_x(s, n, g, ':') {
            return None;
        }
        let h = skip_ws_x(s, n, g + 1);
        let (scale, he) = match parse_num_text_x(s, n, h) {
            Some(p) => p,
            None => {
                return None;
            },
        };
        let z = skip_ws_x(s, n, he);
        if !at_char_x(s, n, z, '}') {
            return None;
        }
        let y = skip_ws_x(s, n, z + 1);
        if !at_char_x(s, n, y, '}') {
            return None;
        }
        if skip_ws_x(s, n, y + 1) != n {
            return None;
        }
        Some(Update::Time { timestamp: ts, scale })
    } else if let Some(bs) = at_lit_x(s, n, b, "\"scale\"") {
        // scale first
        let c = skip_ws_x(s, n, bs);
        if !at_char_x(s, n, c, ':') {
            return None;
        }
        let h = skip_ws_x(s, n, c + 1);
        let (scale, he) = match parse_num_text_x(s, n, h) {
            Some(p) => p,
            None => {
                return None;
            },
        };
        let e = skip_ws_x(s, n, he);
        if !at_char_x(s, n, e, ',') {
            return None;
        }
        let f = skip_ws_x(s, n, e + 1);
        let ft = match at_lit_x(s, n, f, "\"timestamp\"") {
            Some(j) => j,
            None => {
                return None;
            },
        };
        let g = skip_ws_x(s, n, ft);
        if !at_char_x(s, n, g, ':') {
            return None;
        }
        let d = skip_ws_x(s, n, g + 1);
        let (ts, de) = match parse_nat_x(s, n, d) {
            Some(p) => p,
            None => {
                return None;
            },
        };
        let z = skip_ws_x(s, n, de);
        if !at_char_x(s, n, z, '}') {
            return None;
        }
        let y = skip_ws_x(s, n, z + 1);
        if !at_char_x(s, n, y, '}') {
            return None;
        }
        if skip_ws_x(s, n, y + 1) != n {
            return None;
        }
        Some(Update::Time { timestamp: ts, scale })
    } else {
        None
    }
}

/// Reads one JSON document as an update, or nothing when the text does
/// not spell one of the four single-key objects.
pub fn update_from_json(s: &str) -> (r: Option<Update>)
    ensures
        match r {
            Some(u) => json_decode(s@) == Some(u@),
            None => json_decode(s@) is None,
        },
{
    proof {
        reveal_strlit("\"Function\"");
        reveal_strlit("\"Velocity\"");
        reveal_strlit("\"Direction\"");
        reveal_strlit("\"Time\"");
    }
    let n = s.unicode_len();
    let i0 = skip_ws_x(s, n, 0);
    if !at_char_x(s, n, i0, '{') {
        return None;
    }
    let i1 = skip_ws_x(s, n, i0 + 1);
    if let Some(j) = at_lit_x(s, n, i1, "\"Function\"") {
        parse_function_x(s, n, skip_ws_x(s, n, j))
    } else if let Some(j) = at_lit_x(s, n, i1, "\"Velocity\"") {
        parse_velocity_x(s, n, skip_ws_x(s, n, j))
    } else if let Some(j) = at_lit_x(s, n, i1, "\"Direction\"") {
        parse_direction_x(s, n, skip_ws_x(s, n, j))
    } else if let Some(j) = at_lit_x(s, n, i1, "\"Time\"") {
        parse_time_x(s, n, skip_ws_x(s, n, j))
    } else {
        None
    }
}

// ---------------------------------------------------------------------------
// The codec pair agrees: reading an emitted document yields the update it
// was made from.
// ---------------------------------------------------------------------------

/// A well-formed scale text: a complete JSON number without exponent,
/// exactly what the wire decoder and the JSON reader produce.
pub open spec fn scale_text_wf(t: Seq<char>) -> bool {
    &&& json_int_ok(t, 0)
    &&& json_num_end(t, 0) == t.len()
}

/// An update whose embedded texts are well-formed: only the clock scale
/// carries one.
pub open spec fn update_wf(u: UpdateView) -> bool {
    match u {
        UpdateView::Time { scale, .. } => scale_text_wf(scale),
        _ => true,
    }
}

proof fn lemma_digit_char_val(d: nat)
    requires
        d < 10,
    ensures
        digit_val(digit_char(d)) == d,
        is_digit(digit_char(d)),
        d != 0 ==> digit_char(d) != '0',
{
    assert(digit_val('0') == 0 && digit_val('1') == 1 && digit_val('2') == 2 && digit_val('3')
        == 3 && digit_val('4') == 4 && digit_val('5') == 5 && digit_val('6') == 6 && digit_val(
        '7',
    ) == 7 && digit_val('8') == 8 && digit_val('9') == 9);
}

/// The decimal rendering of a natural number: non-empty, all digits, no
/// leading zero, and reading it back yields the number.
proof fn lemma_dec_digits_props(n: nat)
    ensures
        dec_digits(n).len() >= 1,
        forall|k: int| 0 <= k < dec_digits(n).len() ==> is_digit(#[trigger] dec_digits(n)[k]),
        n == 0 ==> dec_digits(n) == seq!['0'],
        n != 0 ==> dec_digits(n)[0] != '0',
        dec_digits(n).len() == 1 || dec_digits(n)[0] != '0',
        digits_val(dec_digits(n)) == n,
    decreases n,
{
    if n < 10 {
        lemma_digit_char_val(n);
        let d = dec_digits(n);
        assert(d =~= seq![digit_char(n)]);
        assert(d.len() == 1);
        assert(d.drop_last() =~= Seq::<char>::empty());
        assert(digits_val(Seq::<char>::empty()) == 0);
        assert(d.last() == digit_char(n));
        assert(digits_val(d) == digits_val(d.drop_last()) * 10 + digit_val(d.last()));
        assert(digits_val(d) == n);
        if n == 0 {
            assert(d =~= seq!['0']);
        }
    } else {
        lemma_dec_digits_props(n / 10);
        lemma_digit_char_val(n % 10);
        let d = dec_digits(n);
        assert(d.drop_last() =~= dec_digits(n / 10));
        assert(d[0] == dec_digits(n / 10)[0]);
        assert(digits_val(d) == digits_val(dec_digits(n / 10)) * 10 + digit_val(
            digit_char(n % 10),
        ));
    }
}

/// A digit run bounded by a non-digit (or the end) is exactly what
/// `run_end` spans.
proof fn lemma_run_end_exact(s: Seq<char>, a: int, b: int)
    requires
        0 <= a <= b <= s.len(),
        forall|k: int| a <= k < b ==> is_digit(#[trigger] s[k]),
        b == s.len() || !is_digit(s[b]),
    ensures
        run_end(s, a) == b,
    decreases b - a,
{
    if a < b {
        lemma_run_end_exact(s, a + 1, b);
    }
}

/// `run_end` inside an embedded text agrees with `run_end` on the text,
/// provided no digit follows the embedding.
proof fn lemma_run_end_offset(s: Seq<char>, t: Seq<char>, off: int, k: int)
    requires
        0 <= off,
        off + t.len() <= s.len(),
        s.subrange(off, off + t.len()) == t,
        0 <= k <= t.len(),
        off + t.len() == s.len() || !is_digit(s[off + t.len()]),
    ensures
        run_end(s, off + k) == off + run_end(t, k),
    decreases t.len() - k,
{
    if k < t.len() {
        assert(t[k] == s[off + k]);
        if is_digit(t[k]) {
            lemma_run_end_offset(s, t, off, k + 1);
        }
    }
}

/// A complete JSON number embedded at `off`, with no digit and no dot
/// right after it, reads the same as it does standalone.
proof fn lemma_num_embed(s: Seq<char>, t: Seq<char>, off: int)
    requires
        0 <= off,
        off + t.len() <= s.len(),
        s.subrange(off, off + t.len()) == t,
        off + t.len() == s.len() || (!is_digit(s[off + t.len()]) && s[off + t.len()] != '.'),
        scale_text_wf(t),
    ensures
        json_int_ok(s, off),
        json_num_end(s, off) == off + t.len(),
        json_num_text(s, off) == t,
        json_int_val(s, off) == json_int_val(t, 0),
        json_nat_ok(s, off) == json_nat_ok(t, 0),
{
    assert(forall|k: int| 0 <= k < t.len() ==> t[k] == s[off + k]);
    let neg = at_char(t, 0, '-');
    let ds = if neg {
        1int
    } else {
        0int
    };
    let e0 = run_end(t, ds);
    lemma_run_end_offset(s, t, off, ds);
    assert(run_end(s, off + ds) == off + e0);
    if e0 < t.len() {
        // The text carries a fraction: `.` then at least one digit.
        assert(json_int_end(t, 0) == e0);
        assert(t[e0] == '.');
        assert(run_end(t, e0 + 1) == t.len());
        assert(run_end(t, e0 + 1) > e0 + 1);
        lemma_run_end_offset(s, t, off, e0 + 1);
        assert(run_end(s, off + e0 + 1) == off + t.len());
        assert(s[off + e0] == '.');
        assert(json_num_end(s, off) == off + t.len());
    } else {
        assert(json_int_end(t, 0) == t.len());
        if off + t.len() < s.len() {
            assert(s[off + t.len()] != '.');
        }
        assert(json_num_end(s, off) == off + t.len());
    }
    assert(json_num_text(s, off) =~= t);
    if neg {
        assert(s.subrange(off + 1, off + e0) =~= t.subrange(1, e0));
    } else {
        assert(s.subrange(off, off + e0) =~= t.subrange(0, e0));
    }
}

/// A digit run with no leading zero embedded at `off` is a JSON natural
/// number there and reads back as its value.
proof fn lemma_nat_embed(s: Seq<char>, d: Seq<char>, off: int)
    requires
        0 <= off,
        off + d.len() <= s.len(),
        s.subrange(off, off + d.len()) == d,
        off + d.len() == s.len() || !is_digit(s[off + d.len()]),
        d.len() >= 1,
        forall|k: int| 0 <= k < d.len() ==> is_digit(#[trigger] d[k]),
        d.len() == 1 || d[0] != '0',
    ensures
        json_nat_ok(s, off),
        run_end(s, off) == off + d.len(),
        json_nat_val(s, off) == digits_val(d),
{
    assert(forall|k: int| 0 <= k < d.len() ==> d[k] == s[off + k]);
    assert forall|k: int| off <= k < off + d.len() implies is_digit(s[k]) by {
        assert(s[k] == d[k - off]);
    }
    lemma_run_end_exact(s, off, off + d.len() as int);
    assert(s.subrange(off, run_end(s, off)) =~= d);
}

proof fn lemma_rt_velocity(v: i16)
    ensures
        json_decode(json_of_update(UpdateView::Velocity(v))) == Some(UpdateView::Velocity(v)),
{
    reveal_strlit("{\"Velocity\":");
    reveal_strlit("}");
    reveal_strlit("\"Function\"");
    reveal_strlit("\"Velocity\"");
    reveal_strlit("-");
    let l1 = "{\"Velocity\":"@;
    let t = int_text(v as int);
    let s = json_of_update(UpdateView::Velocity(v));
    let m = t.len() as int;
    let mag = if v < 0 {
        (-v) as nat
    } else {
        v as nat
    };
    lemma_dec_digits_props(mag);
    assert(s =~= l1 + t + "}"@);
    assert(forall|k: int| 0 <= k < 12 ==> s[k] == l1[k]);
    assert(forall|k: int| 0 <= k < m ==> s[12 + k] == t[k]);
    assert(s[12 + m] == '}');
    assert(s.len() == 13 + m);
    // Entry: `{`, then the `"Velocity"` key.
    assert(skip_ws(s, 0) == 0);
    assert(at_char(s, 0, '{'));
    assert(skip_ws(s, 1) == 1);
    assert(!at_lit(s, 1, "\"Function\""@)) by {
        if at_lit(s, 1, "\"Function\""@) {
            assert(s.subrange(1, 11)[1] == 'F');
            assert(s[2] == 'V');
        }
    }
    assert(at_lit(s, 1, "\"Velocity\""@)) by {
        assert(s.subrange(1, 11) =~= "\"Velocity\""@);
    }
    // The payload: `:`, the number, `}`.
    assert(skip_ws(s, 11) == 11);
    assert(at_char(s, 11, ':'));
    let digits = dec_digits(mag);
    if v < 0 {
        assert(t =~= seq!['-'] + digits);
        assert(s[12] == '-');
        assert(s.subrange(13, 13 + digits.len() as int) =~= digits);
        lemma_nat_embed(s, digits, 13);
        assert(skip_ws(s, 12) == 12);
        assert(json_int_ok(s, 12));
        assert(json_int_val(s, 12) == v as int);
        assert(json_int_end(s, 12) == 12 + m);
    } else {
        assert(t == digits);
        assert(s.subrange(12, 12 + digits.len() as int) =~= digits);
        lemma_nat_embed(s, digits, 12);
        assert(is_digit(s[12]));
        assert(skip_ws(s, 12) == 12);
        assert(!at_char(s, 12, '-'));
        assert(json_int_ok(s, 12));
        assert(json_int_val(s, 12) == v as int);
        assert(json_int_end(s, 12) == 12 + m);
    }
    assert(skip_ws(s, 12 + m) == 12 + m);
    assert(at_char(s, 12 + m, '}'));
    assert(skip_ws(s, 13 + m) == 13 + m);
    assert(object_closes(s, 12 + m));
    assert(json_velocity_at(s, 11) == Some(UpdateView::Velocity(v)));
}

#[verifier::rlimit(60)]
proof fn lemma_rt_function(num: u8, is_on: bool)
    ensures
        json_decode(json_of_update(UpdateView::Function { num, is_on })) == Some(
            UpdateView::Function { num, is_on },
        ),
{
    reveal_strlit("{\"Function\":{\"num\":");
    reveal_strlit(",\"is_on\":");
    reveal_strlit("}}");
    reveal_strlit("\"Function\"");
    reveal_strlit("\"num\"");
    reveal_strlit("\"is_on\"");
    reveal_strlit("true");
    reveal_strlit("false");
    let k1 = "{\"Function\":{\"num\":"@;
    let k2 = ",\"is_on\":"@;
    let digits = dec_digits(num as nat);
    let bt = bool_text(is_on);
    let s = json_of_update(UpdateView::Function { num, is_on });
    let dl = digits.len() as int;
    let bl = bt.len() as int;
    lemma_dec_digits_props(num as nat);
    assert(s =~= k1 + digits + k2 + bt + "}}"@);
    assert(forall|k: int| 0 <= k < 19 ==> s[k] == k1[k]);
    assert(forall|k: int| 0 <= k < dl ==> s[19 + k] == digits[k]);
    assert(forall|k: int| 0 <= k < 9 ==> s[19 + dl + k] == k2[k]);
    assert(forall|k: int| 0 <= k < bl ==> s[28 + dl + k] == bt[k]);
    assert(s[28 + dl + bl] == '}' && s[29 + dl + bl] == '}');
    assert(s.len() == 30 + dl + bl);
    // Entry and key.
    assert(skip_ws(s, 0) == 0);
    assert(at_char(s, 0, '{'));
    assert(skip_ws(s, 1) == 1);
    assert(at_lit(s, 1, "\"Function\""@)) by {
        assert(s.subrange(1, 11) =~= "\"Function\""@);
    }
    // Payload object, `num` field first.
    assert(skip_ws(s, 11) == 11);
    assert(at_char(s, 11, ':'));
    assert(skip_ws(s, 12) == 12);
    assert(at_char(s, 12, '{'));
    assert(skip_ws(s, 13) == 13);
    assert(at_lit(s, 13, "\"num\""@)) by {
        assert(s.subrange(13, 18) =~= "\"num\""@);
    }
    assert(skip_ws(s, 18) == 18);
    assert(at_char(s, 18, ':'));
    assert(skip_ws(s, 19) == 19);
    assert(s.subrange(19, 19 + dl) =~= digits);
    lemma_nat_embed(s, digits, 19);
    assert(json_nat_val(s, 19) == num as nat);
    // The separator and the `is_on` field.
    assert(skip_ws(s, 19 + dl) == 19 + dl);
    assert(at_char(s, 19 + dl, ','));
    assert(skip_ws(s, 20 + dl) == 20 + dl);
    assert(at_lit(s, 20 + dl, "\"is_on\""@)) by {
        assert(s.subrange(20 + dl, 27 + dl) =~= "\"is_on\""@);
    }
    assert(skip_ws(s, 27 + dl) == 27 + dl);
    assert(at_char(s, 27 + dl, ':'));
    assert(skip_ws(s, 28 + dl) == 28 + dl);
    if is_on {
        assert(at_lit(s, 28 + dl, "true"@)) by {
            assert(s.subrange(28 + dl, 32 + dl) =~= "true"@);
        }
        assert(json_bool_at(s, 28 + dl) == Some((true, 28 + dl + 4)));
    } else {
        assert(!at_lit(s, 28 + dl, "true"@)) by {
            if at_lit(s, 28 + dl, "true"@) {
                assert(s.subrange(28 + dl, 32 + dl)[0] == 't');
                assert(s[28 + dl] == 'f');
            }
        }
        assert(at_lit(s, 28 + dl, "false"@)) by {
            assert(s.subrange(28 + dl, 33 + dl) =~= "false"@);
        }
        assert(json_bool_at(s, 28 + dl) == Some((false, 28 + dl + 5)));
    }
    // Both objects close at the end of the document.
    assert(skip_ws(s, 28 + dl + bl) == 28 + dl + bl);
    assert(at_char(s, 28 + dl + bl, '}'));
    assert(skip_ws(s, 29 + dl + bl) == 29 + dl + bl);
    assert(at_char(s, 29 + dl + bl, '}'));
    assert(skip_ws(s, 30 + dl + bl) == 30 + dl + bl);
    assert(objects_close(s, skip_ws(s, 28 + dl + bl)));
    assert(fn_num_first(s, 13) == Some(UpdateView::Function { num, is_on }));
}

proof fn lemma_rt_direction(d: Direction)
    ensures
        json_decode(json_of_update(UpdateView::Direction(d))) == Some(UpdateView::Direction(d)),
{
    reveal_strlit("{\"Direction\":\"");
    reveal_strlit("\"}");
    reveal_strlit("\"Function\"");
    reveal_strlit("\"Velocity\"");
    reveal_strlit("\"Direction\"");
    reveal_strlit("\"Forward\"");
    reveal_strlit("\"Reverse\"");
    reveal_strlit("Forward");
    reveal_strlit("Reverse");
    let k1 = "{\"Direction\":\""@;
    let name = direction_name(d);
    let s = json_of_update(UpdateView::Direction(d));
    assert(s =~= k1 + name + "\"}"@);
    assert(forall|k: int| 0 <= k < 14 ==> s[k] == k1[k]);
    assert(forall|k: int| 0 <= k < 7 ==> s[14 + k] == name[k]);
    assert(s[21] == '"' && s[22] == '}');
    assert(s.len() == 23);
    assert(skip_ws(s, 0) == 0);
    assert(at_char(s, 0, '{'));
    assert(skip_ws(s, 1) == 1);
    assert(!at_lit(s, 1, "\"Function\""@)) by {
        if at_lit(s, 1, "\"Function\""@) {
            assert(s.subrange(1, 11)[1] == 'F');
            assert(s[2] == 'D');
        }
    }
    assert(!at_lit(s, 1, "\"Velocity\""@)) by {
        if at_lit(s, 1, "\"Velocity\""@) {
            assert(s.subrange(1, 11)[1] == 'V');
            assert(s[2] == 'D');
        }
    }
    assert(at_lit(s, 1, "\"Direction\""@)) by {
        assert(s.subrange(1, 12) =~= "\"Direction\""@);
    }
    assert(skip_ws(s, 12) == 12);
    assert(at_char(s, 12, ':'));
    assert(skip_ws(s, 13) == 13);
    match d {
        Direction::Forward => {
            assert(at_lit(s, 13, "\"Forward\""@)) by {
                assert(s.subrange(13, 22) =~= "\"Forward\""@);
            }
        },
        Direction::Reverse => {
            assert(!at_lit(s, 13, "\"Forward\""@)) by {
                if at_lit(s, 13, "\"Forward\""@) {
                    assert(s.subrange(13, 22)[1] == 'F');
                    assert(s[14] == 'R');
                }
            }
            assert(at_lit(s, 13, "\"Reverse\""@)) by {
                assert(s.subrange(13, 22) =~= "\"Reverse\""@);
            }
        },
    }
    assert(skip_ws(s, 22) == 22);
    assert(at_char(s, 22, '}'));
    assert(skip_ws(s, 23) == 23);
    assert(object_closes(s, 22));
    assert(json_direction_at(s, 12) == Some(UpdateView::Direction(d)));
}

#[verifier::rlimit(60)]
proof fn lemma_rt_time(timestamp: u64, scale: Seq<char>)
    requires
        scale_text_wf(scale),
    ensures
        json_decode(json_of_update(UpdateView::Time { timestamp, scale })) == Some(
            UpdateView::Time { timestamp, scale },
        ),
{
    reveal_strlit("{\"Time\":{\"timestamp\":");
    reveal_strlit(",\"scale\":");
    reveal_strlit("}}");
    reveal_strlit("\"Function\"");
    reveal_strlit("\"Velocity\"");
    reveal_strlit("\"Direction\"");
    reveal_strlit("\"Time\"");
    reveal_strlit("\"timestamp\"");
    reveal_strlit("\"scale\"");
    let k1 = "{\"Time\":{\"timestamp\":"@;
    let k2 = ",\"scale\":"@;
    let digits = dec_digits(timestamp as nat);
    let s = json_of_update(UpdateView::Time { timestamp, scale });
    let dl = digits.len() as int;
    let sl = scale.len() as int;
    lemma_dec_digits_props(timestamp as nat);
    assert(s =~= k1 + digits + k2 + scale + "}}"@);
    assert(forall|k: int| 0 <= k < 21 ==> s[k] == k1[k]);
    assert(forall|k: int| 0 <= k < dl ==> s[21 + k] == digits[k]);
    assert(forall|k: int| 0 <= k < 9 ==> s[21 + dl + k] == k2[k]);
    assert(forall|k: int| 0 <= k < sl ==> s[30 + dl + k] == scale[k]);
    assert(s[30 + dl + sl] == '}' && s[31 + dl + sl] == '}');
    assert(s.len() == 32 + dl + sl);
    // Entry and key.
    assert(skip_ws(s, 0) == 0);
    assert(at_char(s, 0, '{'));
    assert(skip_ws(s, 1) == 1);
    assert(!at_lit(s, 1, "\"Function\""@)) by {
        if at_lit(s, 1, "\"Function\""@) {
            assert(s.subrange(1, 11)[1] == 'F');
            assert(s[2] == 'T');
        }
    }
    assert(!at_lit(s, 1, "\"Velocity\""@)) by {
        if at_lit(s, 1, "\"Velocity\""@) {
            assert(s.subrange(1, 11)[1] == 'V');
            assert(s[2] == 'T');
        }
    }
    assert(!at_lit(s, 1, "\"Direction\""@)) by {
        if at_lit(s, 1, "\"Direction\""@) {
            assert(s.subrange(1, 12)[1] == 'D');
            assert(s[2] == 'T');
        }
    }
    assert(at_lit(s, 1, "\"Time\""@)) by {
        assert(s.subrange(1, 7) =~= "\"Time\""@);
    }
    // Payload object, `timestamp` field first.
    assert(skip_ws(s, 7) == 7);
    assert(at_char(s, 7, ':'));
    assert(skip_ws(s, 8) == 8);
    assert(at_char(s, 8, '{'));
    assert(skip_ws(s, 9) == 9);
    assert(at_lit(s, 9, "\"timestamp\""@)) by {
        assert(s.subrange(9, 20) =~= "\"timestamp\""@);
    }
    assert(skip_ws(s, 20) == 20);
    assert(at_char(s, 20, ':'));
    assert(skip_ws(s, 21) == 21);
    assert(s.subrange(21, 21 + dl) =~= digits);
    lemma_nat_embed(s, digits, 21);
    assert(json_nat_val(s, 21) == timestamp as nat);
    // The separator and the `scale` field.
    assert(skip_ws(s, 21 + dl) == 21 + dl);
    assert(at_char(s, 21 + dl, ','));
    assert(skip_ws(s, 22 + dl) == 22 + dl);
    assert(at_lit(s, 22 + dl, "\"scale\""@)) by {
        assert(s.subrange(22 + dl, 29 + dl) =~= "\"scale\""@);
    }
    assert(skip_ws(s, 29 + dl) == 29 + dl);
    assert(at_char(s, 29 + dl, ':'));
    // The scale text is a complete number followed by a brace.
    assert(s.subrange(30 + dl, 30 + dl + sl) =~= scale);
    lemma_num_embed(s, scale, 30 + dl);
    assert(!jws(s[30 + dl])) by {
        if at_char(scale, 0, '-') {
            assert(s[30 + dl] == '-');
        } else {
            assert(is_digit(scale[0]));
        }
    }
    assert(skip_ws(s, 30 + dl) == 30 + dl);
    assert(json_num_text(s, 30 + dl) == scale);
    // Both objects close at the end of the document.
    assert(skip_ws(s, 30 + dl + sl) == 30 + dl + sl);
    assert(at_char(s, 30 + dl + sl, '}'));
    assert(skip_ws(s, 31 + dl + sl) == 31 + dl + sl);
    assert(at_char(s, 31 + dl + sl, '}'));
    assert(skip_ws(s, 32 + dl + sl) == 32 + dl + sl);
    assert(objects_close(s, skip_ws(s, 30 + dl + sl)));
    assert(time_ts_first(s, 9) == Some(UpdateView::Time { timestamp, scale }));
}

/// Reading back an emitted document yields the update it was made from.
pub proof fn lemma_json_round_trip(u: UpdateView)
    requires
        update_wf(u),
    ensures
        json_decode(json_of_update(u)) == Some(u),
{
    match u {
        UpdateView::Function { num, is_on } => lemma_rt_function(num, is_on),
        UpdateView::Velocity(v) => lemma_rt_velocity(v),
        UpdateView::Direction(d) => lemma_rt_direction(d),
        UpdateView::Time { timestamp, scale } => lemma_rt_time(timestamp, scale),
    }
}

/// Digits with their leading zeros stripped: still a non-empty digit
/// run, now without a leading zero.
proof fn lemma_strip_zeros_props(d: Seq<char>)
    requires
        d.len() >= 1,
        forall|k: int| 0 <= k < d.len() ==> is_digit(#[trigger] d[k]),
    ensures
        crate::parse::strip_zeros(d).len() >= 1,
        forall|k: int|
            0 <= k < crate::parse::strip_zeros(d).len() ==> is_digit(
                #[trigger] crate::parse::strip_zeros(d)[k],
            ),
        crate::parse::strip_zeros(d).len() == 1 || crate::parse::strip_zeros(d)[0] != '0',
    decreases d.len(),
{
    if d.len() > 1 && d[0] == '0' {
        assert(forall|k: int| 0 <= k < d.drop_first().len() ==> is_digit(
            #[trigger] d.drop_first()[k],
        )) by {
            assert(forall|k: int| 0 <= k < d.drop_first().len() ==> d.drop_first()[k] == d[k
                + 1]);
        }
        lemma_strip_zeros_props(d.drop_first());
    }
}

/// The scale text a clock match stores is a complete JSON number.
proof fn lemma_wire_scale_wf(s: Seq<char>, i: int)
    requires
        crate::parse::clock_match_at(s, i),
    ensures
        scale_text_wf(crate::parse::clock_scale_text(s, i)),
{
    let s0 = run_end(s, i + 3) + 3;
    let s1 = run_end(s, s0);
    let ints = crate::parse::clock_scale_int(s, i);
    let r = crate::parse::strip_zeros(ints);
    let frac = crate::parse::clock_scale_frac(s, i);
    let t = crate::parse::clock_scale_text(s, i);
    crate::parse::lemma_run_end_bounds(s, i + 3);
    crate::parse::lemma_run_end_bounds(s, s0);
    crate::parse::lemma_run_digits(s, s0, s1);
    assert(forall|k: int| 0 <= k < ints.len() ==> is_digit(#[trigger] ints[k])) by {
        assert(forall|k: int| 0 <= k < ints.len() ==> ints[k] == s[s0 + k]);
    }
    lemma_strip_zeros_props(ints);
    let rl = r.len() as int;
    if crate::parse::clock_has_frac(s, i) {
        let fe = run_end(s, s1 + 1);
        crate::parse::lemma_run_end_bounds(s, s1 + 2);
        assert(run_end(s, s1 + 1) == run_end(s, s1 + 2));
        crate::parse::lemma_run_digits(s, s1 + 1, fe);
        assert(frac[0] == '.');
        assert(forall|k: int| 1 <= k < frac.len() ==> is_digit(#[trigger] frac[k])) by {
            assert(forall|k: int| 0 <= k < frac.len() ==> frac[k] == s[s1 + k]);
        }
        assert(frac.len() >= 2);
        assert(forall|k: int| 0 <= k < rl ==> t[k] == r[k]);
        assert(forall|k: int| 0 <= k < frac.len() ==> t[rl + k] == frac[k]);
        lemma_run_end_exact(t, 0, rl);
        assert(json_nat_ok(t, 0));
        assert(!at_char(t, 0, '-'));
        assert(json_int_end(t, 0) == rl);
        assert(at_char(t, rl, '.'));
        lemma_run_end_exact(t, rl + 1, t.len() as int);
        assert(run_end(t, rl + 1) == t.len());
        assert(run_end(t, rl + 1) > rl + 1);
        assert(json_num_end(t, 0) == t.len());
    } else {
        assert(t =~= r);
        lemma_run_end_exact(t, 0, t.len() as int);
        assert(json_nat_ok(t, 0));
        assert(!at_char(t, 0, '-'));
        assert(json_int_end(t, 0) == t.len());
        assert(json_num_end(t, 0) == t.len());
    }
}

/// Whatever a wire line decodes to is well-formed, so its JSON document
/// reads back as the very same update: the relay's published payloads are
/// faithful.
pub proof fn lemma_wire_to_json_round_trip(line: Seq<char>)
    ensures
        match crate::parse::wire_decode(line) {
            Some(u) => update_wf(u) && json_decode(json_of_update(u)) == Some(u),
            None => true,
        },
{
    match crate::parse::wire_decode(line) {
        Some(u) => {
            match u {
                UpdateView::Time { timestamp, scale } => {
                    let i = crate::parse::clock_first(line)->Some_0;
                    crate::parse::lemma_clock_first_props(line, 0);
                    lemma_wire_scale_wf(line, i);
                },
                _ => {},
            }
            lemma_json_round_trip(u);
        },
        None => {},
    }
}

} // verus!
