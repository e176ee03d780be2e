//! Upstream-connector messages and the pure line work of its two loops:
//! what the read loop makes of a raw buffer, and what the write loop puts
//! on the socket.

use vstd::prelude::*;

verus! {

/// One line travelling on the upstream bus: `Send` towards the socket,
/// `Receive` from it.
#[derive(Clone, Debug)]
pub enum JmriMessage {
    Send(String),
    Receive(String),
}

/// Mathematical value of a [`JmriMessage`].
pub enum JmriMessageView {
    Send(Seq<char>),
    Receive(Seq<char>),
}

impl View for JmriMessage {
    type V = JmriMessageView;

    open spec fn view(&self) -> JmriMessageView {
        match self {
            JmriMessage::Send(m) => JmriMessageView::Send(m@),
            JmriMessage::Receive(m) => JmriMessageView::Receive(m@),
        }
    }
}

impl JmriMessage {
    /// A diagnostic rendering: the message text behind a `Send: ` or
    /// `Receive: ` tag.
    pub fn describe(&self) -> (r: String)
        ensures
            r@ == match self@ {
                JmriMessageView::Send(m) => "Send: "@ + m,
                JmriMessageView::Receive(m) => "Receive: "@ + m,
            },
    {
        match self {
            JmriMessage::Send(m) => {
                let mut r = String::from_str("Send: ");
                r.append(m.as_str());
                r
            },
            JmriMessage::Receive(m) => {
                let mut r = String::from_str("Receive: ");
                r.append(m.as_str());
                r
            },
        }
    }
}

/// The fixed line separator of the wire protocol.
pub open spec fn line_sep() -> char {
    '\n'
}

/// What the write loop puts on the socket for one bus message: the line
/// with the separator appended for a `Send`, nothing for a `Receive`.
pub fn send_payload(msg: &JmriMessage) -> (r: Option<String>)
    ensures
        match msg@ {
            JmriMessageView::Send(m) => r matches Some(p) && p@ == m + seq![line_sep()],
            JmriMessageView::Receive(_) => r is None,
        },
{
    match msg {
        JmriMessage::Send(m) => {
            let mut p = m.clone();
            p.append("\n");
            proof {
                reveal_strlit("\n");
                assert("\n"@ =~= seq![line_sep()]);
            }
            Some(p)
        },
        JmriMessage::Receive(_) => None,
    }
}

// ---------------------------------------------------------------------------
// Splitting a raw read buffer into clean line fragments.
// ---------------------------------------------------------------------------

/// ASCII whitespace, as trimmed from line fragments.
pub open spec fn is_space(c: char) -> bool {
    c == ' ' || c == '\t' || c == '\n' || c == '\r' || c == '\u{b}' || c == '\u{c}'
}

pub open spec fn trim_start(p: Seq<char>) -> Seq<char>
    decreases p.len(),
{
    if p.len() > 0 && is_space(p[0]) {
        trim_start(p.drop_first())
    } else {
        p
    }
}

pub open spec fn trim_end(p: Seq<char>) -> Seq<char>
    decreases p.len(),
{
    if p.len() > 0 && is_space(p.last()) {
        trim_end(p.drop_last())
    } else {
        p
    }
}

/// A fragment with leading and trailing whitespace removed.
pub open spec fn trim(p: Seq<char>) -> Seq<char> {
    trim_end(trim_start(p))
}

/// The pieces of a buffer split at every separator (empty pieces kept, as
/// splitting produces them).
pub open spec fn split_pieces(s: Seq<char>) -> Seq<Seq<char>>
    decreases s.len(),
{
    if s.len() == 0 {
        seq![Seq::<char>::empty()]
    } else {
        let rest = split_pieces(s.drop_last());
        if s.last() == line_sep() {
            rest + seq![Seq::<char>::empty()]
        } else {
            rest.update(rest.len() - 1, rest.last() + seq![s.last()])
        }
    }
}

/// Pieces trimmed, empty ones dropped.
pub open spec fn clean_pieces(ps: Seq<Seq<char>>) -> Seq<Seq<char>>
    decreases ps.len(),
{
    if ps.len() == 0 {
        Seq::<Seq<char>>::empty()
    } else {
        clean_pieces(ps.drop_last()) + (if trim(ps.last()).len() > 0 {
            seq![trim(ps.last())]
        } else {
            Seq::<Seq<char>>::empty()
        })
    }
}

/// What the read loop publishes for one raw buffer: the buffer split at
/// the separator, each piece trimmed, empty pieces dropped.
pub open spec fn line_fragments(s: Seq<char>) -> Seq<Seq<char>> {
    clean_pieces(split_pieces(s))
}

fn is_space_c(c: char) -> (b: bool)
    ensures
        b == is_space(c),
{
    c == ' ' || c == '\t' || c == '\n' || c == '\r' || c == '\u{b}' || c == '\u{c}'
}

/// Trims the piece `s[a..b)` in place, returning the trimmed bounds.
fn trim_range(s: &str, n: usize, a: usize, b: usize) -> (r: (usize, usize))
    requires
        n == s@.len(),
        a <= b <= n,
    ensures
        a <= r.0 <= r.1 <= b,
        s@.subrange(r.0 as int, r.1 as int) == trim(s@.subrange(a as int, b as int)),
{
    let mut lo = a;
    while lo < b && is_space_c(s.get_char(lo))
        invariant
            n == s@.len(),
            a <= lo <= b <= n,
            trim_start(s@.subrange(a as int, b as int)) == trim_start(
                s@.subrange(lo as int, b as int),
            ),
        decreases b - lo,
    {
        proof {
            let cur = s@.subrange(lo as int, b as int);
            assert(cur.drop_first() =~= s@.subrange(lo as int + 1, b as int));
        }
        lo += 1;
    }
    proof {
        let cur = s@.subrange(lo as int, b as int);
        assert(trim_start(cur) == cur);
    }
    let mut hi = b;
    while hi > lo && is_space_c(s.get_char(hi - 1))
        invariant
            n == s@.len(),
            a <= lo <= hi <= b <= n,
            trim_start(s@.subrange(a as int, b as int)) == s@.subrange(lo as int, b as int),
            trim_end(s@.subrange(lo as int, b as int)) == trim_end(
                s@.subrange(lo as int, hi as int),
            ),
        decreases hi,
    {
        proof {
            let cur = s@.subrange(lo as int, hi as int);
            assert(cur.drop_last() =~= s@.subrange(lo as int, hi as int - 1));
        }
        hi -= 1;
    }
    proof {
        let cur = s@.subrange(lo as int, hi as int);
        assert(trim_end(cur) == cur);
    }
    (lo, hi)
}

/// Splits one raw read buffer at the line separator, trims each piece and
/// drops the empty ones: exactly what the read loop publishes, one bus
/// message per returned fragment.
pub fn split_line(line: &str) -> (r: Vec<String>)
    ensures
        r.deep_view() == line_fragments(line@),
{
    let n = line.unicode_len();
    let mut out: Vec<String> = Vec::new();
    let ghost mut done: Seq<Seq<char>> = Seq::empty();
    let mut cs: usize = 0;
    let mut k: usize = 0;
    proof {
        assert(split_pieces(line@.take(0)) =~~= done + seq![line@.subrange(0, 0)]);
        assert(out.deep_view() =~~= clean_pieces(done));
    }
    while k < n
        invariant
            n == line@.len(),
            cs <= k <= n,
            split_pieces(line@.take(k as int)) == done + seq![
                line@.subrange(cs as int, k as int),
            ],
            out.deep_view() == clean_pieces(done),
        decreases n - k,
    {
        let c = line.get_char(k);
        proof {
            let prev = line@.take(k as int);
            let next = line@.take(k as int + 1);
            assert(next.drop_last() =~= prev);
            assert(next.last() == c);
        }
        if c == '\n' {
            let piece_done: Ghost<Seq<char>> = Ghost(line@.subrange(cs as int, k as int));
            let (lo, hi) = trim_range(line, n, cs, k);
            if lo < hi {
                let frag = line.substring_char(lo, hi).to_owned();
                out.push(frag);
            }
            proof {
                let next = line@.take(k as int + 1);
                assert(split_pieces(next) =~~= (done + seq![piece_done@]) + seq![
                    line@.subrange(k as int + 1, k as int + 1),
                ]);
                let done2 = done + seq![piece_done@];
                assert(done2.drop_last() =~= done);
                assert(done2.last() == piece_done@);
                assert(clean_pieces(done2) == clean_pieces(done) + (if trim(
                    piece_done@,
                ).len() > 0 {
                    seq![trim(piece_done@)]
                } else {
                    Seq::<Seq<char>>::empty()
                }));
                if trim(piece_done@).len() > 0 {
                    assert(out.deep_view() =~~= clean_pieces(done2));
                } else {
                    assert(out.deep_view() =~~= clean_pieces(done2));
                }
                done = done2;
            }
            cs = k + 1;
        } else {
            proof {
                let prev_pieces = split_pieces(line@.take(k as int));
                let next_pieces = split_pieces(line@.take(k as int + 1));
                assert(prev_pieces.last() == line@.subrange(cs as int, k as int));
                assert(next_pieces =~~= done + seq![line@.subrange(cs as int, k as int + 1)])
                    by {
                    assert(line@.subrange(cs as int, k as int) + seq![c] =~= line@.subrange(
                        cs as int,
                        k as int + 1,
                    ));
                }
            }
        }
        k += 1;
    }
    // Final piece.
    proof {
        assert(line@.take(n as int) =~= line@);
    }
    let piece_done: Ghost<Seq<char>> = Ghost(line@.subrange(cs as int, n as int));
    let (lo, hi) = trim_range(line, n, cs, n);
    if lo < hi {
        let frag = line.substring_char(lo, hi).to_owned();
        out.push(frag);
    }
    proof {
        let done2 = done + seq![piece_done@];
        assert(done2.drop_last() =~= done);
        assert(done2.last() == piece_done@);
        assert(split_pieces(line@) == done2);
        assert(out.deep_view() =~~= clean_pieces(done2));
    }
    out
}

// ---------------------------------------------------------------------------
// Session initiation.
// ---------------------------------------------------------------------------

/// The three fixed session-initiation lines sent once after connecting:
/// the client identification, the client name, and the address
/// subscription.
pub fn session_init_lines(client_id: &str, address: &str) -> (r: Vec<JmriMessage>)
    ensures
        r.len() == 3,
        r[0]@ == JmriMessageView::Send("HU"@ + client_id@),
        r[1]@ == JmriMessageView::Send("NRusty"@),
        r[2]@ == JmriMessageView::Send("MT+"@ + address@ + "<;>"@ + address@),
{
    let mut hello = String::from_str("HU");
    hello.append(client_id);
    let name = String::from_str("NRusty");
    let mut sub = String::from_str("MT+");
    sub.append(address);
    sub.append("<;>");
    sub.append(address);
    let mut r: Vec<JmriMessage> = Vec::new();
    r.push(JmriMessage::Send(hello));
    r.push(JmriMessage::Send(name));
    r.push(JmriMessage::Send(sub));
    r
}

} // verus!
