//! Outbound command encoder: one decoded update becomes zero or one
//! upstream command string, which may join two logical commands with the
//! line separator.

use vstd::prelude::*;
use crate::dcc::{direction_token, Direction};
use crate::jmri::{line_sep, JmriMessage, JmriMessageView};
use crate::numfmt::{dec_digits, int_text, i16_text, u8_text};
use crate::parse::{Update, UpdateView};

verus! {

/// The command text an update encodes to, or nothing: a function-set for a
/// function update; a velocity-set then a velocity-query for a velocity
/// update; a direction-set then a direction-query for a direction update;
/// nothing for a clock update (clock changes are never echoed upstream).
pub open spec fn request_text(address: Seq<char>, u: UpdateView) -> Option<Seq<char>> {
    match u {
        UpdateView::Function { num, is_on } => Some(
            "MTA"@ + address + "<;>F"@ + (if is_on {
                "1"@
            } else {
                "0"@
            }) + dec_digits(num as nat),
        ),
        UpdateView::Velocity(v) => Some(
            "MTA"@ + address + "<;>V"@ + int_text(v as int) + seq![line_sep()] + "MTA"@ + address
                + "<;>qV"@,
        ),
        UpdateView::Direction(d) => Some(
            "MTA"@ + address + "<;>"@ + direction_token(d) + seq![line_sep()] + "MTA"@ + address
                + "<;>vR"@,
        ),
        UpdateView::Time { .. } => None,
    }
}

/// Encodes one update as an upstream `Send` command for `address`, or
/// nothing when the update is never forwarded.
pub fn make_jmri_request(address: &str, update: &Update) -> (r: Option<JmriMessage>)
    ensures
        match request_text(address@, update@) {
            Some(t) => r matches Some(m) && m@ == JmriMessageView::Send(t),
            None => r is None,
        },
{
    proof {
        reveal_strlit("MTA");
        reveal_strlit("<;>F");
        reveal_strlit("<;>V");
        reveal_strlit("<;>");
        reveal_strlit("<;>qV");
        reveal_strlit("<;>vR");
        reveal_strlit("1");
        reveal_strlit("0");
        reveal_strlit("\n");
    }
    match update {
        Update::Function { num, is_on } => {
            let mut s = String::from_str("MTA");
            s.append(address);
            s.append("<;>F");
            s.append(if *is_on {
                "1"
            } else {
                "0"
            });
            s.append(u8_text(*num).as_str());
            proof {
                assert(s@ =~= "MTA"@ + address@ + "<;>F"@ + (if *is_on {
                    "1"@
                } else {
                    "0"@
                }) + dec_digits(*num as nat));
            }
            Some(JmriMessage::Send(s))
        },
        Update::Velocity(v) => {
            let mut s = String::from_str("MTA");
            s.append(address);
            s.append("<;>V");
            s.append(i16_text(*v).as_str());
            s.append("\n");
            s.append("MTA");
            s.append(address);
            s.append("<;>qV");
            proof {
                assert("\n"@ =~= seq![line_sep()]);
                assert(s@ =~= "MTA"@ + address@ + "<;>V"@ + int_text(*v as int) + seq![
                    line_sep(),
                ] + "MTA"@ + address@ + "<;>qV"@);
            }
            Some(JmriMessage::Send(s))
        },
        Update::Direction(d) => {
            let mut s = String::from_str("MTA");
            s.append(address);
            s.append("<;>");
            s.append(d.token());
            s.append("\n");
            s.append("MTA");
            s.append(address);
            s.append("<;>vR");
            proof {
                assert("\n"@ =~= seq![line_sep()]);
                assert(s@ =~= "MTA"@ + address@ + "<;>"@ + direction_token(*d) + seq![
                    line_sep(),
                ] + "MTA"@ + address@ + "<;>vR"@);
            }
            Some(JmriMessage::Send(s))
        },
        Update::Time { .. } => None,
    }
}

} // verus!
