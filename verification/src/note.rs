//! The note codec: decoding one notation token into a typed note event.
//!
//! A token is a short ASCII string. Its first character selects the note
//! family; the remaining characters are positional fields, each a single
//! base-16 digit, except the chain identifier, which is a single base-36
//! digit. A width digit encodes the stored width minus one, so a width
//! digit of `0` means width 1.

use vstd::prelude::*;

verus! {

use vstd::string::StringSliceAdditionalSpecFns;

/// Error produced when a notation token cannot be decoded: the leading
/// character is outside the recognized set, the token is too short for its
/// family, or a positional character is not a valid digit in its base.
#[derive(Clone, Copy, PartialEq, Eq, Structural, Debug)]
pub enum DecodeError {
    InvalidToken,
}

/// One decoded note event. A closed set of variants, each carrying only the
/// fields relevant to that family. `lane` is in `[0, 15]`; `width` is the
/// raw decoded digit plus one, in `[1, 16]`; `id` is a base-36 digit value
/// in `[0, 35]` linking a chain's start, waypoints and end.
#[derive(Clone, Copy, PartialEq, Eq, Structural, Debug)]
pub enum NoteEvent {
    LeftStep { lane: u8, width: u8 },
    RightStep { lane: u8, width: u8 },
    Jump,
    Down,
    LeftHoldStart { id: u8, lane: u8, width: u8 },
    RightHoldStart { id: u8, lane: u8, width: u8 },
    SlideWaypoint { id: u8, lane: u8, width: u8 },
    SlideEnd { id: u8, lane: u8, width: u8 },
    SimpleSkidWaypoint { id: u8, lane: u8, width: u8 },
    SimpleSkidEnd { id: u8, lane: u8, width: u8 },
    ComplexSkidWaypoint { id: u8, lane_start: u8, width_start: u8, lane_end: u8, width_end: u8 },
    ComplexSkidEnd { id: u8, lane_start: u8, width_start: u8, lane_end: u8, width_end: u8 },
}

/// Value of an ASCII byte read as a base-16 digit, or `None` when it is not
/// one.
pub open spec fn hex_digit(c: u8) -> Option<u8> {
    if '0' as u8 <= c <= '9' as u8 {
        Some((c - '0' as u8) as u8)
    } else if 'a' as u8 <= c <= 'f' as u8 {
        Some((c - 'a' as u8 + 10) as u8)
    } else if 'A' as u8 <= c <= 'F' as u8 {
        Some((c - 'A' as u8 + 10) as u8)
    } else {
        None
    }
}

/// Value of an ASCII byte read as a base-36 digit, or `None` when it is not
/// one.
pub open spec fn b36_digit(c: u8) -> Option<u8> {
    if '0' as u8 <= c <= '9' as u8 {
        Some((c - '0' as u8) as u8)
    } else if 'a' as u8 <= c <= 'z' as u8 {
        Some((c - 'a' as u8 + 10) as u8)
    } else if 'A' as u8 <= c <= 'Z' as u8 {
        Some((c - 'A' as u8 + 10) as u8)
    } else {
        None
    }
}

/// What a token with a step-shaped payload (family byte, then lane and
/// width digits) decodes to, given the constructor for its family.
pub open spec fn decode_step(s: Seq<u8>, left: bool) -> Option<NoteEvent> {
    if s.len() >= 3 {
        match (hex_digit(s[1]), hex_digit(s[2])) {
            (Some(lane), Some(w)) => {
                let width = (w + 1) as u8;
                if left {
                    Some(NoteEvent::LeftStep { lane, width })
                } else {
                    Some(NoteEvent::RightStep { lane, width })
                }
            },
            _ => None,
        }
    } else {
        None
    }
}

/// The id, lane and width fields of a single-edge chain token (hold start,
/// slide point, simple skid point), when all three digits are valid.
pub open spec fn chain_fields(s: Seq<u8>) -> Option<(u8, u8, u8)> {
    if s.len() >= 4 {
        match (b36_digit(s[1]), hex_digit(s[2]), hex_digit(s[3])) {
            (Some(id), Some(lane), Some(w)) => Some((id, lane, (w + 1) as u8)),
            _ => None,
        }
    } else {
        None
    }
}

/// The id and the two lane/width edge pairs of a complex-skid token, when
/// all five digits are valid.
pub open spec fn complex_fields(s: Seq<u8>) -> Option<(u8, u8, u8, u8, u8)> {
    if s.len() >= 6 {
        match (b36_digit(s[1]), hex_digit(s[2]), hex_digit(s[3]), hex_digit(s[4]), hex_digit(s[5])) {
            (Some(id), Some(ls), Some(ws), Some(le), Some(we)) => {
                Some((id, ls, (ws + 1) as u8, le, (we + 1) as u8))
            },
            _ => None,
        }
    } else {
        None
    }
}

/// What a notation token decodes to: `None` exactly when decoding must fail.
/// The leading byte selects the family: `0`/`1` step left/right, `2` jump,
/// `3` down, `4`/`5` hold start left/right, `6`/`7` slide waypoint/end,
/// `8`/`A` simple-skid waypoint/end, `9`/`B` complex-skid waypoint/end.
/// Characters beyond the family's fields are ignored.
pub open spec fn decode_spec(s: Seq<u8>) -> Option<NoteEvent> {
    if s.len() == 0 {
        None
    } else if s[0] == '0' as u8 {
        decode_step(s, true)
    } else if s[0] == '1' as u8 {
        decode_step(s, false)
    } else if s[0] == '2' as u8 {
        Some(NoteEvent::Jump)
    } else if s[0] == '3' as u8 {
        Some(NoteEvent::Down)
    } else if s[0] == '4' as u8 {
        match chain_fields(s) {
            Some((id, lane, width)) => Some(NoteEvent::LeftHoldStart { id, lane, width }),
            None => None,
        }
    } else if s[0] == '5' as u8 {
        match chain_fields(s) {
            Some((id, lane, width)) => Some(NoteEvent::RightHoldStart { id, lane, width }),
            None => None,
        }
    } else if s[0] == '6' as u8 {
        match chain_fields(s) {
            Some((id, lane, width)) => Some(NoteEvent::SlideWaypoint { id, lane, width }),
            None => None,
        }
    } else if s[0] == '7' as u8 {
        match chain_fields(s) {
            Some((id, lane, width)) => Some(NoteEvent::SlideEnd { id, lane, width }),
            None => None,
        }
    } else if s[0] == '8' as u8 {
        match chain_fields(s) {
            Some((id, lane, width)) => Some(NoteEvent::SimpleSkidWaypoint { id, lane, width }),
            None => None,
        }
    } else if s[0] == 'A' as u8 {
        match chain_fields(s) {
            Some((id, lane, width)) => Some(NoteEvent::SimpleSkidEnd { id, lane, width }),
            None => None,
        }
    } else if s[0] == '9' as u8 {
        match complex_fields(s) {
            Some((id, lane_start, width_start, lane_end, width_end)) => {
                Some(NoteEvent::ComplexSkidWaypoint { id, lane_start, width_start, lane_end, width_end })
            },
            None => None,
        }
    } else if s[0] == 'B' as u8 {
        match complex_fields(s) {
            Some((id, lane_start, width_start, lane_end, width_end)) => {
                Some(NoteEvent::ComplexSkidEnd { id, lane_start, width_start, lane_end, width_end })
            },
            None => None,
        }
    } else {
        None
    }
}

/// Every lane field of a decoded event is in `[0, 15]` and every width field
/// in `[1, 16]`.
pub open spec fn event_in_range(e: NoteEvent) -> bool {
    match e {
        NoteEvent::LeftStep { lane, width } => lane <= 15 && 1 <= width <= 16,
        NoteEvent::RightStep { lane, width } => lane <= 15 && 1 <= width <= 16,
        NoteEvent::Jump => true,
        NoteEvent::Down => true,
        NoteEvent::LeftHoldStart { id, lane, width } => id <= 35 && lane <= 15 && 1 <= width <= 16,
        NoteEvent::RightHoldStart { id, lane, width } => id <= 35 && lane <= 15 && 1 <= width <= 16,
        NoteEvent::SlideWaypoint { id, lane, width } => id <= 35 && lane <= 15 && 1 <= width <= 16,
        NoteEvent::SlideEnd { id, lane, width } => id <= 35 && lane <= 15 && 1 <= width <= 16,
        NoteEvent::SimpleSkidWaypoint { id, lane, width } => id <= 35 && lane <= 15 && 1 <= width <= 16,
        NoteEvent::SimpleSkidEnd { id, lane, width } => id <= 35 && lane <= 15 && 1 <= width <= 16,
        NoteEvent::ComplexSkidWaypoint { id, lane_start, width_start, lane_end, width_end } => {
            id <= 35 && lane_start <= 15 && 1 <= width_start <= 16 && lane_end <= 15 && 1 <= width_end <= 16
        },
        NoteEvent::ComplexSkidEnd { id, lane_start, width_start, lane_end, width_end } => {
            id <= 35 && lane_start <= 15 && 1 <= width_start <= 16 && lane_end <= 15 && 1 <= width_end <= 16
        },
    }
}

/// Decoding never silently defaults: every successfully decoded event has
/// its lane in `[0, 15]`, its width equal to the stored digit plus one and
/// so in `[1, 16]`, and its id in `[0, 35]`.
pub proof fn lemma_decode_in_range(s: Seq<u8>)
    ensures
        decode_spec(s) matches Some(e) ==> event_in_range(e),
{
}

/// Exec mirror of `hex_digit`.
fn hex_digit_val(c: u8) -> (r: Option<u8>)
    ensures
        r == hex_digit(c),
{
    if '0' as u8 <= c && c <= '9' as u8 {
        Some(c - '0' as u8)
    } else if 'a' as u8 <= c && c <= 'f' as u8 {
        Some(c - 'a' as u8 + 10)
    } else if 'A' as u8 <= c && c <= 'F' as u8 {
        Some(c - 'A' as u8 + 10)
    } else {
        None
    }
}

/// Exec mirror of `b36_digit`.
fn b36_digit_val(c: u8) -> (r: Option<u8>)
    ensures
        r == b36_digit(c),
{
    if '0' as u8 <= c && c <= '9' as u8 {
        Some(c - '0' as u8)
    } else if 'a' as u8 <= c && c <= 'z' as u8 {
        Some(c - 'a' as u8 + 10)
    } else if 'A' as u8 <= c && c <= 'Z' as u8 {
        Some(c - 'A' as u8 + 10)
    } else {
        None
    }
}

/// Decodes one notation token given as raw bytes. Total and deterministic:
/// returns the event that `decode_spec` assigns to the token, and fails
/// exactly when `decode_spec` assigns none.
pub fn decode_token(s: &[u8]) -> (r: Result<NoteEvent, DecodeError>)
    ensures
        r is Ok <==> decode_spec(s@) is Some,
        r matches Ok(e) ==> decode_spec(s@) == Some(e),
        r is Err ==> r == Err::<NoteEvent, DecodeError>(DecodeError::InvalidToken),
{
    if s.len() == 0 {
        return Err(DecodeError::InvalidToken);
    }
    let c = s[0];
    if c == '0' as u8 || c == '1' as u8 {
        if s.len() < 3 {
            return Err(DecodeError::InvalidToken);
        }
        match (hex_digit_val(s[1]), hex_digit_val(s[2])) {
            (Some(lane), Some(w)) => {
                let width = w + 1;
                if c == '0' as u8 {
                    Ok(NoteEvent::LeftStep { lane, width })
                } else {
                    Ok(NoteEvent::RightStep { lane, width })
                }
            },
            _ => Err(DecodeError::InvalidToken),
        }
    } else if c == '2' as u8 {
        Ok(NoteEvent::Jump)
    } else if c == '3' as u8 {
        Ok(NoteEvent::Down)
    } else if c == '4' as u8 || c == '5' as u8 || c == '6' as u8 || c == '7' as u8 || c == '8' as u8
        || c == 'A' as u8 {
        if s.len() < 4 {
            return Err(DecodeError::InvalidToken);
        }
        match (b36_digit_val(s[1]), hex_digit_val(s[2]), hex_digit_val(s[3])) {
            (Some(id), Some(lane), Some(w)) => {
                let width = w + 1;
                if c == '4' as u8 {
                    Ok(NoteEvent::LeftHoldStart { id, lane, width })
                } else if c == '5' as u8 {
                    Ok(NoteEvent::RightHoldStart { id, lane, width })
                } else if c == '6' as u8 {
                    Ok(NoteEvent::SlideWaypoint { id, lane, width })
                } else if c == '7' as u8 {
                    Ok(NoteEvent::SlideEnd { id, lane, width })
                } else if c == '8' as u8 {
                    Ok(NoteEvent::SimpleSkidWaypoint { id, lane, width })
                } else {
                    Ok(NoteEvent::SimpleSkidEnd { id, lane, width })
                }
            },
            _ => Err(DecodeError::InvalidToken),
        }
    } else if c == '9' as u8 || c == 'B' as u8 {
        if s.len() < 6 {
            return Err(DecodeError::InvalidToken);
        }
        match (b36_digit_val(s[1]), hex_digit_val(s[2]), hex_digit_val(s[3]), hex_digit_val(s[4]),
            hex_digit_val(s[5])) {
            (Some(id), Some(lane_start), Some(ws), Some(lane_end), Some(we)) => {
                let width_start = ws + 1;
                let width_end = we + 1;
                if c == '9' as u8 {
                    Ok(NoteEvent::ComplexSkidWaypoint {
                        id,
                        lane_start,
                        width_start,
                        lane_end,
                        width_end,
                    })
                } else {
                    Ok(NoteEvent::ComplexSkidEnd { id, lane_start, width_start, lane_end, width_end })
                }
            },
            _ => Err(DecodeError::InvalidToken),
        }
    } else {
        Err(DecodeError::InvalidToken)
    }
}

impl NoteEvent {
    /// Decodes one notation token. Equivalent to `decode_token` on the
    /// token's bytes.
    pub fn from_string(token: &str) -> (r: Result<NoteEvent, DecodeError>)
        ensures
            r is Ok <==> decode_spec(token.spec_bytes()) is Some,
            r matches Ok(e) ==> decode_spec(token.spec_bytes()) == Some(e),
            r is Err ==> r == Err::<NoteEvent, DecodeError>(DecodeError::InvalidToken),
    {
        decode_token(token.as_bytes())
    }
}

} // verus!
