use ssfseq::note::{DecodeError, NoteEvent};

#[test]
fn decode_left_step() {
    assert_eq!(
        NoteEvent::from_string("0AB"),
        Ok(NoteEvent::LeftStep { lane: 10, width: 12 })
    );
}

#[test]
fn decode_width_digit_zero_is_width_one() {
    assert_eq!(
        NoteEvent::from_string("000"),
        Ok(NoteEvent::LeftStep { lane: 0, width: 1 })
    );
}

#[test]
fn decode_width_digit_f_is_width_sixteen() {
    assert_eq!(
        NoteEvent::from_string("1F0"),
        Ok(NoteEvent::RightStep { lane: 15, width: 1 })
    );
    assert_eq!(
        NoteEvent::from_string("00F"),
        Ok(NoteEvent::LeftStep { lane: 0, width: 16 })
    );
}

#[test]
fn decode_jump_and_down() {
    assert_eq!(NoteEvent::from_string("2"), Ok(NoteEvent::Jump));
    assert_eq!(NoteEvent::from_string("3"), Ok(NoteEvent::Down));
    // trailing characters beyond the family's fields are ignored
    assert_eq!(NoteEvent::from_string("2Z"), Ok(NoteEvent::Jump));
}

#[test]
fn decode_hold_starts() {
    assert_eq!(
        NoteEvent::from_string("4Z0F"),
        Ok(NoteEvent::LeftHoldStart { id: 35, lane: 0, width: 16 })
    );
    assert_eq!(
        NoteEvent::from_string("5a23"),
        Ok(NoteEvent::RightHoldStart { id: 10, lane: 2, width: 4 })
    );
}

#[test]
fn decode_slide_points() {
    assert_eq!(
        NoteEvent::from_string("6000"),
        Ok(NoteEvent::SlideWaypoint { id: 0, lane: 0, width: 1 })
    );
    assert_eq!(
        NoteEvent::from_string("7FFF"),
        Ok(NoteEvent::SlideEnd { id: 15, lane: 15, width: 16 })
    );
}

#[test]
fn decode_simple_skid_points() {
    assert_eq!(
        NoteEvent::from_string("8123"),
        Ok(NoteEvent::SimpleSkidWaypoint { id: 1, lane: 2, width: 4 })
    );
    assert_eq!(
        NoteEvent::from_string("A056"),
        Ok(NoteEvent::SimpleSkidEnd { id: 0, lane: 5, width: 7 })
    );
}

#[test]
fn decode_complex_skid_points() {
    assert_eq!(
        NoteEvent::from_string("91234F"),
        Ok(NoteEvent::ComplexSkidWaypoint {
            id: 1,
            lane_start: 2,
            width_start: 4,
            lane_end: 4,
            width_end: 16
        })
    );
    assert_eq!(
        NoteEvent::from_string("B00000"),
        Ok(NoteEvent::ComplexSkidEnd {
            id: 0,
            lane_start: 0,
            width_start: 1,
            lane_end: 0,
            width_end: 1
        })
    );
}

#[test]
fn decode_rejects_unknown_leading_character() {
    assert_eq!(NoteEvent::from_string("X00"), Err(DecodeError::InvalidToken));
    // the simple-skid end family byte is upper case only
    assert_eq!(NoteEvent::from_string("a056"), Err(DecodeError::InvalidToken));
    assert_eq!(NoteEvent::from_string(""), Err(DecodeError::InvalidToken));
}

#[test]
fn decode_rejects_bad_digits_and_short_tokens() {
    assert_eq!(NoteEvent::from_string("0G1"), Err(DecodeError::InvalidToken));
    assert_eq!(NoteEvent::from_string("0"), Err(DecodeError::InvalidToken));
    assert_eq!(NoteEvent::from_string("4"), Err(DecodeError::InvalidToken));
    assert_eq!(NoteEvent::from_string("4@12"), Err(DecodeError::InvalidToken));
    assert_eq!(NoteEvent::from_string("90000"), Err(DecodeError::InvalidToken));
}

#[test]
fn decode_token_matches_from_string() {
    assert_eq!(
        ssfseq::note::decode_token(b"0AB"),
        Ok(NoteEvent::LeftStep { lane: 10, width: 12 })
    );
}
