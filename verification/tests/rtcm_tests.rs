use rtcm_view::rtcm::{
    c_char_to_string, decode_step, message_event, pair_counts, sys_name, DecodeStep, FetchedData,
    RtcmDecodeResult, RtcmEphSummary, RtcmEvent, RtcmObs, RtcmSta,
};

fn c_buf<const N: usize>(s: &[u8]) -> [i8; N] {
    let mut b = [0i8; N];
    for (i, c) in s.iter().enumerate() {
        b[i] = *c as i8;
    }
    b
}

fn obs(sys: u8, prn: u8) -> RtcmObs {
    RtcmObs {
        time_sec_bits: 1.5f64.to_bits(),
        frac_sec_bits: 0.25f64.to_bits(),
        sat: prn,
        sys,
        prn,
        code: [1, 2, 3],
        p_bits: [2.0e7f64.to_bits(); 3],
        l_bits: [1.0e8f64.to_bits(); 3],
        d_bits: [100.0f32.to_bits(); 3],
        snr_bits: [45.0f32.to_bits(); 3],
        lli: [0; 3],
    }
}

fn result(ret: i32, msg_type: i32, desc: &[u8]) -> RtcmDecodeResult {
    RtcmDecodeResult { ret, msg_type, msg_type_str: c_buf::<256>(desc) }
}

fn summary() -> RtcmEphSummary {
    RtcmEphSummary { sat: 40, sys: 0x04, prn: 7, iode: 55, svh: 0, toe_sec_bits: 3600.0f64.to_bits() }
}

fn station() -> RtcmSta {
    RtcmSta {
        staid: 1234,
        pos_bits: [1.0f64.to_bits(), 2.0f64.to_bits(), 3.0f64.to_bits()],
        hgt_bits: 0.5f64.to_bits(),
        antdes: c_buf::<64>(b"TRM59800.00"),
        antsno: c_buf::<64>(b"12345"),
        rectype: c_buf::<64>(b"SEPT POLARX5"),
        recver: c_buf::<64>(b"5.4"),
    }
}

#[test]
fn sys_names_of_all_codes() {
    assert_eq!(sys_name(0x01), "GPS");
    assert_eq!(sys_name(0x04), "GLO");
    assert_eq!(sys_name(0x08), "GAL");
    assert_eq!(sys_name(0x10), "QZS");
    assert_eq!(sys_name(0x20), "BDS");
    assert_eq!(sys_name(0x40), "IRN");
    assert_eq!(sys_name(0x02), "SBS");
    assert_eq!(sys_name(0x00), "???");
    assert_eq!(sys_name(0x03), "???");
    assert_eq!(sys_name(0x80), "???");
}

#[test]
fn c_string_stops_at_nul() {
    let buf: [i8; 8] = [b'A' as i8, b'D' as i8, b'V' as i8, 0, b'X' as i8, b'Y' as i8, 0, 0];
    assert_eq!(c_char_to_string(&buf), "ADV");
}

#[test]
fn c_string_without_nul_takes_everything() {
    let buf: [i8; 3] = [b'a' as i8, b'b' as i8, b'c' as i8];
    assert_eq!(c_char_to_string(&buf), "abc");
}

#[test]
fn c_string_empty() {
    assert_eq!(c_char_to_string(&[0i8, 65]), "");
    assert_eq!(c_char_to_string(&[]), "");
}

#[test]
fn c_string_decodes_utf8_and_replaces_invalid_bytes() {
    let valid: Vec<i8> = "Gr\u{fc}n".bytes().map(|b| b as i8).chain([0i8]).collect();
    assert_eq!(c_char_to_string(&valid), "Gr\u{fc}n");
    let invalid: [i8; 4] = [b'a' as i8, 0xffu8 as i8, b'b' as i8, 0];
    assert_eq!(c_char_to_string(&invalid), "a\u{fffd}b");
}

#[test]
fn decode_steps_by_return_code() {
    assert_eq!(decode_step(-1), DecodeStep::NoMessage);
    assert_eq!(decode_step(0), DecodeStep::NoMessage);
    assert_eq!(decode_step(1), DecodeStep::Observations);
    assert_eq!(decode_step(2), DecodeStep::Ephemeris);
    assert_eq!(decode_step(5), DecodeStep::Station);
    assert_eq!(decode_step(10), DecodeStep::Ssr);
    assert_eq!(decode_step(20), DecodeStep::Ssr);
    assert_eq!(decode_step(3), DecodeStep::Other);
    assert_eq!(decode_step(9), DecodeStep::Other);
    assert_eq!(decode_step(31), DecodeStep::Other);
}

#[test]
fn no_message_gives_no_event() {
    assert!(message_event(&result(0, 1005, b"RTCM 1005"), FetchedData::Nothing).is_none());
    assert!(message_event(&result(-1, 0, b""), FetchedData::Nothing).is_none());
}

#[test]
fn observation_event_keeps_successful_fetches_in_order() {
    let fetched = vec![(1, obs(0x01, 5)), (0, obs(0x04, 9)), (1, obs(0x08, 11))];
    let ev = message_event(&result(1, 1077, b"RTCM 1077 GPS MSM7"), FetchedData::Observations(fetched));
    match ev {
        Some(RtcmEvent::Observation { msg_type, msg_desc, observations }) => {
            assert_eq!(msg_type, 1077);
            assert_eq!(msg_desc, "RTCM 1077 GPS MSM7");
            assert_eq!(observations.len(), 2);
            assert_eq!((observations[0].sys, observations[0].prn), (0x01, 5));
            assert_eq!((observations[1].sys, observations[1].prn), (0x08, 11));
            assert_eq!(f64::from_bits(observations[0].p_bits[0]), 2.0e7);
        }
        other => panic!("unexpected {:?}", other),
    }
}

#[test]
fn observation_event_without_records() {
    let ev = message_event(&result(1, 1004, b"RTCM 1004"), FetchedData::Nothing);
    match ev {
        Some(RtcmEvent::Observation { observations, .. }) => assert!(observations.is_empty()),
        other => panic!("unexpected {:?}", other),
    }
}

#[test]
fn ephemeris_event_when_fetch_succeeds() {
    let ev = message_event(&result(2, 1020, b"RTCM 1020"), FetchedData::Ephemeris(1, summary()));
    match ev {
        Some(RtcmEvent::Ephemeris { msg_type, msg_desc, summary }) => {
            assert_eq!(msg_type, 1020);
            assert_eq!(msg_desc, "RTCM 1020");
            assert_eq!((summary.sys, summary.prn, summary.iode), (0x04, 7, 55));
        }
        other => panic!("unexpected {:?}", other),
    }
}

#[test]
fn ephemeris_event_falls_back_to_other_when_fetch_fails() {
    let ev = message_event(&result(2, 1019, b"RTCM 1019"), FetchedData::Ephemeris(0, summary()));
    match ev {
        Some(RtcmEvent::Other { msg_type, ret, .. }) => {
            assert_eq!(msg_type, 1019);
            assert_eq!(ret, 2);
        }
        other => panic!("unexpected {:?}", other),
    }
}

#[test]
fn station_event_when_fetch_succeeds() {
    let ev = message_event(&result(5, 1006, b"RTCM 1006"), FetchedData::Station(1, station()));
    match ev {
        Some(RtcmEvent::Station { msg_type, staid, pos_bits, hgt_bits, antdes, rectype, .. }) => {
            assert_eq!(msg_type, 1006);
            assert_eq!(staid, 1234);
            assert_eq!(f64::from_bits(pos_bits[2]), 3.0);
            assert_eq!(f64::from_bits(hgt_bits), 0.5);
            assert_eq!(antdes, "TRM59800.00");
            assert_eq!(rectype, "SEPT POLARX5");
        }
        other => panic!("unexpected {:?}", other),
    }
}

#[test]
fn station_event_falls_back_to_other_when_fetch_fails() {
    let ev = message_event(&result(5, 1033, b"RTCM 1033"), FetchedData::Station(0, station()));
    assert!(matches!(ev, Some(RtcmEvent::Other { ret: 5, msg_type: 1033, .. })));
}

#[test]
fn ssr_and_other_events() {
    let ev = message_event(&result(10, 1060, b"RTCM 1060"), FetchedData::Nothing);
    assert!(matches!(ev, Some(RtcmEvent::Ssr { msg_type: 1060, .. })));
    let ev = message_event(&result(20, 1243, b"RTCM 1243"), FetchedData::Nothing);
    assert!(matches!(ev, Some(RtcmEvent::Ssr { msg_type: 1243, .. })));
    let ev = message_event(&result(9, 1230, b"RTCM 1230"), FetchedData::Nothing);
    match ev {
        Some(RtcmEvent::Other { msg_type, msg_desc, ret }) => {
            assert_eq!((msg_type, ret), (1230, 9));
            assert_eq!(msg_desc, "RTCM 1230");
        }
        other => panic!("unexpected {:?}", other),
    }
}

#[test]
fn pair_counts_takes_first_entries() {
    let types = [1005, 1077, 1087, 0];
    let counts = [3u32, 10, 7, 99];
    assert_eq!(pair_counts(&types, &counts, 3), vec![(1005, 3), (1077, 10), (1087, 7)]);
    assert_eq!(pair_counts(&types, &counts, 0), vec![]);
}

#[test]
fn c_string_never_holds_nul() {
    let buf: [i8; 6] = [0xc3u8 as i8, 0x28, b'x' as i8, 0, b'y' as i8, 0];
    let s = c_char_to_string(&buf);
    assert!(!s.contains('\0'));
    assert_eq!(s, "\u{fffd}(x");
}
