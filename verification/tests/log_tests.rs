use rtcm_view::log::rtcm_event_to_log;
use rtcm_view::rtcm::{RtcmEphSummary, RtcmEvent, RtcmObs};

fn obs(sys: u8, prn: u8) -> RtcmObs {
    RtcmObs {
        time_sec_bits: 0,
        frac_sec_bits: 0,
        sat: prn,
        sys,
        prn,
        code: [0; 3],
        p_bits: [0; 3],
        l_bits: [0; 3],
        d_bits: [0; 3],
        snr_bits: [0; 3],
        lli: [0; 3],
    }
}

#[test]
fn observation_log_lists_satellites() {
    let ev = RtcmEvent::Observation {
        msg_type: 1077,
        msg_desc: "RTCM 1077".to_string(),
        observations: vec![obs(0x01, 5), obs(0x04, 12), obs(0x20, 101)],
    };
    let log = rtcm_event_to_log(&ev, "");
    assert_eq!(log.msg_type, 1077);
    assert_eq!(log.msg_desc, "RTCM 1077");
    assert_eq!(log.detail, "3 sats: GPS05 GLO12 BDS101");
}

#[test]
fn observation_log_without_satellites() {
    let ev = RtcmEvent::Observation { msg_type: 1004, msg_desc: String::new(), observations: vec![] };
    assert_eq!(rtcm_event_to_log(&ev, "").detail, "0 sats: ");
}

#[test]
fn ephemeris_log() {
    let ev = RtcmEvent::Ephemeris {
        msg_type: 1045,
        msg_desc: "RTCM 1045".to_string(),
        summary: RtcmEphSummary { sat: 3, sys: 0x08, prn: 3, iode: 42, svh: 0, toe_sec_bits: 0 },
    };
    let log = rtcm_event_to_log(&ev, "");
    assert_eq!(log.detail, "GAL03 IODE=42");
}

#[test]
fn ephemeris_log_negative_iode_and_unknown_system() {
    let ev = RtcmEvent::Ephemeris {
        msg_type: 1019,
        msg_desc: String::new(),
        summary: RtcmEphSummary { sat: 3, sys: 0x03, prn: 0, iode: -7, svh: 0, toe_sec_bits: 0 },
    };
    assert_eq!(rtcm_event_to_log(&ev, "").detail, "???00 IODE=-7");
}

#[test]
fn station_log_uses_rendered_position() {
    let ev = RtcmEvent::Station {
        msg_type: 1006,
        msg_desc: "RTCM 1006".to_string(),
        staid: 1234,
        pos_bits: [0; 3],
        hgt_bits: 0,
        antdes: "TRM59800.00".to_string(),
        rectype: "SEPT".to_string(),
    };
    let log = rtcm_event_to_log(&ev, "-3950000.1,3350000.2,3700000.3");
    assert_eq!(log.detail, "ID=1234 pos=(-3950000.1,3350000.2,3700000.3) ant=TRM59800.00");
}

#[test]
fn synced_ssr_and_other_logs() {
    let ev = RtcmEvent::Synced { msg_type: 1074, msg_desc: "RTCM 1074".to_string() };
    assert_eq!(rtcm_event_to_log(&ev, "").detail, "(sync=1, more follow)");
    let ev = RtcmEvent::Ssr { msg_type: 1060, msg_desc: "RTCM 1060".to_string() };
    let log = rtcm_event_to_log(&ev, "ignored");
    assert_eq!(log.detail, "SSR correction");
    assert_eq!(log.msg_type, 1060);
    let ev = RtcmEvent::Other { msg_type: 1230, msg_desc: "RTCM 1230".to_string(), ret: 9 };
    assert_eq!(rtcm_event_to_log(&ev, "").detail, "ret=9");
}
