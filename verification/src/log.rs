//! One line of the message log for each decoded RTCM3 message.
use vstd::prelude::*;
use crate::rtcm::{RtcmEvent, RtcmObs, sys_name, spec_sys_name};
use crate::text::{
    pad_left, spec_dec, spec_int, spec_join, push_dec, push_int, push_str, push_char, is_dec_char,
    numeral_value, law_decimal_numeral, law_zero_padding_keeps_value,
};

verus! {

/// Summary of a decoded RTCM3 message for the inspector log.
#[derive(Clone, Debug)]
pub struct RtcmMessageLog {
    pub msg_type: i32,
    pub msg_desc: String,
    pub detail: String,
}

/// A satellite as system name and two-digit number, such as `GPS05`.
pub open spec fn sat_label(sys: u8, prn: u8) -> Seq<char> {
    spec_sys_name(sys) + pad_left(spec_dec(prn as nat), 2, '0')
}

/// The labels of the observed satellites, in order.
pub open spec fn sat_labels(obs: Seq<RtcmObs>) -> Seq<Seq<char>> {
    obs.map_values(|o: RtcmObs| sat_label(o.sys, o.prn))
}

/// The detail text of the log line for `event`; `station_pos` is the
/// station position as the caller rendered it (used for station events only).
pub open spec fn spec_detail(event: RtcmEvent, station_pos: Seq<char>) -> Seq<char> {
    match event {
        RtcmEvent::Observation { observations, .. } => spec_dec(observations@.len()) + seq![
            ' ',
            's',
            'a',
            't',
            's',
            ':',
            ' ',
        ] + spec_join(sat_labels(observations@), seq![' ']),
        RtcmEvent::Ephemeris { summary, .. } => sat_label(summary.sys, summary.prn) + seq![
            ' ',
            'I',
            'O',
            'D',
            'E',
            '=',
        ] + spec_int(summary.iode as int),
        RtcmEvent::Station { staid, antdes, .. } => seq!['I', 'D', '='] + spec_int(staid as int)
            + seq![' ', 'p', 'o', 's', '=', '('] + station_pos + seq![')', ' ', 'a', 'n', 't', '=']
            + antdes@,
        RtcmEvent::Synced { .. } => seq![
            '(',
            's',
            'y',
            'n',
            'c',
            '=',
            '1',
            ',',
            ' ',
            'm',
            'o',
            'r',
            'e',
            ' ',
            'f',
            'o',
            'l',
            'l',
            'o',
            'w',
            ')',
        ],
        RtcmEvent::Ssr { .. } => seq![
            'S',
            'S',
            'R',
            ' ',
            'c',
            'o',
            'r',
            'r',
            'e',
            'c',
            't',
            'i',
            'o',
            'n',
        ],
        RtcmEvent::Other { ret, .. } => seq!['r', 'e', 't', '='] + spec_int(ret as int),
    }
}

/// Each satellite of an observation message is labelled by its record's
/// system name (three characters) followed by its PRN as a decimal numeral of
/// at least two digits; no other field of the record takes part.
pub proof fn law_sat_label(obs: Seq<RtcmObs>, i: int)
    requires
        0 <= i < obs.len(),
    ensures
        sat_labels(obs)[i] == spec_sys_name(obs[i].sys) + pad_left(
            spec_dec(obs[i].prn as nat),
            2,
            '0',
        ),
        sat_labels(obs)[i].take(3) == spec_sys_name(obs[i].sys),
        sat_labels(obs)[i].len() >= 5,
        forall|j: int|
            3 <= j < sat_labels(obs)[i].len() ==> is_dec_char(#[trigger] sat_labels(obs)[i][j]),
        numeral_value(sat_labels(obs)[i].skip(3), 10) == obs[i].prn,
{
    let o = obs[i];
    let name = spec_sys_name(o.sys);
    let num = pad_left(spec_dec(o.prn as nat), 2, '0');
    let label = sat_labels(obs)[i];
    assert(label == name + num);
    assert(name.len() == 3);
    law_decimal_numeral(o.prn as nat);
    law_zero_padding_keeps_value(spec_dec(o.prn as nat), 2, 10);
    assert(label.take(3) =~= name);
    assert(label.skip(3) =~= num);
    let z = num.len() - spec_dec(o.prn as nat).len();
    assert forall|j: int| 3 <= j < label.len() implies is_dec_char(#[trigger] label[j]) by {
        assert(label[j] == num[j - 3]);
        if j - 3 >= z {
            assert(num[j - 3] == num.skip(z)[j - 3 - z]);
            assert(num.skip(z)[j - 3 - z] == spec_dec(o.prn as nat)[j - 3 - z]);
        }
    }
}

/// The detail of an observation message depends only on the system and PRN
/// of each record: records that agree on those give the same detail, whatever
/// their other fields (satellite index, measurements, codes) hold.
pub proof fn law_detail_uses_only_sys_and_prn(
    e1: RtcmEvent,
    e2: RtcmEvent,
    pos1: Seq<char>,
    pos2: Seq<char>,
)
    requires
        e1 is Observation,
        e2 is Observation,
        e1->observations@.len() == e2->observations@.len(),
        forall|i: int|
            0 <= i < e1->observations@.len() ==> (#[trigger] e1->observations@[i]).sys
                == e2->observations@[i].sys && e1->observations@[i].prn
                == e2->observations@[i].prn,
    ensures
        spec_detail(e1, pos1) == spec_detail(e2, pos2),
{
    let o1 = e1->observations@;
    let o2 = e2->observations@;
    assert forall|i: int| 0 <= i < o1.len() implies sat_labels(o1)[i] == sat_labels(o2)[i] by {
        assert(o1[i].sys == o2[i].sys && o1[i].prn == o2[i].prn);
    }
    assert(sat_labels(o1) =~= sat_labels(o2));
}

fn push_sat_label(s: &mut String, sys: u8, prn: u8)
    ensures
        final(s)@ == old(s)@ + sat_label(sys, prn),
{
    push_str(s, sys_name(sys));
    push_dec(s, prn as u64, 2, '0');
}

fn observation_detail(observations: &Vec<RtcmObs>) -> (d: String)
    ensures
        d@ == spec_dec(observations@.len()) + seq![' ', 's', 'a', 't', 's', ':', ' ']
            + spec_join(sat_labels(observations@), seq![' ']),
{
    let mut d = String::new();
    push_dec(&mut d, observations.len() as u64, 0, ' ');
    proof {
        reveal_strlit(" sats: ");
    }
    push_str(&mut d, " sats: ");
    let ghost head = d@;
    let mut i: usize = 0;
    while i < observations.len()
        invariant
            i <= observations.len(),
            d@ == head + spec_join(sat_labels(observations@.take(i as int)), seq![' ']),
        decreases observations.len() - i,
    {
        let o = observations[i];
        let ghost before = d@;
        if i > 0 {
            push_char(&mut d, ' ');
        }
        push_sat_label(&mut d, o.sys, o.prn);
        assert(sat_labels(observations@.take(i + 1)).drop_last() =~= sat_labels(
            observations@.take(i as int),
        ));
        assert(sat_labels(observations@.take(i + 1)).last() == sat_label(o.sys, o.prn));
        if i > 0 {
            assert(d@ =~= head + (spec_join(sat_labels(observations@.take(i as int)), seq![' '])
                + seq![' '] + sat_label(o.sys, o.prn)));
        } else {
            assert(d@ =~= head + sat_label(o.sys, o.prn));
        }
        i = i + 1;
    }
    assert(observations@.take(observations.len() as int) =~= observations@);
    d
}

/// Summarises a decoded message for the log: its type, description and a
/// detail text chosen by kind (see `spec_detail`). `station_pos` is the
/// station position as the caller rendered it; it is used for station
/// events only.
pub fn rtcm_event_to_log(event: &RtcmEvent, station_pos: &str) -> (log: RtcmMessageLog)
    ensures
        log.msg_type == event.msg_type_of(),
        log.msg_desc@ == event.msg_desc_of(),
        log.detail@ == spec_detail(*event, station_pos@),
{
    match event {
        RtcmEvent::Observation { msg_type, msg_desc, observations } => RtcmMessageLog {
            msg_type: *msg_type,
            msg_desc: msg_desc.clone(),
            detail: observation_detail(observations),
        },
        RtcmEvent::Ephemeris { msg_type, msg_desc, summary } => {
            let mut detail = String::new();
            push_sat_label(&mut detail, summary.sys, summary.prn);
            proof {
                reveal_strlit(" IODE=");
            }
            push_str(&mut detail, " IODE=");
            push_int(&mut detail, summary.iode as i64);
            RtcmMessageLog { msg_type: *msg_type, msg_desc: msg_desc.clone(), detail }
        },
        RtcmEvent::Station { msg_type, msg_desc, staid, antdes, .. } => {
            let mut detail = String::new();
            proof {
                reveal_strlit("ID=");
                reveal_strlit(" pos=(");
                reveal_strlit(") ant=");
            }
            push_str(&mut detail, "ID=");
            push_int(&mut detail, *staid as i64);
            push_str(&mut detail, " pos=(");
            push_str(&mut detail, station_pos);
            push_str(&mut detail, ") ant=");
            push_str(&mut detail, antdes.as_str());
            RtcmMessageLog { msg_type: *msg_type, msg_desc: msg_desc.clone(), detail }
        },
        RtcmEvent::Synced { msg_type, msg_desc } => {
            let mut detail = String::new();
            proof {
                reveal_strlit("(sync=1, more follow)");
            }
            push_str(&mut detail, "(sync=1, more follow)");
            RtcmMessageLog { msg_type: *msg_type, msg_desc: msg_desc.clone(), detail }
        },
        RtcmEvent::Ssr { msg_type, msg_desc } => {
            let mut detail = String::new();
            proof {
                reveal_strlit("SSR correction");
            }
            push_str(&mut detail, "SSR correction");
            RtcmMessageLog { msg_type: *msg_type, msg_desc: msg_desc.clone(), detail }
        },
        RtcmEvent::Other { msg_type, msg_desc, ret } => {
            let mut detail = String::new();
            proof {
                reveal_strlit("ret=");
            }
            push_str(&mut detail, "ret=");
            push_int(&mut detail, *ret as i64);
            RtcmMessageLog { msg_type: *msg_type, msg_desc: msg_desc.clone(), detail }
        },
    }
}

} // verus!
