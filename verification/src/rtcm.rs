//! What the RTCM3 decoder hands out, modelled as plain values, and the
//! decisions taken on each decoder result.
//!
//! Floating-point quantities of the decoder (times, pseudoranges, carrier
//! phases, Doppler, signal strength, positions) are carried as their
//! IEEE-754 bit patterns (`f64::to_bits` / `f32::to_bits`), so that no value
//! is lost while nothing here computes on them.
use vstd::prelude::*;
use vstd::utf8::{valid_utf8, decode_utf8};

verus! {

/// One observation record of the decoder.
#[derive(Clone, Copy, Debug)]
pub struct RtcmObs {
    /// Observation time, whole seconds (bit pattern of an `f64`).
    pub time_sec_bits: u64,
    /// Observation time, fraction of a second (bit pattern of an `f64`).
    pub frac_sec_bits: u64,
    pub sat: u8,
    pub sys: u8,
    pub prn: u8,
    pub code: [u8; 3],
    /// Pseudoranges (bit patterns of `f64`).
    pub p_bits: [u64; 3],
    /// Carrier phases (bit patterns of `f64`).
    pub l_bits: [u64; 3],
    /// Doppler (bit patterns of `f32`).
    pub d_bits: [u32; 3],
    /// Signal strength (bit patterns of `f32`).
    pub snr_bits: [u32; 3],
    pub lli: [u8; 3],
}

/// Station information of the decoder; the texts are NUL-terminated C strings.
#[derive(Clone, Copy)]
pub struct RtcmSta {
    pub staid: i32,
    /// Station position (bit patterns of `f64`).
    pub pos_bits: [u64; 3],
    /// Antenna height (bit pattern of an `f64`).
    pub hgt_bits: u64,
    pub antdes: [i8; 64],
    pub antsno: [i8; 64],
    pub rectype: [i8; 64],
    pub recver: [i8; 64],
}

/// Ephemeris summary of the decoder.
#[derive(Clone, Copy, Debug)]
pub struct RtcmEphSummary {
    pub sat: u8,
    pub sys: u8,
    pub prn: u8,
    pub iode: i32,
    pub svh: i32,
    /// Time of ephemeris (bit pattern of an `f64`).
    pub toe_sec_bits: u64,
}

/// What the decoder reports after each input byte.
#[derive(Clone, Copy)]
pub struct RtcmDecodeResult {
    pub ret: i32,
    pub msg_type: i32,
    /// NUL-terminated description of the message type.
    pub msg_type_str: [i8; 256],
}

/// A decoded RTCM3 message.
#[derive(Clone, Debug)]
pub enum RtcmEvent {
    /// Observation data decoded.
    Observation { msg_type: i32, msg_desc: String, observations: Vec<RtcmObs> },
    /// Ephemeris decoded.
    Ephemeris { msg_type: i32, msg_desc: String, summary: RtcmEphSummary },
    /// Station information decoded.
    Station {
        msg_type: i32,
        msg_desc: String,
        staid: i32,
        pos_bits: [u64; 3],
        hgt_bits: u64,
        antdes: String,
        rectype: String,
    },
    /// Observation message with more of the same epoch to follow.
    Synced { msg_type: i32, msg_desc: String },
    /// SSR correction decoded.
    Ssr { msg_type: i32, msg_desc: String },
    /// Any other decoded message (the decoder's non-zero return code).
    Other { msg_type: i32, msg_desc: String, ret: i32 },
}

impl RtcmEvent {
    /// The RTCM message type number of the event.
    pub open spec fn msg_type_of(&self) -> i32 {
        match self {
            RtcmEvent::Observation { msg_type, .. } => *msg_type,
            RtcmEvent::Ephemeris { msg_type, .. } => *msg_type,
            RtcmEvent::Station { msg_type, .. } => *msg_type,
            RtcmEvent::Synced { msg_type, .. } => *msg_type,
            RtcmEvent::Ssr { msg_type, .. } => *msg_type,
            RtcmEvent::Other { msg_type, .. } => *msg_type,
        }
    }

    /// The description of the message type.
    pub open spec fn msg_desc_of(&self) -> Seq<char> {
        match self {
            RtcmEvent::Observation { msg_desc, .. } => msg_desc@,
            RtcmEvent::Ephemeris { msg_desc, .. } => msg_desc@,
            RtcmEvent::Station { msg_desc, .. } => msg_desc@,
            RtcmEvent::Synced { msg_desc, .. } => msg_desc@,
            RtcmEvent::Ssr { msg_desc, .. } => msg_desc@,
            RtcmEvent::Other { msg_desc, .. } => msg_desc@,
        }
    }
}

/// Name of a satellite system code.
pub open spec fn spec_sys_name(sys: u8) -> Seq<char> {
    if sys == 0x01 {
        seq!['G', 'P', 'S']
    } else if sys == 0x04 {
        seq!['G', 'L', 'O']
    } else if sys == 0x08 {
        seq!['G', 'A', 'L']
    } else if sys == 0x10 {
        seq!['Q', 'Z', 'S']
    } else if sys == 0x20 {
        seq!['B', 'D', 'S']
    } else if sys == 0x40 {
        seq!['I', 'R', 'N']
    } else if sys == 0x02 {
        seq!['S', 'B', 'S']
    } else {
        seq!['?', '?', '?']
    }
}

/// Satellite system name from sys code.
pub fn sys_name(sys: u8) -> (name: &'static str)
    ensures
        name@ == spec_sys_name(sys),
{
    match sys {
        0x01 => {
            proof {
                reveal_strlit("GPS");
            }
            "GPS"
        },
        0x04 => {
            proof {
                reveal_strlit("GLO");
            }
            "GLO"
        },
        0x08 => {
            proof {
                reveal_strlit("GAL");
            }
            "GAL"
        },
        0x10 => {
            proof {
                reveal_strlit("QZS");
            }
            "QZS"
        },
        0x20 => {
            proof {
                reveal_strlit("BDS");
            }
            "BDS"
        },
        0x40 => {
            proof {
                reveal_strlit("IRN");
            }
            "IRN"
        },
        0x02 => {
            proof {
                reveal_strlit("SBS");
            }
            "SBS"
        },
        _ => {
            proof {
                reveal_strlit("???");
            }
            "???"
        },
    }
}

/// The bytes of a C character buffer before its first NUL (all of it when
/// there is none).
pub open spec fn until_nul(buf: Seq<i8>) -> Seq<u8>
    decreases buf.len(),
{
    if buf.len() == 0 || buf[0] == 0 {
        Seq::<u8>::empty()
    } else {
        seq![buf[0] as u8] + until_nul(buf.drop_first())
    }
}

/// A C string ends at its first NUL: whatever follows the terminator does not
/// change the text.
pub proof fn law_text_ends_at_nul(text: Seq<i8>, rest: Seq<i8>)
    requires
        !text.contains(0i8),
    ensures
        until_nul(text + seq![0i8] + rest) == until_nul(text),
        spec_c_string(text + seq![0i8] + rest) == spec_c_string(text),
    decreases text.len(),
{
    if text.len() == 0 {
        assert((text + seq![0i8] + rest)[0] == 0);
    } else {
        assert(text[0] != 0);
        assert(!text.drop_first().contains(0i8)) by {
            if text.drop_first().contains(0i8) {
                let k = choose|k: int| 0 <= k < text.drop_first().len() && text.drop_first()[k] == 0;
                assert(text[k + 1] == 0);
            }
        }
        law_text_ends_at_nul(text.drop_first(), rest);
        assert((text + seq![0i8] + rest).drop_first() =~= text.drop_first() + seq![0i8] + rest);
    }
}

/// The bytes taken from a C buffer are exactly the buffer's bytes before its
/// first NUL: with no NUL, all of them; with one after `text`, exactly `text`,
/// whatever follows.
pub proof fn law_bytes_before_nul(text: Seq<i8>, rest: Seq<i8>)
    requires
        !text.contains(0i8),
    ensures
        until_nul(text) == text.map_values(|c: i8| c as u8),
        until_nul(text + seq![0i8] + rest) == text.map_values(|c: i8| c as u8),
        until_nul(text + seq![0i8] + rest).len() == text.len(),
    decreases text.len(),
{
    law_text_ends_at_nul(text, rest);
    if text.len() == 0 {
        assert(text.map_values(|c: i8| c as u8) =~= Seq::<u8>::empty());
    } else {
        assert(text[0] != 0);
        assert(!text.drop_first().contains(0i8)) by {
            if text.drop_first().contains(0i8) {
                let k = choose|k: int| 0 <= k < text.drop_first().len() && text.drop_first()[k] == 0;
                assert(text[k + 1] == 0);
            }
        }
        law_bytes_before_nul(text.drop_first(), rest);
        assert(text.map_values(|c: i8| c as u8) =~= seq![text[0] as u8]
            + text.drop_first().map_values(|c: i8| c as u8));
    }
}

/// What `String::from_utf8_lossy` makes of a byte sequence.
pub uninterp spec fn utf8_lossy(bytes: Seq<u8>) -> Seq<char>;

/// Calls `String::from_utf8_lossy`. Its result is named `utf8_lossy`; the
/// standard library documents that valid UTF-8 comes back unchanged, which is
/// stated with vstd's UTF-8 decoding, and that invalid sequences become
/// U+FFFD, so a NUL character can only come from a zero byte. How invalid
/// sequences are grouped into replacement characters is left to the name.
#[verifier::external_body]
fn string_from_utf8_lossy(bytes: &[u8]) -> (s: String)
    ensures
        s@ == utf8_lossy(bytes@),
        valid_utf8(bytes@) ==> s@ == decode_utf8(bytes@),
        !bytes@.contains(0u8) ==> !s@.contains('\0'),
{
    String::from_utf8_lossy(bytes).into_owned()
}

/// The text of a NUL-terminated C character buffer.
pub open spec fn spec_c_string(buf: Seq<i8>) -> Seq<char> {
    utf8_lossy(until_nul(buf))
}

proof fn lemma_until_nul_has_no_zero(buf: Seq<i8>)
    ensures
        !until_nul(buf).contains(0u8),
    decreases buf.len(),
{
    if buf.len() > 0 && buf[0] != 0 {
        lemma_until_nul_has_no_zero(buf.drop_first());
        let c = buf[0];
        assert(c != 0 ==> c as u8 != 0) by (bit_vector);
        let t = until_nul(buf);
        assert(t == seq![c as u8] + until_nul(buf.drop_first()));
        if t.contains(0u8) {
            let k = choose|k: int| 0 <= k < t.len() && t[k] == 0u8;
            if k > 0 {
                assert(until_nul(buf.drop_first())[k - 1] == 0u8);
            }
        }
    }
}

/// Converts a NUL-terminated C character buffer to a `String`: the bytes up to
/// the first NUL, decoded as UTF-8 with invalid sequences replaced.
pub fn c_char_to_string(buf: &[i8]) -> (s: String)
    ensures
        s@ == spec_c_string(buf@),
        valid_utf8(until_nul(buf@)) ==> s@ == decode_utf8(until_nul(buf@)),
        !s@.contains('\0'),
{
    proof {
        lemma_until_nul_has_no_zero(buf@);
    }
    let mut bytes: Vec<u8> = Vec::new();
    let mut i: usize = 0;
    assert(buf@.skip(0) =~= buf@);
    assert(bytes@ + until_nul(buf@) =~= until_nul(buf@));
    while i < buf.len() && buf[i] != 0
        invariant
            i <= buf.len(),
            until_nul(buf@) == bytes@ + until_nul(buf@.skip(i as int)),
        decreases buf.len() - i,
    {
        let c = buf[i];
        let ghost rest = buf@.skip(i as int);
        let ghost before = bytes@;
        assert(rest[0] == c);
        assert(rest.drop_first() =~= buf@.skip(i + 1));
        assert(until_nul(rest) == seq![c as u8] + until_nul(buf@.skip(i + 1)));
        bytes.push(c as u8);
        assert(before + (seq![c as u8] + until_nul(buf@.skip(i + 1))) =~= bytes@ + until_nul(
            buf@.skip(i + 1),
        ));
        i = i + 1;
    }
    assert(until_nul(buf@.skip(i as int)) =~= Seq::<u8>::empty());
    assert(bytes@ =~= until_nul(buf@));
    string_from_utf8_lossy(bytes.as_slice())
}

/// What has to be fetched from the decoder after it reported a result.
#[derive(Clone, Copy, Debug, PartialEq, Eq, Structural)]
pub enum DecodeStep {
    /// No message completed: nothing to report.
    NoMessage,
    /// Observation data: fetch every observation record.
    Observations,
    /// Ephemeris: fetch the ephemeris summary.
    Ephemeris,
    /// Station information: fetch the station record.
    Station,
    /// SSR correction: nothing to fetch.
    Ssr,
    /// Any other message: nothing to fetch.
    Other,
}

/// The step that the decoder's return code `ret` calls for.
pub open spec fn spec_decode_step(ret: i32) -> DecodeStep {
    if ret <= 0 {
        DecodeStep::NoMessage
    } else if ret == 1 {
        DecodeStep::Observations
    } else if ret == 2 {
        DecodeStep::Ephemeris
    } else if ret == 5 {
        DecodeStep::Station
    } else if ret == 10 || ret == 20 {
        DecodeStep::Ssr
    } else {
        DecodeStep::Other
    }
}

/// Decides, from the decoder's return code, what has to be fetched next.
pub fn decode_step(ret: i32) -> (step: DecodeStep)
    ensures
        step == spec_decode_step(ret),
{
    if ret <= 0 {
        DecodeStep::NoMessage
    } else if ret == 1 {
        DecodeStep::Observations
    } else if ret == 2 {
        DecodeStep::Ephemeris
    } else if ret == 5 {
        DecodeStep::Station
    } else if ret == 10 || ret == 20 {
        DecodeStep::Ssr
    } else {
        DecodeStep::Other
    }
}

/// What was fetched from the decoder for one result; each status is the
/// decoder's `ok` flag (non-zero on success).
pub enum FetchedData {
    /// Nothing was fetched.
    Nothing,
    /// One (status, record) pair per observation index, in index order.
    Observations(Vec<(i32, RtcmObs)>),
    /// Status and ephemeris summary.
    Ephemeris(i32, RtcmEphSummary),
    /// Status and station record.
    Station(i32, RtcmSta),
}

/// The records whose fetch succeeded, in order.
pub open spec fn kept_observations(fetched: Seq<(i32, RtcmObs)>) -> Seq<RtcmObs>
    decreases fetched.len(),
{
    if fetched.len() == 0 {
        Seq::<RtcmObs>::empty()
    } else {
        kept_observations(fetched.drop_last()) + (if fetched.last().0 != 0 {
            seq![fetched.last().1]
        } else {
            Seq::<RtcmObs>::empty()
        })
    }
}

/// The event for a decoder result and what was fetched for it: `None` when no
/// message completed; otherwise an event carrying the result's message type and
/// description, chosen by the return code: observations (those fetched
/// successfully), ephemeris or station when its fetch succeeded (else `Other`),
/// SSR for codes 10 and 20, and `Other` with the code for the rest.
pub open spec fn event_matches(
    result: RtcmDecodeResult,
    fetched: FetchedData,
    ev: Option<RtcmEvent>,
) -> bool {
    let desc = spec_c_string(result.msg_type_str@);
    let ret = result.ret;
    if ret <= 0 {
        ev is None
    } else {
        &&& ev is Some
        &&& ev->0.msg_type_of() == result.msg_type
        &&& ev->0.msg_desc_of() == desc
        &&& if ret == 1 {
            &&& ev->0 is Observation
            &&& ev->0->observations@ == (match fetched {
                FetchedData::Observations(v) => kept_observations(v@),
                _ => Seq::<RtcmObs>::empty(),
            })
        } else if ret == 2 {
            match fetched {
                FetchedData::Ephemeris(ok, summary) if ok != 0 => {
                    &&& ev->0 is Ephemeris
                    &&& ev->0->summary == summary
                },
                _ => ev->0 is Other && ev->0->ret == ret,
            }
        } else if ret == 5 {
            match fetched {
                FetchedData::Station(ok, sta) if ok != 0 => {
                    &&& ev->0 is Station
                    &&& ev->0->staid == sta.staid
                    &&& ev->0->pos_bits == sta.pos_bits
                    &&& ev->0->hgt_bits == sta.hgt_bits
                    &&& ev->0->antdes@ == spec_c_string(sta.antdes@)
                    &&& ev->0->rectype@ == spec_c_string(sta.rectype@)
                },
                _ => ev->0 is Other && ev->0->ret == ret,
            }
        } else if ret == 10 || ret == 20 {
            ev->0 is Ssr
        } else {
            ev->0 is Other && ev->0->ret == ret
        }
    }
}

fn keep_fetched_observations(fetched: &Vec<(i32, RtcmObs)>) -> (obs: Vec<RtcmObs>)
    ensures
        obs@ == kept_observations(fetched@),
{
    let mut obs: Vec<RtcmObs> = Vec::new();
    let mut i: usize = 0;
    while i < fetched.len()
        invariant
            i <= fetched.len(),
            obs@ == kept_observations(fetched@.take(i as int)),
        decreases fetched.len() - i,
    {
        let (ok, o) = fetched[i];
        assert(fetched@.take(i + 1).drop_last() =~= fetched@.take(i as int));
        if ok != 0 {
            obs.push(o);
        }
        i = i + 1;
    }
    assert(fetched@.take(fetched.len() as int) =~= fetched@);
    obs
}

/// Turns one decoder result, with what was fetched for it, into the decoded
/// event (see `event_matches`).
pub fn message_event(result: &RtcmDecodeResult, fetched: FetchedData) -> (ev: Option<RtcmEvent>)
    ensures
        event_matches(*result, fetched, ev),
{
    let ret = result.ret;
    if ret <= 0 {
        return None;
    }
    let msg_type = result.msg_type;
    let msg_desc = c_char_to_string(result.msg_type_str.as_slice());
    if ret == 1 {
        let observations = match &fetched {
            FetchedData::Observations(v) => keep_fetched_observations(v),
            _ => Vec::new(),
        };
        Some(RtcmEvent::Observation { msg_type, msg_desc, observations })
    } else if ret == 2 {
        match fetched {
            FetchedData::Ephemeris(ok, summary) if ok != 0 => Some(
                RtcmEvent::Ephemeris { msg_type, msg_desc, summary },
            ),
            _ => Some(RtcmEvent::Other { msg_type, msg_desc, ret }),
        }
    } else if ret == 5 {
        match fetched {
            FetchedData::Station(ok, sta) if ok != 0 => Some(
                RtcmEvent::Station {
                    msg_type,
                    msg_desc,
                    staid: sta.staid,
                    pos_bits: sta.pos_bits,
                    hgt_bits: sta.hgt_bits,
                    antdes: c_char_to_string(sta.antdes.as_slice()),
                    rectype: c_char_to_string(sta.rectype.as_slice()),
                },
            ),
            _ => Some(RtcmEvent::Other { msg_type, msg_desc, ret }),
        }
    } else if ret == 10 || ret == 20 {
        Some(RtcmEvent::Ssr { msg_type, msg_desc })
    } else {
        Some(RtcmEvent::Other { msg_type, msg_desc, ret })
    }
}

/// Pairs the first `n` message types with their counts, in order.
pub fn pair_counts(types: &[i32], counts: &[u32], n: usize) -> (pairs: Vec<(i32, u32)>)
    requires
        n <= types@.len(),
        n <= counts@.len(),
    ensures
        pairs@.len() == n,
        forall|i: int| 0 <= i < n ==> #[trigger] pairs@[i] == (types@[i], counts@[i]),
{
    let mut pairs: Vec<(i32, u32)> = Vec::new();
    let mut i: usize = 0;
    while i < n
        invariant
            i <= n,
            n <= types@.len(),
            n <= counts@.len(),
            pairs@.len() == i,
            forall|j: int| 0 <= j < i ==> #[trigger] pairs@[j] == (types@[j], counts@[j]),
        decreases n - i,
    {
        pairs.push((types[i], counts[i]));
        i = i + 1;
    }
    pairs
}

} // verus!
